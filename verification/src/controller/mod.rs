//! What a user may ask of the store, and what becomes of it: each request is
//! checked against the rights of the acting user before it is carried out.

use vstd::prelude::*;

pub mod group;
pub mod user;
use crate::database::Database;
use crate::error::{answers, Error};
use crate::fs_db::{dir_at, dir_fits, file_at, file_fits, insert_dir_step, insert_file_step,
    new_dir, new_file, store_dir_step, store_file_step};
use crate::fs_ops::{add_group_step, insert_refusal};
use crate::models::{default_dir, default_file, Dir, DirBuilder, DirView, File, FileBuilder,
    FileView, FsNode, may_access, UserView};
use crate::msg::{DirMsg, FileMsg, id_or, text_or};
use crate::ops::{done, ReplyView};
use crate::store::Table;
use crate::user_db::{group_at, user_at};

verus! {

/// Whether the user may use a node of that owner which the groups in
/// `group_ids` may use. A user that is not stored is a `BadCall`.
pub open spec fn granted(
    owner_id: u64,
    group_ids: Seq<u64>,
    user: Result<Option<UserView>, Error>,
) -> Result<(), Error> {
    match user {
        Err(e) => Err(e),
        Ok(None) => Err(Error::BadCall),
        Ok(Some(u)) => if may_access(owner_id, group_ids, u) {
            Ok(())
        } else {
            Err(Error::MissingAuthorization)
        },
    }
}

/// The directory `dir_id`, if the user may read it, or write it where
/// `write` is set.
pub open spec fn dir_for(fs: Seq<Table>, users: Seq<Table>, dir_id: u64, user_id: u64, write: bool) ->
    Result<DirView, Error> {
    match dir_at(fs, dir_id) {
        Err(e) => Err(e),
        Ok(None) => Err(Error::NoSuchDir),
        Ok(Some(d)) => match granted(
            d.owner_id,
            if write {
                d.write_group_ids
            } else {
                d.read_group_ids
            },
            user_at(users, user_id),
        ) {
            Err(e) => Err(e),
            Ok(_) => Ok(d),
        },
    }
}

/// The file `file_id`, if the user may read it, or write it where `write` is
/// set.
pub open spec fn file_for(
    fs: Seq<Table>,
    users: Seq<Table>,
    file_id: u64,
    user_id: u64,
    write: bool,
) -> Result<FileView, Error> {
    match file_at(fs, file_id) {
        Err(e) => Err(e),
        Ok(None) => Err(Error::NoSuchFile),
        Ok(Some(f)) => match granted(
            f.owner_id,
            if write {
                f.write_group_ids
            } else {
                f.read_group_ids
            },
            user_at(users, user_id),
        ) {
            Err(e) => Err(e),
            Ok(_) => Ok(f),
        },
    }
}

/// The directory `dir_id`, for a user who may read it, or write it where
/// `write` is set.
pub fn fetch_dir(db: &Database, dir_id: u64, user_id: u64, write: bool) -> (r: Result<Dir, Error>)
    requires
        db.wf(),
    ensures
        answers(r, dir_for(db.fs(), db.users(), dir_id, user_id, write)),
        r matches Ok(d) ==> d.id == dir_id,
{
    let dir = match db.get_dir(dir_id)? {
        Some(d) => d,
        None => {
            return Err(Error::NoSuchDir);
        },
    };
    let user = match db.get_user(user_id)? {
        Some(u) => u,
        None => {
            return Err(Error::BadCall);
        },
    };
    let allowed = if write {
        dir.may_write(&user)
    } else {
        dir.may_read(&user)
    };
    if allowed {
        Ok(dir)
    } else {
        Err(Error::MissingAuthorization)
    }
}

/// The file `file_id`, for a user who may read it, or write it where
/// `write` is set.
pub fn fetch_file(db: &Database, file_id: u64, user_id: u64, write: bool) -> (r: Result<File, Error>)
    requires
        db.wf(),
    ensures
        answers(r, file_for(db.fs(), db.users(), file_id, user_id, write)),
        r matches Ok(f) ==> f.id == file_id,
{
    let file = match db.get_file(file_id)? {
        Some(f) => f,
        None => {
            return Err(Error::NoSuchFile);
        },
    };
    let user = match db.get_user(user_id)? {
        Some(u) => u,
        None => {
            return Err(Error::BadCall);
        },
    };
    let allowed = if write {
        file.may_write(&user)
    } else {
        file.may_read(&user)
    };
    if allowed {
        Ok(file)
    } else {
        Err(Error::MissingAuthorization)
    }
}

/// Whether a text is short enough to be stored with a length in 16 bits.
pub open spec fn text_fits(text: Seq<char>) -> bool {
    vstd::utf8::encode_utf8(text).len() <= crate::codec::MAX_COUNT
}

/// Why a new node below the parent that a message names is refused for the
/// user, if it is: no parent is named, or the user may not write it.
pub open spec fn add_refusal(
    fs: Seq<Table>,
    users: Seq<Table>,
    parent_id: Option<crate::models::Id>,
    user_id: u64,
) -> Option<Error> {
    if parent_id is None {
        Some(Error::BadCall)
    } else {
        match dir_for(fs, users, id_or(parent_id, 0), user_id, true) {
            Err(e) => Some(e),
            Ok(_) => None,
        }
    }
}

/// Adds a new, empty directory below the parent that `dir_infos` names, with
/// the name that it gives, for the user, who must be allowed to write the
/// parent and becomes the owner. No group may read or write the new
/// directory.
pub fn add_dir(db: &mut Database, dir_infos: DirMsg, user_id: u64) -> (r: Result<Dir, Error>)
    requires
        old(db).wf(),
    ensures
        final(db).wf(),
        final(db).users() == old(db).users(),
        final(db).sessions() == old(db).sessions(),
        dir_infos.parent_id is None ==> (r is Err && r->Err_0 is BadCall
            && final(db).fs() == old(db).fs()),
        match r {
            Ok(d) => {
                &&& add_refusal(old(db).fs(), old(db).users(), dir_infos.parent_id, user_id)
                    is None
                &&& d.id != 0
                &&& d@ == new_dir(
                    d.id,
                    id_or(dir_infos.parent_id, 0),
                    user_id,
                    text_or(dir_infos.name, default_dir().name),
                )
                &&& insert_dir_step(old(db).fs(), d.id, d.parent_id, user_id, d.name@) == done(
                    ReplyView::Done,
                    final(db).fs(),
                )
            },
            Err(e) => e.is_store_failure() || (final(db).fs() == old(db).fs() && match add_refusal(
                old(db).fs(),
                old(db).users(),
                dir_infos.parent_id,
                user_id,
            ) {
                Some(refusal) => e == refusal,
                None => e is InconsistentDbState || insert_refusal(
                    old(db).fs(),
                    id_or(dir_infos.parent_id, 0),
                ) == Some(e),
            }),
        },
{
    let parent_id = match dir_infos.parent_id {
        Some(p) => p.as_int(),
        None => {
            return Err(Error::BadCall);
        },
    };
    let _parent = fetch_dir(db, parent_id, user_id, true)?;
    let mut dir_builder = DirBuilder::new().with_id(0).with_parent_id(parent_id).with_owner_id(
        user_id,
    );
    if let Some(n) = dir_infos.name {
        dir_builder.set_name(n.as_str());
    }
    let mut new_dir = dir_builder.build();
    db.insert_new_dir(&mut new_dir)?;
    Ok(new_dir)
}

/// The directory, for a user who may read it. Without a user nothing may be
/// read.
pub fn get_dir_info(dir_id: u64, user_id: Option<u64>, db: &Database) -> (r: Result<Dir, Error>)
    requires
        db.wf(),
    ensures
        answers(
            r,
            match user_id {
                Some(u) => dir_for(db.fs(), db.users(), dir_id, u, false),
                None => match dir_at(db.fs(), dir_id) {
                    Err(e) => Err(e),
                    Ok(None) => Err(Error::NoSuchDir),
                    Ok(Some(_)) => Err(Error::MissingAuthorization),
                },
            },
        ),
{
    match user_id {
        Some(u) => fetch_dir(db, dir_id, u, false),
        None => match db.get_dir(dir_id)? {
            Some(_) => Err(Error::MissingAuthorization),
            None => Err(Error::NoSuchDir),
        },
    }
}

/// The directory that `update_dir_infos` stores for the message, or why the
/// message is refused.
pub open spec fn dir_update(
    fs: Seq<Table>,
    users: Seq<Table>,
    id: Option<crate::models::Id>,
    parent_id: Option<crate::models::Id>,
    owner_id: Option<crate::models::Id>,
    name: Option<String>,
    user_id: u64,
) -> Result<DirView, Error> {
    if id is None {
        Err(Error::BadCall)
    } else {
        match dir_for(fs, users, id_or(id, 0), user_id, true) {
            Err(e) => Err(e),
            Ok(d) => Ok(
                DirView {
                    parent_id: id_or(parent_id, d.parent_id),
                    owner_id: id_or(owner_id, d.owner_id),
                    name: text_or(name, d.name),
                    ..d
                },
            ),
        }
    }
}

/// Changes parent, owner and name of the directory that `dir_info` names, as
/// far as it gives them, for a user who may write the directory. The
/// children and the groups of the directory stay as they are.
pub fn update_dir_infos(dir_info: DirMsg, user_id: u64, db: &mut Database) -> (r: Result<
    Dir,
    Error,
>)
    requires
        old(db).wf(),
    ensures
        final(db).wf(),
        final(db).users() == old(db).users(),
        final(db).sessions() == old(db).sessions(),
        dir_info.id is None ==> (r is Err && r->Err_0 is BadCall
            && final(db).fs() == old(db).fs()),
        match r {
            Ok(d) => {
                &&& dir_update(
                    old(db).fs(),
                    old(db).users(),
                    dir_info.id,
                    dir_info.parent_id,
                    dir_info.owner_id,
                    dir_info.name,
                    user_id,
                ) == Ok::<DirView, Error>(d@)
                &&& store_dir_step(old(db).fs(), d@) == done(ReplyView::Done, final(db).fs())
            },
            Err(e) => e.is_store_failure() || (final(db).fs() == old(db).fs() && match dir_update(
                old(db).fs(),
                old(db).users(),
                dir_info.id,
                dir_info.parent_id,
                dir_info.owner_id,
                dir_info.name,
                user_id,
            ) {
                Err(refusal) => e == refusal,
                Ok(d) => if !dir_fits(d) {
                    e is BadCall
                } else {
                    store_dir_step(old(db).fs(), d).reply == Err::<ReplyView, Error>(e)
                },
            }),
        },
{
    let id = match dir_info.id {
        Some(id) => id.as_int(),
        None => {
            return Err(Error::BadCall);
        },
    };
    let mut dir = fetch_dir(db, id, user_id, true)?;
    dir_info.apply_changes(&mut dir);
    db.update_dir(&dir)?;
    Ok(dir)
}

/// Adds a new file below the parent that `file_info` names, with the name
/// that it gives, for the user, who must be allowed to write the parent and
/// becomes the owner. No group may read or write the new file.
pub fn add_file(db: &mut Database, file_info: FileMsg, user_id: u64) -> (r: Result<File, Error>)
    requires
        old(db).wf(),
    ensures
        final(db).wf(),
        final(db).users() == old(db).users(),
        final(db).sessions() == old(db).sessions(),
        file_info.parent_id is None ==> (r is Err && r->Err_0 is BadCall
            && final(db).fs() == old(db).fs()),
        match r {
            Ok(f) => {
                &&& add_refusal(old(db).fs(), old(db).users(), file_info.parent_id, user_id)
                    is None
                &&& f.id != 0
                &&& f@ == new_file(
                    f.id,
                    id_or(file_info.parent_id, 0),
                    user_id,
                    text_or(file_info.name, default_file().name),
                    default_file().media_type,
                )
                &&& insert_file_step(
                    old(db).fs(),
                    f.id,
                    f.parent_id,
                    user_id,
                    f.name@,
                    f.media_type@,
                ) == done(ReplyView::Done, final(db).fs())
            },
            Err(e) => e.is_store_failure() || (final(db).fs() == old(db).fs() && match add_refusal(
                old(db).fs(),
                old(db).users(),
                file_info.parent_id,
                user_id,
            ) {
                Some(refusal) => e == refusal,
                None => e is InconsistentDbState || if text_fits(
                    text_or(file_info.name, default_file().name),
                ) {
                    insert_refusal(old(db).fs(), id_or(file_info.parent_id, 0)) == Some(e)
                } else {
                    e is BadCall
                },
            }),
        },
{
    let parent_id = match file_info.parent_id {
        Some(p) => p.as_int(),
        None => {
            return Err(Error::BadCall);
        },
    };
    let _parent = fetch_dir(db, parent_id, user_id, true)?;
    let mut file_builder = FileBuilder::new().with_parent_id(parent_id).with_owner_id(user_id);
    if let Some(n) = file_info.name {
        file_builder.set_name(n.as_str());
    }
    let mut new_file = file_builder.build();
    proof {
        reveal_strlit("");
        assert(new_file@.media_type =~= Seq::<char>::empty());
        assert(vstd::utf8::encode_utf8(new_file@.media_type).len() == 0);
    }
    db.insert_new_file(&mut new_file)?;
    Ok(new_file)
}

/// The file, for a user who may read it.
pub fn get_file_info(file_id: u64, user_id: u64, db: &Database) -> (r: Result<File, Error>)
    requires
        db.wf(),
    ensures
        answers(r, file_for(db.fs(), db.users(), file_id, user_id, false)),
{
    fetch_file(db, file_id, user_id, false)
}

/// The file that `update_file_infos` stores for the message, or why the
/// message is refused.
pub open spec fn file_update(
    fs: Seq<Table>,
    users: Seq<Table>,
    id: Option<crate::models::Id>,
    parent_id: Option<crate::models::Id>,
    owner_id: Option<crate::models::Id>,
    name: Option<String>,
    user_id: u64,
) -> Result<FileView, Error> {
    if id is None {
        Err(Error::BadCall)
    } else {
        match file_for(fs, users, id_or(id, 0), user_id, true) {
            Err(e) => Err(e),
            Ok(f) => Ok(
                FileView {
                    parent_id: id_or(parent_id, f.parent_id),
                    owner_id: id_or(owner_id, f.owner_id),
                    name: text_or(name, f.name),
                    ..f
                },
            ),
        }
    }
}

/// Changes parent, owner and name of the file that `file_info` names, as far
/// as it gives them, for a user who may write the file. The groups of the
/// file stay as they are.
pub fn update_file_infos(file_info: FileMsg, user_id: u64, db: &mut Database) -> (r: Result<
    File,
    Error,
>)
    requires
        old(db).wf(),
    ensures
        final(db).wf(),
        final(db).users() == old(db).users(),
        final(db).sessions() == old(db).sessions(),
        file_info.id is None ==> (r is Err && r->Err_0 is BadCall
            && final(db).fs() == old(db).fs()),
        match r {
            Ok(f) => {
                &&& file_update(
                    old(db).fs(),
                    old(db).users(),
                    file_info.id,
                    file_info.parent_id,
                    file_info.owner_id,
                    file_info.name,
                    user_id,
                ) == Ok::<FileView, Error>(f@)
                &&& store_file_step(old(db).fs(), f@) == done(ReplyView::Done, final(db).fs())
            },
            Err(e) => e.is_store_failure() || (final(db).fs() == old(db).fs() && match file_update(
                old(db).fs(),
                old(db).users(),
                file_info.id,
                file_info.parent_id,
                file_info.owner_id,
                file_info.name,
                user_id,
            ) {
                Err(refusal) => e == refusal,
                Ok(f) => if !file_fits(f) {
                    e is BadCall
                } else {
                    store_file_step(old(db).fs(), f).reply == Err::<ReplyView, Error>(e)
                },
            }),
        },
{
    let id = match file_info.id {
        Some(id) => id.as_int(),
        None => {
            return Err(Error::BadCall);
        },
    };
    let mut file = fetch_file(db, id, user_id, true)?;
    file_info.apply_changes(&mut file);
    db.update_file(&file)?;
    Ok(file)
}

/// Why the user may not change who may use the node, if they may not: the
/// group is not stored, the node is not stored, or the user does not own it.
pub open spec fn permission_refusal(
    fs: Seq<Table>,
    users: Seq<Table>,
    fs_node_id: u64,
    group_id: u64,
    user_id: u64,
) -> Option<Error> {
    match group_at(users, group_id) {
        Err(e) => Some(e),
        Ok(None) => Some(Error::NoSuchTarget),
        Ok(Some(_)) => match file_at(fs, fs_node_id) {
            Err(e) => Some(e),
            Ok(Some(f)) => if f.owner_id == user_id {
                None
            } else {
                Some(Error::MissingAuthorization)
            },
            Ok(None) => match dir_at(fs, fs_node_id) {
                Err(e) => Some(e),
                Ok(Some(d)) => if d.owner_id == user_id {
                    None
                } else {
                    Some(Error::MissingAuthorization)
                },
                Ok(None) => Some(Error::NoSuchTarget),
            },
        },
    }
}

/// Checks `permission_refusal`.
fn check_permission_change(db: &Database, fs_node_id: u64, group_id: u64, user_id: u64) -> (r:
    Result<(), Error>)
    requires
        db.wf(),
    ensures
        match r {
            Ok(_) => permission_refusal(db.fs(), db.users(), fs_node_id, group_id, user_id)
                is None,
            Err(e) => e.is_store_failure() || permission_refusal(
                db.fs(),
                db.users(),
                fs_node_id,
                group_id,
                user_id,
            ) == Some(e),
        },
{
    if db.get_group(group_id)?.is_none() {
        return Err(Error::NoSuchTarget);
    }
    let owner_id = match db.get_file(fs_node_id)? {
        Some(file) => file.owner_id(),
        None => match db.get_dir(fs_node_id)? {
            Some(dir) => dir.owner_id(),
            None => {
                return Err(Error::NoSuchTarget);
            },
        },
    };
    if owner_id != user_id {
        return Err(Error::MissingAuthorization);
    }
    Ok(())
}

/// Lets the members of the group read the node, for the user who owns the
/// node.
pub fn add_read_permission(fs_node_id: u64, group_id: u64, user_id: u64, db: &mut Database) -> (r:
    Result<(), Error>)
    requires
        old(db).wf(),
    ensures
        final(db).wf(),
        final(db).users() == old(db).users(),
        final(db).sessions() == old(db).sessions(),
        match r {
            Ok(_) => {
                &&& permission_refusal(
                    old(db).fs(),
                    old(db).users(),
                    fs_node_id,
                    group_id,
                    user_id,
                ) is None
                &&& add_group_step(old(db).fs(), fs_node_id, group_id, false) == done(
                    ReplyView::Done,
                    final(db).fs(),
                )
            },
            Err(e) => e.is_store_failure() || (final(db).fs() == old(db).fs()
                && match permission_refusal(
                old(db).fs(),
                old(db).users(),
                fs_node_id,
                group_id,
                user_id,
            ) {
                Some(refusal) => e == refusal,
                None => add_group_step(old(db).fs(), fs_node_id, group_id, false).reply == Err::<
                    ReplyView,
                    Error,
                >(e),
            }),
        },
{
    check_permission_change(db, fs_node_id, group_id, user_id)?;
    db.add_readable_group(fs_node_id, group_id)
}

/// Lets the members of the group write the node, for the user who owns the
/// node.
pub fn add_write_permission(fs_node_id: u64, group_id: u64, user_id: u64, db: &mut Database) -> (r:
    Result<(), Error>)
    requires
        old(db).wf(),
    ensures
        final(db).wf(),
        final(db).users() == old(db).users(),
        final(db).sessions() == old(db).sessions(),
        match r {
            Ok(_) => {
                &&& permission_refusal(
                    old(db).fs(),
                    old(db).users(),
                    fs_node_id,
                    group_id,
                    user_id,
                ) is None
                &&& add_group_step(old(db).fs(), fs_node_id, group_id, true) == done(
                    ReplyView::Done,
                    final(db).fs(),
                )
            },
            Err(e) => e.is_store_failure() || (final(db).fs() == old(db).fs()
                && match permission_refusal(
                old(db).fs(),
                old(db).users(),
                fs_node_id,
                group_id,
                user_id,
            ) {
                Some(refusal) => e == refusal,
                None => add_group_step(old(db).fs(), fs_node_id, group_id, true).reply == Err::<
                    ReplyView,
                    Error,
                >(e),
            }),
        },
{
    check_permission_change(db, fs_node_id, group_id, user_id)?;
    db.add_writeable_group(fs_node_id, group_id)
}

} // verus!
