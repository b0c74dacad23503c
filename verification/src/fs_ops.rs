//! The operations on the tree of files and directories.
//!
//! They work on three trees: the file records, the directory records and the
//! permission records, each keyed by the node's identifier.

use vstd::prelude::*;
use sled::transaction::TransactionalTree;
use crate::bytes::{be64, be64_value, id_key, put_bytes, put_u64, read_u64};
use crate::codec::{count_at, decode_file, dir_name_start, empty_permissions,
    entry_to_dir_incomplete, first_index, id_list_at, is_perm_record, list_push, list_remove,
    MAX_COUNT, parse_dir, parse_file, parse_id_list_at, parse_read_group_ids,
    parse_write_group_ids, perm_bytes, push_to_list, remove_from_list};
use crate::error::Error;
use crate::ops::{agrees, done, fail, Reply, ReplyView, Step};
use crate::store::{lookup, Table, view_get, view_insert, view_remove, views_state};

verus! {

/// The tree of file records.
pub const FILES: usize = 0;

/// The tree of directory records.
pub const DIRS: usize = 1;

/// The tree of permission records.
pub const PERMS: usize = 2;

/// Whether a file or a directory is stored under `id`.
pub open spec fn node_exists(s: Seq<Table>, id: u64) -> bool {
    s[FILES as int].contains_key(be64(id)) || s[DIRS as int].contains_key(be64(id))
}

/// `s` with `value` stored under the key of `id` in the tree `at`.
pub open spec fn put(s: Seq<Table>, at: int, id: u64, value: Seq<u8>) -> Seq<Table> {
    s.update(at, s[at].insert(be64(id), value))
}

/// `s` with nothing stored under the key of `id` in the tree `at`.
pub open spec fn del(s: Seq<Table>, at: int, id: u64) -> Seq<Table> {
    s.update(at, s[at].remove(be64(id)))
}

/// Why the directory `parent_id` cannot take one more child, if it cannot:
/// it is not there, its record is malformed, or its list is full.
pub open spec fn insert_refusal(s: Seq<Table>, parent_id: u64) -> Option<Error> {
    let parent = lookup(s[DIRS as int], be64(parent_id));
    if parent is None {
        Some(Error::NoSuchDir)
    } else if id_list_at(parent->0, 16) is None {
        Some(Error::EncodingError)
    } else if count_at(parent->0, 16) >= MAX_COUNT {
        Some(Error::BadCall)
    } else {
        None
    }
}

/// A new node: refused while `id` is zero or in use; else the parent gains
/// `id` as its last child, and the node gets its record and an empty
/// permission record.
pub open spec fn insert_node_step(
    s: Seq<Table>,
    table: int,
    id: u64,
    parent_id: u64,
    record: Seq<u8>,
) -> Step {
    if id == 0 || node_exists(s, id) {
        done(ReplyView::IdTaken, s)
    } else if insert_refusal(s, parent_id) is Some {
        fail(insert_refusal(s, parent_id)->0, s)
    } else {
        let parent = s[DIRS as int][be64(parent_id)];
        let s1 = put(s, DIRS as int, parent_id, list_push(parent, 16, id));
        let s2 = put(s1, table, id, record);
        done(ReplyView::Done, put(s2, PERMS as int, id, perm_bytes(Seq::empty(), Seq::empty())))
    }
}

/// A new root directory: refused while `id` is zero or in use; else it gets
/// its record and an empty permission record.
pub open spec fn insert_root_step(s: Seq<Table>, id: u64, record: Seq<u8>) -> Step {
    if id == 0 || node_exists(s, id) {
        done(ReplyView::IdTaken, s)
    } else {
        let s1 = put(s, DIRS as int, id, record);
        done(ReplyView::Done, put(s1, PERMS as int, id, perm_bytes(Seq::empty(), Seq::empty())))
    }
}

/// A file gets a new record and new permissions.
pub open spec fn update_file_step(s: Seq<Table>, id: u64, record: Seq<u8>, permissions: Seq<u8>) ->
    Step {
    if !s[FILES as int].contains_key(be64(id)) {
        fail(Error::NoSuchFile, s)
    } else {
        done(ReplyView::Done, put(put(s, FILES as int, id, record), PERMS as int, id, permissions))
    }
}

/// The record of a directory with a new parent, owner and name, and with the
/// list of children of the record `stored`, byte for byte.
pub open spec fn dir_rewritten(stored: Seq<u8>, parent_id: u64, owner_id: u64, name: Seq<u8>) ->
    Seq<u8> {
    be64(parent_id) + be64(owner_id) + stored.subrange(16, dir_name_start(stored)) + name
}

/// A directory gets a new parent, owner, name and permissions; its children
/// stay.
pub open spec fn update_dir_step(
    s: Seq<Table>,
    id: u64,
    parent_id: u64,
    owner_id: u64,
    name: Seq<u8>,
    permissions: Seq<u8>,
) -> Step {
    let stored = lookup(s[DIRS as int], be64(id));
    if stored is None {
        fail(Error::NoSuchDir, s)
    } else if id_list_at(stored->0, 16) is None {
        fail(Error::EncodingError, s)
    } else {
        let s1 = put(s, DIRS as int, id, dir_rewritten(stored->0, parent_id, owner_id, name));
        done(ReplyView::Done, put(s1, PERMS as int, id, permissions))
    }
}

/// The identifier of the parent in a file or directory record.
pub open spec fn parent_in(record: Seq<u8>) -> u64 {
    be64_value(record.subrange(0, 8))
}

/// `s` with `id` taken out of the list of children of `parent_id`, or the
/// error that this runs into: the parent is not there, its record is
/// malformed, or it does not list `id`.
pub open spec fn unlink_step(s: Seq<Table>, parent_id: u64, id: u64) -> Result<Seq<Table>, Error> {
    let parent = lookup(s[DIRS as int], be64(parent_id));
    if parent is None {
        Err(Error::InconsistentDbState)
    } else if id_list_at(parent->0, 16) is None {
        Err(Error::EncodingError)
    } else if !(id_list_at(parent->0, 16)->0).contains(id) {
        Err(Error::InconsistentDbState)
    } else {
        Ok(
            put(
                s,
                DIRS as int,
                parent_id,
                list_remove(parent->0, 16, first_index(id_list_at(parent->0, 16)->0, id)),
            ),
        )
    }
}

/// A file goes: its record is removed and its parent lists it no more. The
/// reply is the record as it was.
pub open spec fn remove_file_step(s: Seq<Table>, id: u64) -> Step {
    let record = lookup(s[FILES as int], be64(id));
    if record is None {
        fail(Error::NoSuchFile, s)
    } else if parse_file(id, record->0) is None {
        fail(Error::EncodingError, s)
    } else {
        match unlink_step(s, parent_in(record->0), id) {
            Err(e) => fail(e, s),
            Ok(s1) => done(ReplyView::Record(record->0), del(s1, FILES as int, id)),
        }
    }
}

/// Removes everything that can be reached from the identifiers in `stack`
/// through lists of children: each directory record met, with the
/// permissions of the node, and for what is no directory the file record
/// and the permissions. The result is what the three trees hold afterwards,
/// or `None` if a directory record met is malformed.
#[verifier::opaque]
pub open spec fn sweep(files: Table, dirs: Table, perms: Table, stack: Seq<u64>) -> Option<
    (Table, Table, Table),
>
    decreases dirs.dom().len(), stack.len(),
    when dirs.dom().finite()
{
    if stack.len() == 0 {
        Some((files, dirs, perms))
    } else {
        let key = be64(stack.last());
        let rest = stack.drop_last();
        if dirs.contains_key(key) {
            if id_list_at(dirs[key], 16) is None {
                None
            } else {
                sweep(
                    files,
                    dirs.remove(key),
                    perms.remove(key),
                    rest + (id_list_at(dirs[key], 16)->0),
                )
            }
        } else {
            sweep(files.remove(key), dirs, perms.remove(key), rest)
        }
    }
}

/// `sweep` on an empty stack changes nothing.
pub proof fn lemma_sweep_done(files: Table, dirs: Table, perms: Table)
    requires
        dirs.dom().finite(),
    ensures
        sweep(files, dirs, perms, Seq::empty()) == Some((files, dirs, perms)),
{
    reveal(sweep);
}

/// `sweep` where the last identifier on the stack is a directory.
pub proof fn lemma_sweep_dir(files: Table, dirs: Table, perms: Table, stack: Seq<u64>)
    requires
        dirs.dom().finite(),
        stack.len() > 0,
        dirs.contains_key(be64(stack.last())),
    ensures
        sweep(files, dirs, perms, stack) == if id_list_at(dirs[be64(stack.last())], 16) is None {
            None
        } else {
            sweep(
                files,
                dirs.remove(be64(stack.last())),
                perms.remove(be64(stack.last())),
                stack.drop_last() + (id_list_at(dirs[be64(stack.last())], 16)->0),
            )
        },
{
    reveal(sweep);
}

/// `sweep` where the last identifier on the stack is no directory.
pub proof fn lemma_sweep_leaf(files: Table, dirs: Table, perms: Table, stack: Seq<u64>)
    requires
        dirs.dom().finite(),
        stack.len() > 0,
        !dirs.contains_key(be64(stack.last())),
    ensures
        sweep(files, dirs, perms, stack) == sweep(
            files.remove(be64(stack.last())),
            dirs,
            perms.remove(be64(stack.last())),
            stack.drop_last(),
        ),
{
    reveal(sweep);
}

/// The trees of `s` after `sweep` from `stack`.
pub open spec fn swept(s: Seq<Table>, stack: Seq<u64>) -> Option<Seq<Table>> {
    match sweep(s[FILES as int], s[DIRS as int], s[PERMS as int], stack) {
        None => None,
        Some((files, dirs, perms)) => Some(seq![files, dirs, perms]),
    }
}

/// A directory goes, with all that is below it: a root directory is refused;
/// else its parent lists it no more, its record is removed, and so is every
/// record of a file, a directory or permissions below it. Its own
/// permission record stays. The reply is its record as it was.
pub open spec fn remove_dir_step(s: Seq<Table>, id: u64) -> Step {
    let record = lookup(s[DIRS as int], be64(id));
    if record is None {
        fail(Error::NoSuchDir, s)
    } else if record->0.len() < 8 {
        fail(Error::EncodingError, s)
    } else if parent_in(record->0) == 0 {
        fail(Error::ForbiddenAction, s)
    } else if parse_dir(id, record->0) is None {
        fail(Error::EncodingError, s)
    } else {
        match unlink_step(s, parent_in(record->0), id) {
            Err(e) => fail(e, s),
            Ok(s1) => match swept(del(s1, DIRS as int, id), id_list_at(record->0, 16)->0) {
                None => fail(Error::EncodingError, s),
                Some(s2) => done(ReplyView::Record(record->0), s2),
            },
        }
    }
}

/// The permission record of a node goes; the reply is the record as it was,
/// if there was one.
pub open spec fn remove_permissions_step(s: Seq<Table>, id: u64) -> Step {
    match lookup(s[PERMS as int], be64(id)) {
        None => done(ReplyView::Nothing, s),
        Some(record) => done(ReplyView::Record(record), del(s, PERMS as int, id)),
    }
}

/// Where the list of groups that may read (`write` false) or write (`write`
/// true) starts in a permission record.
pub open spec fn group_list_start(record: Seq<u8>, write: bool) -> int {
    if write {
        2 + 8 * count_at(record, 0)
    } else {
        0
    }
}

/// A group is added at the end of the list of those that may read, or write,
/// a node; a group that the list holds already is added once more.
pub open spec fn add_group_step(s: Seq<Table>, node_id: u64, group_id: u64, write: bool) -> Step {
    let record = lookup(s[PERMS as int], be64(node_id));
    if record is None {
        fail(Error::NoSuchTarget, s)
    } else if !is_perm_record(record->0) {
        fail(Error::EncodingError, s)
    } else if count_at(record->0, group_list_start(record->0, write)) >= MAX_COUNT {
        fail(Error::BadCall, s)
    } else {
        done(
            ReplyView::Done,
            put(
                s,
                PERMS as int,
                node_id,
                list_push(record->0, group_list_start(record->0, write), group_id),
            ),
        )
    }
}

// ---------------------------------------------------------------------
// The operations carried out
// ---------------------------------------------------------------------

/// Carries out `insert_node_step`.
pub(crate) fn insert_node(
    views: &mut Vec<TransactionalTree>,
    table: usize,
    id: u64,
    parent_id: u64,
    record: &[u8],
) -> (r: Result<Reply, Error>)
    requires
        old(views)@.len() == 3,
        table == FILES || table == DIRS,
    ensures
        final(views)@.len() == 3,
        agrees(
            r,
            insert_node_step(views_state(old(views)@), table as int, id, parent_id, record@),
            views_state(final(views)@),
        ),
{
    let key = id_key(id);
    if id == 0 {
        return Ok(Reply::IdTaken);
    }
    if view_get(views, FILES, key.as_slice())?.is_some() {
        return Ok(Reply::IdTaken);
    }
    if view_get(views, DIRS, key.as_slice())?.is_some() {
        return Ok(Reply::IdTaken);
    }
    let parent_key = id_key(parent_id);
    let parent = match view_get(views, DIRS, parent_key.as_slice())? {
        Some(b) => b,
        None => {
            return Err(Error::NoSuchDir);
        },
    };
    let pushed = push_to_list(parent.as_slice(), 16, id)?;
    view_insert(views, DIRS, parent_key.as_slice(), pushed.as_slice())?;
    view_insert(views, table, key.as_slice(), record)?;
    let permissions = empty_permissions();
    view_insert(views, PERMS, key.as_slice(), permissions.as_slice())?;
    Ok(Reply::Done)
}

/// Carries out `insert_root_step`.
pub(crate) fn insert_root(views: &mut Vec<TransactionalTree>, id: u64, record: &[u8]) -> (r: Result<
    Reply,
    Error,
>)
    requires
        old(views)@.len() == 3,
    ensures
        final(views)@.len() == 3,
        agrees(
            r,
            insert_root_step(views_state(old(views)@), id, record@),
            views_state(final(views)@),
        ),
{
    let key = id_key(id);
    if id == 0 {
        return Ok(Reply::IdTaken);
    }
    if view_get(views, FILES, key.as_slice())?.is_some() {
        return Ok(Reply::IdTaken);
    }
    if view_get(views, DIRS, key.as_slice())?.is_some() {
        return Ok(Reply::IdTaken);
    }
    view_insert(views, DIRS, key.as_slice(), record)?;
    let permissions = empty_permissions();
    view_insert(views, PERMS, key.as_slice(), permissions.as_slice())?;
    Ok(Reply::Done)
}

/// Carries out `update_file_step`.
pub(crate) fn update_file(
    views: &mut Vec<TransactionalTree>,
    id: u64,
    record: &[u8],
    permissions: &[u8],
) -> (r: Result<Reply, Error>)
    requires
        old(views)@.len() == 3,
    ensures
        final(views)@.len() == 3,
        agrees(
            r,
            update_file_step(views_state(old(views)@), id, record@, permissions@),
            views_state(final(views)@),
        ),
{
    let key = id_key(id);
    if view_get(views, FILES, key.as_slice())?.is_none() {
        return Err(Error::NoSuchFile);
    }
    view_insert(views, FILES, key.as_slice(), record)?;
    view_insert(views, PERMS, key.as_slice(), permissions)?;
    Ok(Reply::Done)
}

/// Carries out `update_dir_step`.
pub(crate) fn update_dir(
    views: &mut Vec<TransactionalTree>,
    id: u64,
    parent_id: u64,
    owner_id: u64,
    name: &[u8],
    permissions: &[u8],
) -> (r: Result<Reply, Error>)
    requires
        old(views)@.len() == 3,
    ensures
        final(views)@.len() == 3,
        agrees(
            r,
            update_dir_step(
                views_state(old(views)@),
                id,
                parent_id,
                owner_id,
                name@,
                permissions@,
            ),
            views_state(final(views)@),
        ),
{
    let key = id_key(id);
    let old_record = match view_get(views, DIRS, key.as_slice())? {
        Some(b) => b,
        None => {
            return Err(Error::NoSuchDir);
        },
    };
    let children = parse_id_list_at(old_record.as_slice(), 16)?;
    let mut record: Vec<u8> = Vec::new();
    put_u64(&mut record, parent_id);
    put_u64(&mut record, owner_id);
    put_bytes(
        &mut record,
        vstd::slice::slice_subrange(old_record.as_slice(), 16, 18 + 8 * children.len()),
    );
    put_bytes(&mut record, name);
    assert(record@ =~= dir_rewritten(old_record@, parent_id, owner_id, name@));
    view_insert(views, DIRS, key.as_slice(), record.as_slice())?;
    view_insert(views, PERMS, key.as_slice(), permissions)?;
    Ok(Reply::Done)
}

/// Takes `id` out of the list of children of `parent_id`.
fn unlink(views: &mut Vec<TransactionalTree>, parent_id: u64, id: u64) -> (r: Result<(), Error>)
    requires
        old(views)@.len() == 3,
    ensures
        final(views)@.len() == 3,
        match r {
            Ok(_) => unlink_step(views_state(old(views)@), parent_id, id) == Ok::<
                Seq<Table>,
                Error,
            >(views_state(final(views)@)),
            Err(e) => e.is_store_failure() || unlink_step(views_state(old(views)@), parent_id, id)
                == Err::<Seq<Table>, Error>(e),
        },
{
    let parent_key = id_key(parent_id);
    let parent = match view_get(views, DIRS, parent_key.as_slice())? {
        Some(b) => b,
        None => {
            return Err(Error::InconsistentDbState);
        },
    };
    let shorter = remove_from_list(parent.as_slice(), 16, id)?;
    view_insert(views, DIRS, parent_key.as_slice(), shorter.as_slice())?;
    Ok(())
}

/// Carries out `remove_file_step`.
pub(crate) fn remove_file(views: &mut Vec<TransactionalTree>, id: u64) -> (r: Result<Reply, Error>)
    requires
        old(views)@.len() == 3,
    ensures
        final(views)@.len() == 3,
        agrees(r, remove_file_step(views_state(old(views)@), id), views_state(final(views)@)),
{
    let key = id_key(id);
    let record = match view_get(views, FILES, key.as_slice())? {
        Some(b) => b,
        None => {
            return Err(Error::NoSuchFile);
        },
    };
    let file = decode_file(id, record.as_slice())?;
    unlink(views, file.parent_id, id)?;
    view_remove(views, FILES, key.as_slice())?;
    Ok(Reply::Record(record))
}

/// Carries out `remove_dir_step`.
pub(crate) fn remove_dir(views: &mut Vec<TransactionalTree>, id: u64) -> (r: Result<Reply, Error>)
    requires
        old(views)@.len() == 3,
    ensures
        final(views)@.len() == 3,
        agrees(r, remove_dir_step(views_state(old(views)@), id), views_state(final(views)@)),
{
    let key = id_key(id);
    let record = match view_get(views, DIRS, key.as_slice())? {
        Some(b) => b,
        None => {
            return Err(Error::NoSuchDir);
        },
    };
    if record.len() < 8 {
        return Err(Error::EncodingError);
    }
    if read_u64(record.as_slice(), 0) == 0 {
        return Err(Error::ForbiddenAction);
    }
    let dir = entry_to_dir_incomplete(id, record.as_slice())?;
    unlink(views, dir.parent_id, id)?;
    view_remove(views, DIRS, key.as_slice())?;
    sweep_all(views, dir.child_ids)?;
    Ok(Reply::Record(record))
}

/// Carries out `sweep` from `start`.
fn sweep_all(views: &mut Vec<TransactionalTree>, start: Vec<u64>) -> (r: Result<(), Error>)
    requires
        old(views)@.len() == 3,
        views_state(old(views)@)[DIRS as int].dom().finite(),
    ensures
        final(views)@.len() == 3,
        r is Ok ==> swept(views_state(old(views)@), start@) == Some(views_state(final(views)@)),
        r is Err ==> r->Err_0.is_store_failure() || (r->Err_0 is EncodingError && swept(
            views_state(old(views)@),
            start@,
        ) is None),
{
    let mut stack = start;
    let ghost goal = swept(views_state(views@), stack@);
    while stack.len() > 0
        invariant
            views@.len() == 3,
            views_state(views@)[DIRS as int].dom().finite(),
            swept(views_state(views@), stack@) == goal,
            goal == swept(views_state(old(views)@), start@),
        decreases views_state(views@)[DIRS as int].dom().len(), stack@.len(),
    {
        let ghost now = views_state(views@);
        let ghost waiting = stack@;
        match sweep_one(views, &mut stack) {
            Ok(_) => {},
            Err(e) => {
                assert(e.is_store_failure() || (e is EncodingError && swept(now, waiting) is None));
                return Err(e);
            },
        }
    }
    proof {
        let now = views_state(views@);
        lemma_sweep_done(now[FILES as int], now[DIRS as int], now[PERMS as int]);
        assert(stack@ =~= Seq::empty());
        assert(now =~= goal->0);
    }
    Ok(())
}

/// One round of `sweep`: takes the last identifier off the stack, removes
/// what is stored for it, and puts its children, if it has any, on the stack.
fn sweep_one(views: &mut Vec<TransactionalTree>, stack: &mut Vec<u64>) -> (r: Result<(), Error>)
    requires
        old(views)@.len() == 3,
        old(stack)@.len() > 0,
        views_state(old(views)@)[DIRS as int].dom().finite(),
    ensures
        final(views)@.len() == 3,
        views_state(final(views)@)[DIRS as int].dom().finite(),
        match r {
            Ok(_) => {
                &&& swept(views_state(final(views)@), final(stack)@) == swept(
                    views_state(old(views)@),
                    old(stack)@,
                )
                &&& (views_state(final(views)@)[DIRS as int].dom().len() < views_state(
                    old(views)@,
                )[DIRS as int].dom().len() || (views_state(final(views)@)[DIRS as int].dom().len()
                    == views_state(old(views)@)[DIRS as int].dom().len() && final(stack)@.len()
                    < old(stack)@.len()))
            },
            Err(e) => e.is_store_failure() || (e is EncodingError && swept(
                views_state(old(views)@),
                old(stack)@,
            ) is None),
        },
{
    let ghost before = views_state(views@);
    let ghost files = before[FILES as int];
    let ghost dirs = before[DIRS as int];
    let ghost perms = before[PERMS as int];
    let x = stack.pop().unwrap();
    let ghost rest = stack@;
    assert(rest == old(stack)@.drop_last());
    let node_key = id_key(x);
    match view_remove(views, DIRS, node_key.as_slice())? {
        Some(child_record) => {
            proof {
                lemma_sweep_dir(files, dirs, perms, old(stack)@);
            }
            let mut children = parse_id_list_at(child_record.as_slice(), 16)?;
            stack.append(&mut children);
            let ghost mid = views_state(views@);
            assert(mid[PERMS as int] == perms && mid[FILES as int] == files);
            view_remove(views, PERMS, node_key.as_slice())?;
            let ghost after = views_state(views@);
            assert(after[FILES as int] == files);
            assert(after[DIRS as int] == dirs.remove(node_key@));
            assert(after[PERMS as int] == perms.remove(node_key@));
        },
        None => {
            proof {
                lemma_sweep_leaf(files, dirs, perms, old(stack)@);
            }
            assert(dirs.remove(node_key@) =~= dirs);
            let ghost mid = views_state(views@);
            assert(mid =~= before);
            view_remove(views, FILES, node_key.as_slice())?;
            let ghost mid2 = views_state(views@);
            assert(mid2[PERMS as int] == perms && mid2[DIRS as int] == dirs);
            view_remove(views, PERMS, node_key.as_slice())?;
            let ghost after = views_state(views@);
            assert(after[FILES as int] == files.remove(node_key@));
            assert(after[DIRS as int] == dirs);
            assert(after[PERMS as int] == perms.remove(node_key@));
        },
    }
    Ok(())
}

/// Carries out `remove_permissions_step`.
pub(crate) fn remove_permissions(views: &mut Vec<TransactionalTree>, id: u64) -> (r: Result<
    Reply,
    Error,
>)
    requires
        old(views)@.len() == 3,
    ensures
        final(views)@.len() == 3,
        agrees(
            r,
            remove_permissions_step(views_state(old(views)@), id),
            views_state(final(views)@),
        ),
{
    let key = id_key(id);
    match view_remove(views, PERMS, key.as_slice())? {
        Some(record) => Ok(Reply::Record(record)),
        None => {
            let ghost s = views_state(old(views)@);
            assert(s[PERMS as int].remove(key@) =~= s[PERMS as int]);
            assert(views_state(views@) =~= s);
            Ok(Reply::Nothing)
        },
    }
}

/// Carries out `add_group_step`.
pub(crate) fn add_group(
    views: &mut Vec<TransactionalTree>,
    node_id: u64,
    group_id: u64,
    write: bool,
) -> (r: Result<Reply, Error>)
    requires
        old(views)@.len() == 3,
    ensures
        final(views)@.len() == 3,
        agrees(
            r,
            add_group_step(views_state(old(views)@), node_id, group_id, write),
            views_state(final(views)@),
        ),
{
    let key = id_key(node_id);
    let record = match view_get(views, PERMS, key.as_slice())? {
        Some(b) => b,
        None => {
            return Err(Error::NoSuchTarget);
        },
    };
    let readers = parse_read_group_ids(record.as_slice())?;
    let _writers = parse_write_group_ids(record.as_slice())?;
    let at: usize = if write {
        2 + 8 * readers.len()
    } else {
        0
    };
    let longer = push_to_list(record.as_slice(), at, group_id)?;
    view_insert(views, PERMS, key.as_slice(), longer.as_slice())?;
    Ok(Reply::Done)
}

} // verus!
