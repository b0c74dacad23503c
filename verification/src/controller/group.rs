//! Requests on groups.

use vstd::prelude::*;
use crate::bytes::be64;
use crate::database::Database;
use crate::error::{answers, Error};
use crate::models::{contains_id, Group, GroupView, Id};
use crate::msg::{group_described, GroupMsg, id_or, text_or};
use crate::ops::{done, ReplyView};
use crate::store::Table;
use crate::user_db::{group_at, group_refused, store_group_step};
use crate::user_ops::GROUPS;

verus! {

/// The group, for a user who is a member or an admin of it.
pub open spec fn group_for(users: Seq<Table>, group_id: u64, user_id: u64) -> Result<
    GroupView,
    Error,
> {
    match group_at(users, group_id) {
        Err(e) => Err(e),
        Ok(None) => Err(Error::NoSuchTarget),
        Ok(Some(g)) => if g.member_ids.contains(user_id) || g.admin_ids.contains(user_id) {
            Ok(g)
        } else {
            Err(Error::MissingAuthorization)
        },
    }
}

/// The group, for a user who is an admin of it.
pub open spec fn group_for_admin(users: Seq<Table>, group_id: u64, user_id: u64) -> Result<
    GroupView,
    Error,
> {
    match group_at(users, group_id) {
        Err(e) => Err(e),
        Ok(None) => Err(Error::NoSuchTarget),
        Ok(Some(g)) => if g.admin_ids.contains(user_id) {
            Ok(g)
        } else {
            Err(Error::MissingAuthorization)
        },
    }
}

/// The group, for a user who is a member or an admin of it.
pub fn get_group_info(group_id: u64, user_id: u64, db: &Database) -> (r: Result<Group, Error>)
    requires
        db.wf(),
    ensures
        answers(r, group_for(db.users(), group_id, user_id)),
{
    let group = match db.get_group(group_id)? {
        Some(g) => g,
        None => {
            return Err(Error::NoSuchTarget);
        },
    };
    if group.contains_user(user_id) || group.contains_admin(user_id) {
        Ok(group)
    } else {
        Err(Error::MissingAuthorization)
    }
}

/// Fetches the group for a user who must be an admin of it.
fn fetch_group(group_id: u64, user_id: u64, db: &Database) -> (r: Result<Group, Error>)
    requires
        db.wf(),
    ensures
        answers(r, group_for_admin(db.users(), group_id, user_id)),
        r matches Ok(g) ==> g.id == group_id,
{
    let group = match db.get_group(group_id)? {
        Some(g) => g,
        None => {
            return Err(Error::NoSuchTarget);
        },
    };
    if group.contains_admin(user_id) {
        Ok(group)
    } else {
        Err(Error::MissingAuthorization)
    }
}

/// The group that `add_group` stores for the message, but for its
/// identifier, or why the message is refused: only the user 0 may add
/// groups, and the message must give a name and no identifier.
pub open spec fn group_to_add(id: Option<Id>, name: Option<String>, user_id: u64) -> Result<
    GroupView,
    Error,
> {
    if user_id != 0 {
        Err(Error::MissingAuthorization)
    } else if name is None || id is Some {
        Err(Error::BadCall)
    } else {
        Ok(GroupView { admin_ids: seq![user_id], ..group_described(id, name) })
    }
}

/// Whether `r` and the users and groups stored `after` are what storing
/// the new group `planned` gives.
pub open spec fn new_group_stored(
    r: Result<Group, Error>,
    before: Seq<Table>,
    after: Seq<Table>,
    planned: GroupView,
) -> bool {
    match r {
        Ok(g) => {
            &&& planned == (GroupView { id: 0, ..g@ })
            &&& g.id != 0
            &&& !before[GROUPS as int].contains_key(be64(g.id))
            &&& store_group_step(before, true, g.id, planned) == done(ReplyView::Done, after)
        },
        Err(e) => e.is_store_failure() || (after == before && group_refused(before, planned, e)),
    }
}

/// Adds a new group with the name that `group_infos` gives, of which the
/// user becomes the one admin.
pub fn add_group(group_infos: GroupMsg, user_id: u64, db: &mut Database) -> (r: Result<
    Group,
    Error,
>)
    requires
        old(db).wf(),
    ensures
        final(db).wf(),
        final(db).fs() == old(db).fs(),
        final(db).sessions() == old(db).sessions(),
        match group_to_add(group_infos.id, group_infos.name, user_id) {
            Err(refusal) => r == Err::<Group, Error>(refusal) && final(db).users() == old(
                db,
            ).users(),
            Ok(planned) => new_group_stored(r, old(db).users(), final(db).users(), planned),
        },
{
    if user_id != 0 {
        return Err(Error::MissingAuthorization);
    }
    if group_infos.name.is_none() {
        return Err(Error::BadCall);
    }
    if group_infos.id.is_some() {
        return Err(Error::BadCall);
    }
    let mut new_group = Group::from_msg(group_infos);
    new_group.admin_ids.push(user_id);
    assert(new_group@.admin_ids =~= seq![user_id]);
    store_new(db, new_group)
}

/// Stores the new group and hands it back with its identifier.
fn store_new(db: &mut Database, group: Group) -> (r: Result<Group, Error>)
    requires
        old(db).wf(),
        group.id == 0,
    ensures
        final(db).wf(),
        final(db).fs() == old(db).fs(),
        final(db).sessions() == old(db).sessions(),
        new_group_stored(r, old(db).users(), final(db).users(), group@),
{
    let mut new_group = group;
    match db.insert_new_group(&mut new_group) {
        Ok(_) => Ok(new_group),
        Err(e) => Err(e),
    }
}

/// The group that `update_group_infos` stores for the message, or why the
/// message is refused.
pub open spec fn group_update(
    users: Seq<Table>,
    id: Option<Id>,
    name: Option<String>,
    user_id: u64,
) -> Result<GroupView, Error> {
    if id is None {
        Err(Error::BadCall)
    } else {
        match group_for_admin(users, id_or(id, 0), user_id) {
            Err(e) => Err(e),
            Ok(g) => Ok(GroupView { name: text_or(name, g.name), ..g }),
        }
    }
}

/// Stores the group and hands it back.
fn store(db: &mut Database, group: Group) -> (r: Result<Group, Error>)
    requires
        old(db).wf(),
    ensures
        final(db).wf(),
        final(db).fs() == old(db).fs(),
        final(db).sessions() == old(db).sessions(),
        match r {
            Ok(g) => g@ == group@ && store_group_step(old(db).users(), false, g.id, g@) == done(
                ReplyView::Done,
                final(db).users(),
            ),
            Err(e) => e.is_store_failure() || (final(db).users() == old(db).users()
                && store_group_step(old(db).users(), false, group.id, group@).reply == Err::<
                ReplyView,
                Error,
            >(e)),
        },
{
    db.insert_group(&group)?;
    Ok(group)
}

/// Changes the name of the group that `group_infos` names, if it gives one,
/// for a user who is an admin of the group.
pub fn update_group_infos(group_infos: GroupMsg, user_id: u64, db: &mut Database) -> (r: Result<
    Group,
    Error,
>)
    requires
        old(db).wf(),
    ensures
        final(db).wf(),
        final(db).fs() == old(db).fs(),
        final(db).sessions() == old(db).sessions(),
        group_infos.id is None ==> (r is Err && r->Err_0 is BadCall
            && final(db).users() == old(db).users()),
        match r {
            Ok(g) => {
                &&& group_update(old(db).users(), group_infos.id, group_infos.name, user_id)
                    == Ok::<GroupView, Error>(g@)
                &&& store_group_step(old(db).users(), false, g.id, g@) == done(
                    ReplyView::Done,
                    final(db).users(),
                )
            },
            Err(e) => e.is_store_failure() || (final(db).users() == old(db).users()
                && match group_update(old(db).users(), group_infos.id, group_infos.name, user_id) {
                Err(refusal) => e == refusal,
                Ok(g) => store_group_step(old(db).users(), false, g.id, g).reply == Err::<
                    ReplyView,
                    Error,
                >(e),
            }),
        },
{
    let id = match group_infos.id {
        Some(id) => id.as_int(),
        None => {
            return Err(Error::BadCall);
        },
    };
    let mut group = fetch_group(id, user_id, db)?;
    group_infos.apply_changes(&mut group);
    store(db, group)
}

/// `list` with those of `more` added, in order, that it does not hold yet.
pub open spec fn with_new(list: Seq<u64>, more: Seq<u64>) -> Seq<u64>
    decreases more.len(),
{
    if more.len() == 0 {
        list
    } else {
        let sofar = with_new(list, more.drop_last());
        if sofar.contains(more.last()) {
            sofar
        } else {
            sofar.push(more.last())
        }
    }
}

/// Adds to `list` those of `more` that it does not hold yet.
pub fn add_new(list: &mut Vec<u64>, more: &Vec<u64>)
    ensures
        final(list)@ == with_new(old(list)@, more@),
{
    let mut i: usize = 0;
    assert(more@.take(0) =~= Seq::<u64>::empty());
    while i < more.len()
        invariant
            i <= more@.len(),
            list@ == with_new(old(list)@, more@.take(i as int)),
        decreases more@.len() - i,
    {
        proof {
            let next = more@.take(i + 1);
            assert(next.drop_last() =~= more@.take(i as int));
            assert(next.last() == more@[i as int]);
        }
        if !contains_id(list, more[i]) {
            list.push(more[i]);
        }
        i += 1;
    }
    assert(more@.take(i as int) =~= more@);
}

/// The group that `add_admin_ids` stores, or why the request is refused.
pub open spec fn group_with_admins(
    users: Seq<Table>,
    group_id: u64,
    admin_ids: Seq<u64>,
    user_id: u64,
) -> Result<GroupView, Error> {
    match group_for_admin(users, group_id, user_id) {
        Err(e) => Err(e),
        Ok(g) => Ok(GroupView { admin_ids: with_new(g.admin_ids, admin_ids), ..g }),
    }
}

/// The group that `add_member_ids` stores, or why the request is refused.
pub open spec fn group_with_members(
    users: Seq<Table>,
    group_id: u64,
    member_ids: Seq<u64>,
    user_id: u64,
) -> Result<GroupView, Error> {
    match group_for_admin(users, group_id, user_id) {
        Err(e) => Err(e),
        Ok(g) => Ok(GroupView { member_ids: with_new(g.member_ids, member_ids), ..g }),
    }
}

/// Makes the users in `admin_ids` admins of the group, as far as they are
/// not yet, for a user who is an admin of the group.
pub fn add_admin_ids(group_id: u64, admin_ids: Vec<u64>, user_id: u64, db: &mut Database) -> (r:
    Result<Group, Error>)
    requires
        old(db).wf(),
    ensures
        final(db).wf(),
        final(db).fs() == old(db).fs(),
        final(db).sessions() == old(db).sessions(),
        match r {
            Ok(g) => {
                &&& group_with_admins(old(db).users(), group_id, admin_ids@, user_id) == Ok::<
                    GroupView,
                    Error,
                >(g@)
                &&& store_group_step(old(db).users(), false, g.id, g@) == done(
                    ReplyView::Done,
                    final(db).users(),
                )
            },
            Err(e) => e.is_store_failure() || (final(db).users() == old(db).users()
                && match group_with_admins(old(db).users(), group_id, admin_ids@, user_id) {
                Err(refusal) => e == refusal,
                Ok(g) => store_group_step(old(db).users(), false, g.id, g).reply == Err::<
                    ReplyView,
                    Error,
                >(e),
            }),
        },
{
    let mut group = fetch_group(group_id, user_id, db)?;
    add_new(&mut group.admin_ids, &admin_ids);
    store(db, group)
}

/// Makes the users in `member_ids` members of the group, as far as they are
/// not yet, for a user who is an admin of the group.
pub fn add_member_ids(group_id: u64, member_ids: Vec<u64>, user_id: u64, db: &mut Database) -> (r:
    Result<Group, Error>)
    requires
        old(db).wf(),
    ensures
        final(db).wf(),
        final(db).fs() == old(db).fs(),
        final(db).sessions() == old(db).sessions(),
        match r {
            Ok(g) => {
                &&& group_with_members(old(db).users(), group_id, member_ids@, user_id) == Ok::<
                    GroupView,
                    Error,
                >(g@)
                &&& store_group_step(old(db).users(), false, g.id, g@) == done(
                    ReplyView::Done,
                    final(db).users(),
                )
            },
            Err(e) => e.is_store_failure() || (final(db).users() == old(db).users()
                && match group_with_members(old(db).users(), group_id, member_ids@, user_id) {
                Err(refusal) => e == refusal,
                Ok(g) => store_group_step(old(db).users(), false, g.id, g).reply == Err::<
                    ReplyView,
                    Error,
                >(e),
            }),
        },
{
    let mut group = fetch_group(group_id, user_id, db)?;
    add_new(&mut group.member_ids, &member_ids);
    store(db, group)
}

} // verus!
