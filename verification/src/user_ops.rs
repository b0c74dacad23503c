//! The operations on users and groups.
//!
//! They work on seven trees: four that hold the users (the identifier by
//! name, and name, password hash and root directory by identifier), one that
//! holds for each user the groups that list them, and two that hold the
//! groups (the record by identifier, and the identifier by name).

use vstd::prelude::*;
use sled::transaction::TransactionalTree;
use crate::bytes::{be64, id_key, put_u64, read_u64, same_bytes};
use crate::codec::ids_at;
use crate::error::Error;
use crate::ops::{agrees, done, fail, Reply, ReplyView, Step};
use crate::store::{lookup, opt_bytes, Table, view_get, view_insert, views_state};

verus! {

/// The tree of user identifiers by name.
pub const USERNAME_ID: usize = 0;

/// The tree of user names by identifier.
pub const USERID_NAME: usize = 1;

/// The tree of password hashes by user.
pub const USERID_PWD: usize = 2;

/// The tree of root directories by user.
pub const USERID_ROOTDIR: usize = 3;

/// The tree that holds for each user the groups that list them.
pub const USER_GROUPS: usize = 4;

/// The tree of group records.
pub const GROUPS: usize = 5;

/// The tree of group identifiers by name.
pub const GROUPNAME_ID: usize = 6;

/// `s` with `value` stored under `key` in the tree `at`.
pub open spec fn set(s: Seq<Table>, at: int, key: Seq<u8>, value: Seq<u8>) -> Seq<Table> {
    s.update(at, s[at].insert(key, value))
}

/// A user is stored, in place of what was stored under the identifier and
/// under the name.
pub open spec fn insert_user_step(
    s: Seq<Table>,
    id: u64,
    name: Seq<u8>,
    pwd_hash: Seq<u8>,
    root_dir_id: u64,
) -> Step {
    let s1 = set(s, USERNAME_ID as int, name, be64(id));
    let s2 = set(s1, USERID_NAME as int, be64(id), name);
    let s3 = set(s2, USERID_PWD as int, be64(id), pwd_hash);
    done(ReplyView::Done, set(s3, USERID_ROOTDIR as int, be64(id), be64(root_dir_id)))
}

/// The identifiers in a list without a count: as many as fit.
pub open spec fn plain_ids(b: Seq<u8>) -> Seq<u64> {
    ids_at(b, 0, b.len() as int / 8)
}

/// The groups that list the user, as the tree of such lists has them.
pub open spec fn groups_listed(s: Seq<Table>, user_id: u64) -> Seq<u8> {
    match lookup(s[USER_GROUPS as int], be64(user_id)) {
        Some(b) => b,
        None => Seq::empty(),
    }
}

/// The user is noted as listed by the group, unless that is noted already.
/// A user that is not stored is an error, and so is a list of groups that
/// is cut short.
pub open spec fn link_user(s: Seq<Table>, user_id: u64, group_id: u64) -> Result<Seq<Table>, Error> {
    if !s[USERID_NAME as int].contains_key(be64(user_id)) {
        Err(Error::NoSuchTarget)
    } else if groups_listed(s, user_id).len() % 8 != 0 {
        Err(Error::EncodingError)
    } else if plain_ids(groups_listed(s, user_id)).contains(group_id) {
        Ok(s)
    } else {
        Ok(
            set(
                s,
                USER_GROUPS as int,
                be64(user_id),
                groups_listed(s, user_id) + be64(group_id),
            ),
        )
    }
}

/// `link_user` for each of the users in turn, up to the first error.
pub open spec fn link_users(s: Seq<Table>, user_ids: Seq<u64>, group_id: u64) -> Result<
    Seq<Table>,
    Error,
>
    decreases user_ids.len(),
{
    if user_ids.len() == 0 {
        Ok(s)
    } else {
        match link_users(s, user_ids.drop_last(), group_id) {
            Err(e) => Err(e),
            Ok(s1) => link_user(s1, user_ids.last(), group_id),
        }
    }
}

/// A group is stored. A new one (`fresh`) is refused if its name is taken,
/// and answered with `IdTaken` while `id` is zero or in use; another is
/// refused if its name is taken by a group other than `id`. A group without
/// a record was too large to have one. The group is then noted with each of
/// `user_ids`, all of which must be stored users.
pub open spec fn insert_group_step(
    s: Seq<Table>,
    fresh: bool,
    id: u64,
    name: Seq<u8>,
    record: Option<Seq<u8>>,
    user_ids: Seq<u64>,
) -> Step {
    let named = lookup(s[GROUPNAME_ID as int], name);
    if named is Some && (fresh || named->0 != be64(id)) {
        fail(Error::TargetExists, s)
    } else if fresh && (id == 0 || s[GROUPS as int].contains_key(be64(id))) {
        done(ReplyView::IdTaken, s)
    } else if record is None {
        fail(Error::BadCall, s)
    } else {
        let s1 = set(s, GROUPS as int, be64(id), record->0);
        let s2 = set(s1, GROUPNAME_ID as int, name, be64(id));
        match link_users(s2, user_ids, id) {
            Err(e) => fail(e, s),
            Ok(s3) => done(ReplyView::Done, s3),
        }
    }
}

// ---------------------------------------------------------------------
// The operations carried out
// ---------------------------------------------------------------------

/// Carries out `insert_user_step`.
pub(crate) fn insert_user(
    views: &mut Vec<TransactionalTree>,
    id: u64,
    name: &[u8],
    pwd_hash: &[u8],
    root_dir_id: u64,
) -> (r: Result<Reply, Error>)
    requires
        old(views)@.len() == 7,
    ensures
        final(views)@.len() == 7,
        agrees(
            r,
            insert_user_step(views_state(old(views)@), id, name@, pwd_hash@, root_dir_id),
            views_state(final(views)@),
        ),
{
    let key = id_key(id);
    let root = id_key(root_dir_id);
    view_insert(views, USERNAME_ID, name, key.as_slice())?;
    view_insert(views, USERID_NAME, key.as_slice(), name)?;
    view_insert(views, USERID_PWD, key.as_slice(), pwd_hash)?;
    view_insert(views, USERID_ROOTDIR, key.as_slice(), root.as_slice())?;
    Ok(Reply::Done)
}

/// Whether `id` is among the identifiers in a list without a count.
pub fn plain_ids_contain(b: &[u8], id: u64) -> (r: bool)
    ensures
        r == plain_ids(b@).contains(id),
{
    let n: usize = b.len() / 8;
    assert(b@.len() == b.len());
    let mut i: usize = 0;
    while i < n
        invariant
            i <= n == b@.len() as int / 8,
            b@.len() <= usize::MAX,
            forall|j: int| 0 <= j < i ==> plain_ids(b@)[j] != id,
        decreases n - i,
    {
        if read_u64(b, 8 * i) == id {
            assert(plain_ids(b@)[i as int] == id);
            return true;
        }
        i += 1;
    }
    false
}

/// Carries out `link_user`.
fn link_one(views: &mut Vec<TransactionalTree>, user_id: u64, group_id: u64) -> (r: Result<
    (),
    Error,
>)
    requires
        old(views)@.len() == 7,
    ensures
        final(views)@.len() == 7,
        match r {
            Ok(_) => link_user(views_state(old(views)@), user_id, group_id) == Ok::<
                Seq<Table>,
                Error,
            >(views_state(final(views)@)),
            Err(e) => e.is_store_failure() || link_user(
                views_state(old(views)@),
                user_id,
                group_id,
            ) == Err::<Seq<Table>, Error>(e),
        },
{
    let key = id_key(user_id);
    if view_get(views, USERID_NAME, key.as_slice())?.is_none() {
        return Err(Error::NoSuchTarget);
    }
    let mut listed = match view_get(views, USER_GROUPS, key.as_slice())? {
        Some(b) => b,
        None => Vec::new(),
    };
    if listed.len() % 8 != 0 {
        return Err(Error::EncodingError);
    }
    if plain_ids_contain(listed.as_slice(), group_id) {
        return Ok(());
    }
    put_u64(&mut listed, group_id);
    view_insert(views, USER_GROUPS, key.as_slice(), listed.as_slice())?;
    Ok(())
}

/// Carries out `insert_group_step`.
pub(crate) fn insert_group(
    views: &mut Vec<TransactionalTree>,
    fresh: bool,
    id: u64,
    name: &[u8],
    record: &Option<Vec<u8>>,
    user_ids: &Vec<u64>,
) -> (r: Result<Reply, Error>)
    requires
        old(views)@.len() == 7,
    ensures
        final(views)@.len() == 7,
        agrees(
            r,
            insert_group_step(
                views_state(old(views)@),
                fresh,
                id,
                name@,
                opt_bytes(*record),
                user_ids@,
            ),
            views_state(final(views)@),
        ),
{
    let key = id_key(id);
    match view_get(views, GROUPNAME_ID, name)? {
        Some(owner) => {
            if fresh || !same_bytes(owner.as_slice(), key.as_slice()) {
                return Err(Error::TargetExists);
            }
        },
        None => {},
    }
    if fresh {
        if id == 0 {
            return Ok(Reply::IdTaken);
        }
        if view_get(views, GROUPS, key.as_slice())?.is_some() {
            return Ok(Reply::IdTaken);
        }
    }
    let bytes = match record {
        Some(b) => b,
        None => {
            return Err(Error::BadCall);
        },
    };
    view_insert(views, GROUPS, key.as_slice(), bytes.as_slice())?;
    view_insert(views, GROUPNAME_ID, name, key.as_slice())?;
    let ghost start = views_state(views@);
    let mut i: usize = 0;
    assert(user_ids@.take(0) =~= Seq::<u64>::empty());
    while i < user_ids.len()
        invariant
            i <= user_ids@.len(),
            views@.len() == 7,
            link_users(start, user_ids@.take(i as int), id) == Ok::<Seq<Table>, Error>(
                views_state(views@),
            ),
            link_users(start, user_ids@, id) is Err ==> insert_group_step(
                views_state(old(views)@),
                fresh,
                id,
                name@,
                opt_bytes(*record),
                user_ids@,
            ).reply == Err::<ReplyView, Error>(link_users(start, user_ids@, id)->Err_0),
        decreases user_ids@.len() - i,
    {
        proof {
            lemma_link_users_step(start, user_ids@, id, i as int);
        }
        match link_one(views, user_ids[i], id) {
            Ok(_) => {},
            Err(e) => {
                proof {
                    if !e.is_store_failure() {
                        lemma_link_users_fails(start, user_ids@, id, i + 1);
                    }
                }
                return Err(e);
            },
        }
        i += 1;
    }
    assert(user_ids@.take(i as int) =~= user_ids@);
    Ok(Reply::Done)
}

/// What one more user adds.
pub proof fn lemma_link_users_step(s: Seq<Table>, user_ids: Seq<u64>, group_id: u64, i: int)
    requires
        0 <= i < user_ids.len(),
    ensures
        link_users(s, user_ids.take(i + 1), group_id) == match link_users(
            s,
            user_ids.take(i),
            group_id,
        ) {
            Err(e) => Err(e),
            Ok(s1) => link_user(s1, user_ids[i], group_id),
        },
{
    let next = user_ids.take(i + 1);
    assert(next.drop_last() =~= user_ids.take(i));
    assert(next.last() == user_ids[i]);
}

/// Once one of the first `n` users is refused, the whole list is refused in
/// the same way.
pub proof fn lemma_link_users_fails(s: Seq<Table>, user_ids: Seq<u64>, group_id: u64, n: int)
    requires
        0 <= n <= user_ids.len(),
        link_users(s, user_ids.take(n), group_id) is Err,
    ensures
        link_users(s, user_ids, group_id) == link_users(s, user_ids.take(n), group_id),
    decreases user_ids.len() - n,
{
    if n < user_ids.len() {
        lemma_link_users_step(s, user_ids, group_id, n);
        lemma_link_users_fails(s, user_ids, group_id, n + 1);
    } else {
        assert(user_ids.take(n) =~= user_ids);
    }
}

} // verus!
