//! Users and groups, as the rest of the program sees them.

use vstd::prelude::*;
use vstd::utf8::*;
use vstd::string::*;
use crate::bytes::{be64, be64_value, id_key, read_u64};
use crate::codec::{decode_group, encode_group, group_bytes, MAX_COUNT, parse_group, parse_text,
    text_of};
use crate::error::{answers, Error};
use crate::ids::{MAX_TRIES, random_u64};
use crate::models::{contains_id, Group, GroupView, User, UserView};
use crate::ops::{done, Op, Reply, ReplyView, Step};
use crate::store::{lookup, names_differ, open_tree, Table, transact, tree_get, trees_names,
    trees_state};
use crate::user_ops::{GROUPNAME_ID, GROUPS, groups_listed, insert_group_step, insert_user_step,
    plain_ids, USER_GROUPS, USERID_NAME, USERID_PWD, USERID_ROOTDIR, USERNAME_ID};

verus! {

/// The group stored under `id`, if there is one. A record that cannot be
/// read is an error.
#[verifier::opaque]
pub open spec fn group_at(s: Seq<Table>, id: u64) -> Result<Option<GroupView>, Error> {
    match lookup(s[GROUPS as int], be64(id)) {
        None => Ok(None),
        Some(b) => if parse_group(id, b) is None {
            Err(Error::EncodingError)
        } else {
            Ok(parse_group(id, b))
        },
    }
}

/// The identifier that a name index holds under `name`, if it holds one.
pub open spec fn id_by_name(index: Table, name: Seq<char>) -> Result<Option<u64>, Error> {
    match lookup(index, encode_utf8(name)) {
        None => Ok(None),
        Some(b) => if b.len() == 8 {
            Ok(Some(be64_value(b)))
        } else {
            Err(Error::EncodingError)
        },
    }
}

/// Those of the groups `group_ids`, in order, that are stored and count the
/// user as a member. The first record that cannot be read is an error.
pub open spec fn member_groups(s: Seq<Table>, group_ids: Seq<u64>, user_id: u64) -> Result<
    Seq<u64>,
    Error,
>
    decreases group_ids.len(),
{
    if group_ids.len() == 0 {
        Ok(Seq::empty())
    } else {
        match member_groups(s, group_ids.drop_last(), user_id) {
            Err(e) => Err(e),
            Ok(found) => match group_at(s, group_ids.last()) {
                Err(e) => Err(e),
                Ok(None) => Ok(found),
                Ok(Some(g)) => if g.member_ids.contains(user_id) {
                    Ok(found.push(group_ids.last()))
                } else {
                    Ok(found)
                },
            },
        }
    }
}

/// The user stored under `id`, if there is one: it takes a name, a password
/// hash and a root directory. The groups of the user are those noted with
/// them of which they are a member. Records that cannot be read are an
/// error.
#[verifier::opaque]
pub open spec fn user_at(s: Seq<Table>, id: u64) -> Result<Option<UserView>, Error> {
    let name = lookup(s[USERID_NAME as int], be64(id));
    let pwd_hash = lookup(s[USERID_PWD as int], be64(id));
    let root = lookup(s[USERID_ROOTDIR as int], be64(id));
    if name is None {
        Ok(None)
    } else if text_of(name->0) is None {
        Err(Error::EncodingError)
    } else if pwd_hash is None {
        Ok(None)
    } else if text_of(pwd_hash->0) is None {
        Err(Error::EncodingError)
    } else if root is None {
        Ok(None)
    } else if root->0.len() != 8 {
        Err(Error::EncodingError)
    } else {
        match member_groups(s, plain_ids(groups_listed(s, id)), id) {
            Err(e) => Err(e),
            Ok(group_ids) => Ok(
                Some(
                    UserView {
                        id,
                        name: text_of(name->0)->0,
                        pwd_hash: text_of(pwd_hash->0)->0,
                        root_dir_id: be64_value(root->0),
                        group_ids,
                    },
                ),
            ),
        }
    }
}

/// What storing the user does.
pub open spec fn store_user_step(s: Seq<Table>, u: UserView) -> Step {
    insert_user_step(s, u.id, encode_utf8(u.name), encode_utf8(u.pwd_hash), u.root_dir_id)
}

/// Whether the lists of a group are short enough to be stored.
pub open spec fn group_fits(g: GroupView) -> bool {
    g.member_ids.len() <= MAX_COUNT && g.admin_ids.len() <= MAX_COUNT
}

/// What storing the group under `id` does, as a new group (`fresh`) or in
/// place of the one that has this identifier.
pub open spec fn store_group_step(s: Seq<Table>, fresh: bool, id: u64, g: GroupView) -> Step {
    insert_group_step(
        s,
        fresh,
        id,
        encode_utf8(g.name),
        if group_fits(g) {
            Some(group_bytes(g.member_ids, g.admin_ids, g.name))
        } else {
            None
        },
        g.member_ids + g.admin_ids,
    )
}

/// Whether `e` is an error with which a new group is refused: the error
/// that storing it under some identifier runs into, or, where the name of
/// the group is free, `InconsistentDbState` after `MAX_TRIES` identifiers
/// that were all in use.
pub open spec fn group_refused(s: Seq<Table>, g: GroupView, e: Error) -> bool {
    ||| e is InconsistentDbState && store_group_step(s, true, 0, g).reply is Ok
    ||| exists|id: u64| #[trigger]
        store_group_step(s, true, id, g).reply == Err::<ReplyView, Error>(e)
}

/// Whether the group is found under `id` as it was given, and under its
/// name.
pub open spec fn stored_as(s: Seq<Table>, id: u64, g: GroupView) -> bool {
    &&& group_at(s, id) == Ok::<Option<GroupView>, Error>(Some(GroupView { id, ..g }))
    &&& id_by_name(s[GROUPNAME_ID as int], g.name) == Ok::<Option<u64>, Error>(Some(id))
}

/// The seven trees that hold the users and the groups.
pub struct UserDatabase {
    trees: Vec<sled::Tree>,
}

impl View for UserDatabase {
    type V = Seq<Table>;

    /// What the seven trees hold.
    closed spec fn view(&self) -> Seq<Table> {
        trees_state(self.trees@)
    }
}

impl UserDatabase {
    /// The database has its seven trees, and they are seven different trees.
    pub closed spec fn wf(&self) -> bool {
        self.trees@.len() == 7 && names_differ(self.trees@)
    }

    /// A database holds seven tables.
    pub proof fn lemma_seven_tables(&self)
        requires
            self.wf(),
        ensures
            self@.len() == 7,
    {
    }

    /// Opens the seven trees in `sled_db`. As long as the database is in
    /// use, nothing else may open or write these trees.
    pub fn init(sled_db: &sled::Db) -> (r: Result<UserDatabase, Error>)
        ensures
            match r {
                Ok(db) => db.wf(),
                Err(e) => e is DbError,
            },
    {
        let mut trees: Vec<sled::Tree> = Vec::new();
        trees.push(open_tree(sled_db, "usernames_ids")?);
        trees.push(open_tree(sled_db, "userids_names")?);
        trees.push(open_tree(sled_db, "userids_pwds")?);
        trees.push(open_tree(sled_db, "userid_rootdir")?);
        trees.push(open_tree(sled_db, "user_groups")?);
        trees.push(open_tree(sled_db, "group")?);
        trees.push(open_tree(sled_db, "groupnames_ids")?);
        proof {
            reveal_strlit("usernames_ids");
            reveal_strlit("userids_names");
            reveal_strlit("userids_pwds");
            reveal_strlit("userid_rootdir");
            reveal_strlit("user_groups");
            reveal_strlit("group");
            reveal_strlit("groupnames_ids");
            let names = trees_names(trees@);
            assert(names[0] == "usernames_ids"@ && names[1] == "userids_names"@);
            assert(names[2] == "userids_pwds"@ && names[3] == "userid_rootdir"@);
            assert(names[4] == "user_groups"@ && names[5] == "group"@);
            assert(names[6] == "groupnames_ids"@);
            assert(names[0].len() == 13 && names[1].len() == 13 && names[2].len() == 12);
            assert(names[3].len() == 14 && names[4].len() == 11 && names[5].len() == 5);
            assert(names[6].len() == 14);
            assert(names[0][4] == 'n' && names[1][4] == 'i');
            assert(names[3][0] == 'u' && names[6][0] == 'g');
        }
        Ok(UserDatabase { trees })
    }

    /// Looks `name` up in the name index `at`.
    fn id_in_index(&self, at: usize, name: &str) -> (r: Result<Option<u64>, Error>)
        requires
            self.wf(),
            at < 7,
        ensures
            answers(r, id_by_name(self@[at as int], name@)),
    {
        match tree_get(&self.trees[at], name.as_bytes())? {
            Some(b) => {
                if b.len() == 8 {
                    assert(b@.subrange(0, 8) =~= b@);
                    Ok(Some(read_u64(b.as_slice(), 0)))
                } else {
                    Err(Error::EncodingError)
                }
            },
            None => Ok(None),
        }
    }

    /// The identifier of the user of that name, if there is one.
    pub fn get_userid_by_name(&self, username: &str) -> (r: Result<Option<u64>, Error>)
        requires
            self.wf(),
        ensures
            answers(r, id_by_name(self@[USERNAME_ID as int], username@)),
    {
        self.id_in_index(USERNAME_ID, username)
    }

    /// The identifier of the group of that name, if there is one.
    pub fn get_groupid_by_name(&self, groupname: &str) -> (r: Result<Option<u64>, Error>)
        requires
            self.wf(),
        ensures
            answers(r, id_by_name(self@[GROUPNAME_ID as int], groupname@)),
    {
        self.id_in_index(GROUPNAME_ID, groupname)
    }

    /// The group with the given id, or `None` if there is none.
    pub fn get_group(&self, group_id: u64) -> (r: Result<Option<Group>, Error>)
        requires
            self.wf(),
        ensures
            answers(r, group_at(self@, group_id)),
            r matches Ok(Some(g)) ==> g.id == group_id,
    {
        reveal(group_at);
        let key = id_key(group_id);
        match tree_get(&self.trees[GROUPS], key.as_slice())? {
            Some(b) => Ok(Some(decode_group(group_id, b.as_slice())?)),
            None => Ok(None),
        }
    }

    /// Those of the groups noted with the user that count them as a member.
    fn groups_of_user(&self, user_id: u64) -> (r: Result<Vec<u64>, Error>)
        requires
            self.wf(),
        ensures
            match r {
                Ok(ids) => member_groups(self@, plain_ids(groups_listed(self@, user_id)), user_id)
                    == Ok::<Seq<u64>, Error>(ids@),
                Err(e) => e.is_store_failure() || member_groups(
                    self@,
                    plain_ids(groups_listed(self@, user_id)),
                    user_id,
                ) == Err::<Seq<u64>, Error>(e),
            },
    {
        let key = id_key(user_id);
        let listed = match tree_get(&self.trees[USER_GROUPS], key.as_slice())? {
            Some(b) => b,
            None => Vec::new(),
        };
        let ghost all = plain_ids(listed@);
        let n: usize = listed.len() / 8;
        assert(listed@.len() == listed.len());
        let mut found: Vec<u64> = Vec::new();
        let mut i: usize = 0;
        assert(all.take(0) =~= Seq::<u64>::empty());
        while i < n
            invariant
                self.wf(),
                i <= n == all.len(),
                n == listed@.len() as int / 8,
                listed@.len() <= usize::MAX,
                all == plain_ids(listed@),
                all == plain_ids(groups_listed(self@, user_id)),
                member_groups(self@, all.take(i as int), user_id) == Ok::<Seq<u64>, Error>(found@),
            decreases n - i,
        {
            let group_id = read_u64(listed.as_slice(), 8 * i);
            assert(group_id == all[i as int]);
            proof {
                lemma_member_groups_step(self@, all, user_id, i as int);
            }
            match self.get_group(group_id) {
                Ok(Some(group)) => {
                    if contains_id(&group.member_ids, user_id) {
                        found.push(group_id);
                    }
                },
                Ok(None) => {},
                Err(e) => {
                    proof {
                        if !e.is_store_failure() {
                            lemma_member_groups_fails(self@, all, user_id, i + 1);
                        }
                    }
                    return Err(e);
                },
            }
            i += 1;
        }
        assert(all.take(i as int) =~= all);
        Ok(found)
    }

    /// The user with the given id, or `None` if there is none.
    pub fn get_user(&self, user_id: u64) -> (r: Result<Option<User>, Error>)
        requires
            self.wf(),
        ensures
            answers(r, user_at(self@, user_id)),
            r matches Ok(Some(u)) ==> u.id == user_id,
    {
        reveal(user_at);
        let key = id_key(user_id);
        let name = match tree_get(&self.trees[USERID_NAME], key.as_slice())? {
            Some(b) => {
                assert(b@.subrange(0, b@.len() as int) =~= b@);
                parse_text(b.as_slice(), 0, b.len())?
            },
            None => {
                return Ok(None);
            },
        };
        let pwd_hash = match tree_get(&self.trees[USERID_PWD], key.as_slice())? {
            Some(b) => {
                assert(b@.subrange(0, b@.len() as int) =~= b@);
                parse_text(b.as_slice(), 0, b.len())?
            },
            None => {
                return Ok(None);
            },
        };
        let root_dir_id = match tree_get(&self.trees[USERID_ROOTDIR], key.as_slice())? {
            Some(b) => {
                if b.len() != 8 {
                    return Err(Error::EncodingError);
                }
                assert(b@.subrange(0, 8) =~= b@);
                read_u64(b.as_slice(), 0)
            },
            None => {
                return Ok(None);
            },
        };
        let group_ids = self.groups_of_user(user_id)?;
        Ok(Some(User { id: user_id, name, pwd_hash, root_dir_id, group_ids }))
    }

    /// Stores the user, in place of what was stored under the identifier
    /// and under the name.
    pub fn insert_user(&mut self, user: &User) -> (r: Result<(), Error>)
        requires
            old(self).wf(),
        ensures
            final(self).wf(),
            match r {
                Ok(_) => {
                    &&& store_user_step(old(self)@, user@) == done(ReplyView::Done, final(self)@)
                    &&& id_by_name(final(self)@[USERNAME_ID as int], user.name@) == Ok::<
                        Option<u64>,
                        Error,
                    >(Some(user.id))
                },
                Err(e) => e.is_store_failure(),
            },
    {
        let op = Op::InsertUser {
            id: user.id,
            name: vstd::slice::slice_to_vec(user.name.as_str().as_bytes()),
            pwd_hash: vstd::slice::slice_to_vec(user.pwd_hash.as_str().as_bytes()),
            root_dir_id: user.root_dir_id,
        };
        match transact(&mut self.trees, &op) {
            Ok(Reply::Done) => {
                proof {
                    crate::found::law_stored_user_is_found(old(self)@, self@, user@);
                }
                Ok(())
            },
            Ok(_) => {
                proof {
                    assert(false);
                }
                Err(Error::InconsistentDbState)
            },
            Err(e) => Err(e),
        }
    }

    /// Stores the group under `id`, as a new group (`fresh`) or in place of
    /// the one that has this identifier. `Ok(false)` says that the group is
    /// new and `id` is zero or in use, and that nothing was stored.
    pub fn insert_group_with_id(&mut self, fresh: bool, id: u64, group: &Group) -> (r: Result<
        bool,
        Error,
    >)
        requires
            old(self).wf(),
        ensures
            final(self).wf(),
            match r {
                Ok(made) => {
                    &&& store_group_step(old(self)@, fresh, id, group@) == done(
                        if made {
                            ReplyView::Done
                        } else {
                            ReplyView::IdTaken
                        },
                        final(self)@,
                    )
                    &&& made ==> stored_as(final(self)@, id, group@)
                },
                Err(e) => e.is_store_failure() || (store_group_step(
                    old(self)@,
                    fresh,
                    id,
                    group@,
                ).reply == Err::<ReplyView, Error>(e) && final(self)@ == old(self)@),
            },
    {
        let record = match encode_group(
            group.member_ids.as_slice(),
            group.admin_ids.as_slice(),
            group.name.as_str(),
        ) {
            Ok(b) => Some(b),
            Err(_) => None,
        };
        let mut user_ids: Vec<u64> = group.member_ids.clone();
        let mut admins: Vec<u64> = group.admin_ids.clone();
        user_ids.append(&mut admins);
        assert(user_ids@ =~= group@.member_ids + group@.admin_ids);
        let op = Op::InsertGroup {
            fresh,
            id,
            name: vstd::slice::slice_to_vec(group.name.as_str().as_bytes()),
            record,
            user_ids,
        };
        match transact(&mut self.trees, &op) {
            Ok(Reply::Done) => {
                proof {
                    crate::found::law_stored_group_is_found(old(self)@, self@, fresh, id, group@);
                }
                Ok(true)
            },
            Ok(Reply::IdTaken) => Ok(false),
            Ok(_) => {
                proof {
                    assert(false);
                }
                Err(Error::InconsistentDbState)
            },
            Err(e) => Err(e),
        }
    }

    /// Stores a new group under a fresh random identifier, which `group.id`
    /// is set to. A name that is taken is refused with `TargetExists`, a
    /// group that is too large with `BadCall`, and a member or admin that is
    /// no stored user with `NoSuchTarget`.
    pub fn insert_new_group(&mut self, group: &mut Group) -> (r: Result<(), Error>)
        requires
            old(self).wf(),
        ensures
            final(self).wf(),
            final(group)@ == (GroupView { id: final(group).id, ..old(group)@ }),
            match r {
                Ok(_) => {
                    &&& final(group).id != 0
                    &&& !old(self)@[GROUPS as int].contains_key(be64(final(group).id))
                    &&& store_group_step(old(self)@, true, final(group).id, old(group)@) == done(
                        ReplyView::Done,
                        final(self)@,
                    )
                    &&& stored_as(final(self)@, final(group).id, old(group)@)
                },
                Err(e) => e.is_store_failure() || (final(self)@ == old(self)@ && final(group).id
                    == old(group).id && group_refused(old(self)@, old(group)@, e)),
            },
    {
        let mut tries: usize = 0;
        while tries < MAX_TRIES
            invariant
                self.wf(),
                self@ == old(self)@,
                group == old(group),
                tries > 0 ==> store_group_step(old(self)@, true, 0, old(group)@).reply is Ok,
            decreases MAX_TRIES - tries,
        {
            let id = random_u64();
            match self.insert_group_with_id(true, id, group) {
                Ok(true) => {
                    group.id = id;
                    return Ok(());
                },
                Ok(false) => {},
                Err(e) => {
                    return Err(e);
                },
            }
            tries += 1;
        }
        Err(Error::InconsistentDbState)
    }

    /// Stores the group in place of the one that has its identifier. A name
    /// that another group has is refused with `TargetExists`, a group that
    /// is too large with `BadCall`, and a member or admin that is no stored
    /// user with `NoSuchTarget`.
    pub fn insert_group(&mut self, group: &Group) -> (r: Result<(), Error>)
        requires
            old(self).wf(),
        ensures
            final(self).wf(),
            match r {
                Ok(_) => {
                    &&& store_group_step(old(self)@, false, group.id, group@) == done(
                        ReplyView::Done,
                        final(self)@,
                    )
                    &&& stored_as(final(self)@, group.id, group@)
                },
                Err(e) => e.is_store_failure() || (store_group_step(
                    old(self)@,
                    false,
                    group.id,
                    group@,
                ).reply == Err::<ReplyView, Error>(e) && final(self)@ == old(self)@),
            },
    {
        match self.insert_group_with_id(false, group.id, group) {
            Ok(_) => Ok(()),
            Err(e) => Err(e),
        }
    }
}

/// What one more group adds to the list.
pub proof fn lemma_member_groups_step(s: Seq<Table>, group_ids: Seq<u64>, user_id: u64, i: int)
    requires
        0 <= i < group_ids.len(),
    ensures
        member_groups(s, group_ids.take(i + 1), user_id) == match member_groups(
            s,
            group_ids.take(i),
            user_id,
        ) {
            Err(e) => Err(e),
            Ok(found) => match group_at(s, group_ids[i]) {
                Err(e) => Err(e),
                Ok(None) => Ok(found),
                Ok(Some(g)) => if g.member_ids.contains(user_id) {
                    Ok(found.push(group_ids[i]))
                } else {
                    Ok(found)
                },
            },
        },
{
    let next = group_ids.take(i + 1);
    assert(next.drop_last() =~= group_ids.take(i));
    assert(next.last() == group_ids[i]);
}

/// Once a record among the first `n` groups cannot be read, the whole list
/// fails in the same way.
pub proof fn lemma_member_groups_fails(s: Seq<Table>, group_ids: Seq<u64>, user_id: u64, n: int)
    requires
        0 <= n <= group_ids.len(),
        member_groups(s, group_ids.take(n), user_id) is Err,
    ensures
        member_groups(s, group_ids, user_id) == member_groups(s, group_ids.take(n), user_id),
    decreases group_ids.len() - n,
{
    if n < group_ids.len() {
        lemma_member_groups_step(s, group_ids, user_id, n);
        lemma_member_groups_fails(s, group_ids, user_id, n + 1);
    } else {
        assert(group_ids.take(n) =~= group_ids);
    }
}

} // verus!
