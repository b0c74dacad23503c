//! The whole store behind one handle: the tree of files and directories, the
//! users and groups, and the sessions.

use vstd::prelude::*;
use vstd::utf8::*;
use vstd::string::*;
use crate::bytes::{be64, be64_value, id_key, read_u64};
use crate::clock::{now_timestamp, stamp_bits, stamp_from_bits, stamp_of, stamp_to_bits};
use crate::codec::file_storable;
use crate::error::{answers, Error};
use crate::fs_db::{children_at, dir_at, dir_fits, dirs_by_parent, file_at, file_fits,
    files_by_parent, FsDatabase, gone, insert_dir_step, insert_file_step, insert_root_dir_step,
    is_root, new_dir, new_file, removed_dir, removed_file, store_dir_step, store_file_step,
    tree_kept};
use crate::fs_ops::{add_group_step, del, insert_refusal, node_exists, PERMS, remove_dir_step,
    remove_file_step};
use crate::ids::{MAX_TRIES, random_u64};
use crate::laws::{below, tree_consistent};
use crate::models::{Dir, DirView, File, FileView, Group, GroupView, User, UserSession};
use crate::ops::{done, Op, Reply, ReplyView};
use crate::session_ops::{create_session_step, remove_session_step, SESSIONS, USER_SESSIONS};
use crate::store::{lookup, names_differ, open_tree, Table, transact, tree_get,
    tree_keys_with_prefix, trees_names, trees_state};
use crate::user_db::{group_at, group_refused, id_by_name, store_group_step, store_user_step,
    stored_as, user_at, UserDatabase};
use crate::user_ops::{GROUPNAME_ID, GROUPS, USERNAME_ID};

verus! {

/// The session stored under `id`, if there is one. A record that is too
/// short is an error.
pub open spec fn session_at(s: Seq<Table>, id: u64) -> Result<Option<UserSession>, Error> {
    match lookup(s[SESSIONS as int], be64(id)) {
        None => Ok(None),
        Some(b) => if b.len() < 16 {
            Err(Error::EncodingError)
        } else {
            Ok(
                Some(
                    UserSession {
                        session_id: id,
                        user_id: be64_value(b.subrange(0, 8)),
                        creation_date: stamp_of(be64_value(b.subrange(8, 16))),
                    },
                ),
            )
        },
    }
}

/// The way from the directory `id` up to its root directory: the directory
/// itself, its parent, the parent of that, and so on, as long as there is a
/// parent, but no more than `limit` directories. A directory on the way
/// that is not stored is an error, and so is one that cannot be read.
pub open spec fn way_up(fs: Seq<Table>, id: u64, limit: nat) -> Result<Seq<DirView>, Error>
    decreases limit,
{
    if limit == 0 {
        Ok(Seq::empty())
    } else {
        match dir_at(fs, id) {
            Err(e) => Err(e),
            Ok(None) => Err(Error::NoSuchDir),
            Ok(Some(d)) => if d.parent_id == 0 {
                Ok(seq![d])
            } else {
                match way_up(fs, d.parent_id, (limit - 1) as nat) {
                    Err(e) => Err(e),
                    Ok(rest) => Ok(seq![d] + rest),
                }
            },
        }
    }
}

/// The identifier of the session that a marker stands for.
pub open spec fn marked_session(marker: Seq<u8>) -> u64 {
    be64_value(marker.subrange(8, 16))
}

/// Whether `markers` are the markers of the sessions of the user, each of
/// them once, in some order.
pub open spec fn is_marker_list(t: Table, user_id: u64, markers: Seq<Seq<u8>>) -> bool {
    &&& forall|i: int|
        0 <= i < markers.len() ==> t.contains_key(#[trigger] markers[i]) && be64(
            user_id,
        ).is_prefix_of(markers[i])
    &&& forall|i: int, j: int|
        0 <= i < j < markers.len() ==> #[trigger] markers[i] != #[trigger] markers[j]
    &&& forall|k: Seq<u8>|
        t.contains_key(k) && be64(user_id).is_prefix_of(k) ==> exists|i: int|
            0 <= i < markers.len() && #[trigger] markers[i] == k
}

/// What is done with one marker when the sessions of a user are filtered:
/// its session is looked up, and is removed unless it is to be kept. A
/// marker that is too short, or that has no session, is an error.
pub open spec fn visit(s: Seq<Table>, marker: Seq<u8>, keep: bool) -> Result<Seq<Table>, Error> {
    if marker.len() < 16 {
        Err(Error::EncodingError)
    } else {
        match session_at(s, marked_session(marker)) {
            Err(e) => Err(e),
            Ok(None) => Err(Error::InconsistentDbState),
            Ok(Some(session)) => if keep {
                Ok(s)
            } else {
                Ok(remove_session_step(s, marked_session(marker)).tables)
            },
        }
    }
}

/// What the trees hold after the first `n` of the markers were visited in
/// turn, where `keep` says of each whether its session is to be kept.
pub open spec fn filtered(s: Seq<Table>, markers: Seq<Seq<u8>>, keep: Seq<bool>, n: nat) -> Result<
    Seq<Table>,
    Error,
>
    decreases n,
{
    if n == 0 {
        Ok(s)
    } else {
        match filtered(s, markers, keep, (n - 1) as nat) {
            Err(e) => Err(e),
            Ok(s1) => visit(s1, markers[n - 1], keep[n - 1]),
        }
    }
}

/// The session that is found when the marker `i` is visited.
pub open spec fn visited(s: Seq<Table>, markers: Seq<Seq<u8>>, keep: Seq<bool>, i: nat) ->
    UserSession {
    session_at(filtered(s, markers, keep, i)->Ok_0, marked_session(markers[i as int]))->Ok_0->0
}

/// Whether `keep` says of each of the first `n` markers what `filter_fn`
/// returned for the session that was found with it.
pub open spec fn decided<P: Fn(UserSession) -> bool>(
    filter_fn: P,
    s: Seq<Table>,
    markers: Seq<Seq<u8>>,
    keep: Seq<bool>,
    n: nat,
) -> bool {
    forall|i: nat|
        i < n ==> call_ensures(filter_fn, (#[trigger] visited(s, markers, keep, i),), keep[i as int])
}

/// Whether `after` is what the session trees hold when the sessions of the
/// user were filtered to the end: `markers` are the markers of the user,
/// all of them were visited in turn, and `keep` holds the decisions.
pub open spec fn filter_done<P: Fn(UserSession) -> bool>(
    filter_fn: P,
    before: Seq<Table>,
    after: Seq<Table>,
    user_id: u64,
    markers: Seq<Seq<u8>>,
    keep: Seq<bool>,
) -> bool {
    &&& is_marker_list(before[USER_SESSIONS as int], user_id, markers)
    &&& keep.len() == markers.len()
    &&& filtered(before, markers, keep, markers.len()) == Ok::<Seq<Table>, Error>(after)
    &&& decided(filter_fn, before, markers, keep, markers.len())
}

/// Whether `after` is what the session trees hold when the filtering of the
/// sessions of the user stopped with the error `e`: the first `n` markers
/// were visited in turn, with the decisions in `keep`, and the next one
/// cannot be visited, for the reason `e`.
pub open spec fn filter_stopped<P: Fn(UserSession) -> bool>(
    filter_fn: P,
    before: Seq<Table>,
    after: Seq<Table>,
    user_id: u64,
    markers: Seq<Seq<u8>>,
    keep: Seq<bool>,
    n: nat,
    e: Error,
) -> bool {
    &&& is_marker_list(before[USER_SESSIONS as int], user_id, markers)
    &&& n < markers.len()
    &&& keep.len() == n
    &&& filtered(before, markers, keep, n) == Ok::<Seq<Table>, Error>(after)
    &&& decided(filter_fn, before, markers, keep, n)
    &&& visit(after, markers[n as int], true) == Err::<Seq<Table>, Error>(e)
}

/// What is decided of the first markers does not depend on what is decided
/// of the later ones.
pub proof fn lemma_filtered_prefix(
    s: Seq<Table>,
    markers: Seq<Seq<u8>>,
    keep1: Seq<bool>,
    keep2: Seq<bool>,
    n: nat,
)
    requires
        forall|i: int| 0 <= i < n ==> keep1[i] == keep2[i],
    ensures
        filtered(s, markers, keep1, n) == filtered(s, markers, keep2, n),
    decreases n,
{
    if n > 0 {
        lemma_filtered_prefix(s, markers, keep1, keep2, (n - 1) as nat);
    }
}

/// The store: what the rest of the program works with.
pub struct Database {
    sled_db: sled::Db,
    session_trees: Vec<sled::Tree>,
    fs_db: FsDatabase,
    user_db: UserDatabase,
}

impl Database {
    /// The store has all its trees, and no tree twice.
    pub closed spec fn wf(&self) -> bool {
        &&& self.session_trees@.len() == 2
        &&& names_differ(self.session_trees@)
        &&& self.fs_db.wf()
        &&& self.user_db.wf()
    }

    /// The store holds three tables of files, directories and permissions,
    /// seven of users and groups, and two of sessions.
    pub proof fn lemma_tables(&self)
        requires
            self.wf(),
        ensures
            self.fs().len() == 3,
            self.users().len() == 7,
            self.sessions().len() == 2,
    {
        self.fs_db.lemma_three_tables();
        self.user_db.lemma_seven_tables();
    }

    /// What the trees of files, directories and permissions hold.
    pub closed spec fn fs(&self) -> Seq<Table> {
        self.fs_db@
    }

    /// What the trees of users and groups hold.
    pub closed spec fn users(&self) -> Seq<Table> {
        self.user_db@
    }

    /// What the trees of sessions hold.
    pub closed spec fn sessions(&self) -> Seq<Table> {
        trees_state(self.session_trees@)
    }

    /// Opens all trees in `sled_db`. As long as the store is in use, nothing
    /// else may open or write these trees.
    pub fn init(sled_db: sled::Db) -> (r: Result<Database, Error>)
        ensures
            match r {
                Ok(db) => db.wf(),
                Err(e) => e is DbError,
            },
    {
        let mut session_trees: Vec<sled::Tree> = Vec::new();
        session_trees.push(open_tree(&sled_db, "sessions")?);
        session_trees.push(open_tree(&sled_db, "user_sessions")?);
        proof {
            reveal_strlit("sessions");
            reveal_strlit("user_sessions");
            let names = trees_names(session_trees@);
            assert(names[0] == "sessions"@ && names[1] == "user_sessions"@);
            assert(names[0].len() == 8 && names[1].len() == 13);
        }
        let fs_db = FsDatabase::init(&sled_db)?;
        let user_db = UserDatabase::init(&sled_db)?;
        Ok(Database { sled_db, session_trees, fs_db, user_db })
    }

    /// Begins a session of the user under the proposed identifier.
    /// `Ok(None)` says that `session_id` is zero or in use, and that nothing
    /// was stored.
    pub fn create_session_with_id(&mut self, session_id: u64, user_id: u64, creation_date: i64) -> (r:
        Result<Option<UserSession>, Error>)
        requires
            old(self).wf(),
        ensures
            final(self).wf(),
            final(self).fs() == old(self).fs(),
            final(self).users() == old(self).users(),
            session_id == 0 ==> r matches Ok(None),
            match r {
                Ok(Some(s)) => {
                    &&& s == (UserSession { session_id, user_id, creation_date })
                    &&& create_session_step(
                        old(self).sessions(),
                        session_id,
                        user_id,
                        stamp_bits(creation_date),
                    ) == done(ReplyView::Done, final(self).sessions())
                    &&& session_at(final(self).sessions(), session_id) == Ok::<
                        Option<UserSession>,
                        Error,
                    >(Some(s))
                },
                Ok(None) => {
                    &&& session_id == 0 || old(self).sessions()[SESSIONS as int].contains_key(
                        be64(session_id),
                    )
                    &&& final(self).sessions() == old(self).sessions()
                },
                Err(e) => e.is_store_failure(),
            },
    {
        if session_id == 0 {
            return Ok(None);
        }
        let op = Op::CreateSession { session_id, user_id, created_at: stamp_to_bits(creation_date) };
        match transact(&mut self.session_trees, &op) {
            Ok(Reply::Done) => {
                let session = UserSession::new(session_id, user_id, creation_date);
                proof {
                    crate::found::law_created_session_is_found(
                        old(self).sessions(),
                        self.sessions(),
                        session,
                    );
                }
                Ok(Some(session))
            },
            Ok(Reply::IdTaken) => Ok(None),
            Ok(_) => {
                proof {
                    assert(false);
                }
                Err(Error::InconsistentDbState)
            },
            Err(e) => Err(e),
        }
    }

    /// Begins a session of the user, under a fresh random identifier and
    /// with the present time, and returns it.
    pub fn create_user_session(&mut self, user_id: u64) -> (r: Result<UserSession, Error>)
        requires
            old(self).wf(),
        ensures
            final(self).wf(),
            final(self).fs() == old(self).fs(),
            final(self).users() == old(self).users(),
            match r {
                Ok(s) => {
                    &&& s.user_id == user_id
                    &&& s.session_id != 0
                    &&& !old(self).sessions()[SESSIONS as int].contains_key(be64(s.session_id))
                    &&& create_session_step(
                        old(self).sessions(),
                        s.session_id,
                        user_id,
                        stamp_bits(s.creation_date),
                    ) == done(ReplyView::Done, final(self).sessions())
                    &&& session_at(final(self).sessions(), s.session_id) == Ok::<
                        Option<UserSession>,
                        Error,
                    >(Some(s))
                },
                Err(e) => e.is_store_failure() || (e is InconsistentDbState
                    && final(self).sessions() == old(self).sessions()),
            },
    {
        self.create_user_session_at(user_id, now_timestamp())
    }

    /// Begins a session of the user, under a fresh random identifier and
    /// with the given time, and returns it.
    pub fn create_user_session_at(&mut self, user_id: u64, creation_date: i64) -> (r: Result<
        UserSession,
        Error,
    >)
        requires
            old(self).wf(),
        ensures
            final(self).wf(),
            final(self).fs() == old(self).fs(),
            final(self).users() == old(self).users(),
            match r {
                Ok(s) => {
                    &&& s.creation_date == creation_date
                    &&& s.user_id == user_id
                    &&& s.session_id != 0
                    &&& !old(self).sessions()[SESSIONS as int].contains_key(be64(s.session_id))
                    &&& create_session_step(
                        old(self).sessions(),
                        s.session_id,
                        user_id,
                        stamp_bits(s.creation_date),
                    ) == done(ReplyView::Done, final(self).sessions())
                    &&& session_at(final(self).sessions(), s.session_id) == Ok::<
                        Option<UserSession>,
                        Error,
                    >(Some(s))
                },
                Err(e) => e.is_store_failure() || (e is InconsistentDbState
                    && final(self).sessions() == old(self).sessions()),
            },
    {
        let mut tries: usize = 0;
        while tries < MAX_TRIES
            invariant
                self.wf(),
                self.sessions() == old(self).sessions(),
                self.fs() == old(self).fs(),
                self.users() == old(self).users(),
            decreases MAX_TRIES - tries,
        {
            let id = random_u64();
            match self.create_session_with_id(id, user_id, creation_date) {
                Ok(Some(s)) => {
                    return Ok(s);
                },
                Ok(None) => {},
                Err(e) => {
                    return Err(e);
                },
            }
            tries += 1;
        }
        Err(Error::InconsistentDbState)
    }

    /// Ends the session. It is no error if there is no such session.
    pub fn remove_user_session(&mut self, session_id: u64) -> (r: Result<(), Error>)
        requires
            old(self).wf(),
        ensures
            final(self).wf(),
            final(self).fs() == old(self).fs(),
            final(self).users() == old(self).users(),
            r is Ok ==> session_at(final(self).sessions(), session_id) == Ok::<
                Option<UserSession>,
                Error,
            >(None),
            r is Ok && !old(self).sessions()[SESSIONS as int].contains_key(be64(session_id))
                ==> final(self).sessions() == old(self).sessions(),
            match r {
                Ok(_) => remove_session_step(old(self).sessions(), session_id) == done(
                    ReplyView::Done,
                    final(self).sessions(),
                ),
                Err(e) => e.is_store_failure(),
            },
    {
        let op = Op::RemoveSession { session_id };
        match transact(&mut self.session_trees, &op) {
            Ok(Reply::Done) => Ok(()),
            Ok(_) => {
                proof {
                    assert(false);
                }
                Err(Error::InconsistentDbState)
            },
            Err(e) => Err(e),
        }
    }

    /// Goes through the sessions of the user and removes those for which
    /// `filter_fn` returns false.
    ///
    /// The sessions are visited in the order of their markers; each is
    /// looked up as the store holds it at that moment, and each removal is a
    /// transaction of its own. A marker that is too short or has no
    /// session, or a session that cannot be read, ends the filtering with an
    /// error; what was removed until then stays removed.
    pub fn filter_user_sessions<P: Fn(UserSession) -> bool>(&mut self, user_id: u64, filter_fn: P) -> (r:
        Result<(), Error>)
        requires
            old(self).wf(),
            forall|s: UserSession| call_requires(filter_fn, (s,)),
        ensures
            final(self).wf(),
            final(self).fs() == old(self).fs(),
            final(self).users() == old(self).users(),
            match r {
                Ok(_) => exists|markers: Seq<Seq<u8>>, keep: Seq<bool>| #[trigger]
                    filter_done(
                        filter_fn,
                        old(self).sessions(),
                        final(self).sessions(),
                        user_id,
                        markers,
                        keep,
                    ),
                Err(e) => e.is_store_failure() || exists|
                    markers: Seq<Seq<u8>>,
                    keep: Seq<bool>,
                    n: nat,
                | #[trigger]
                    filter_stopped(
                        filter_fn,
                        old(self).sessions(),
                        final(self).sessions(),
                        user_id,
                        markers,
                        keep,
                        n,
                        e,
                    ),
            },
    {
        let prefix = id_key(user_id);
        let found = tree_keys_with_prefix(&self.session_trees[USER_SESSIONS], prefix.as_slice())?;
        let ghost markers = Seq::new(found@.len(), |j: int| found@[j]@);
        let ghost mut keep: Seq<bool> = Seq::empty();
        let ghost start = self.sessions();
        assert(is_marker_list(start[USER_SESSIONS as int], user_id, markers)) by {
            assert forall|k: Seq<u8>|
                start[USER_SESSIONS as int].contains_key(k) && be64(user_id).is_prefix_of(
                    k,
                ) implies exists|i: int| 0 <= i < markers.len() && #[trigger] markers[i] == k by {
                let i = choose|i: int| 0 <= i < found@.len() && (#[trigger] found@[i])@ == k;
                assert(markers[i] == k);
            }
        }
        let mut i: usize = 0;
        while i < found.len()
            invariant
                self.wf(),
                self.fs() == old(self).fs(),
                self.users() == old(self).users(),
                start == old(self).sessions(),
                i <= found@.len() == markers.len(),
                markers == Seq::new(found@.len(), |j: int| found@[j]@),
                keep.len() == i,
                filtered(start, markers, keep, i as nat) == Ok::<Seq<Table>, Error>(
                    self.sessions(),
                ),
                forall|s: UserSession| call_requires(filter_fn, (s,)),
                is_marker_list(start[USER_SESSIONS as int], user_id, markers),
                decided(filter_fn, start, markers, keep, i as nat),
            decreases found@.len() - i,
        {
            let marker = &found[i];
            assert(marker@ == markers[i as int]);
            if marker.len() < 16 {
                assert(filter_stopped(
                    filter_fn,
                    start,
                    self.sessions(),
                    user_id,
                    markers,
                    keep,
                    i as nat,
                    Error::EncodingError,
                ));
                return Err(Error::EncodingError);
            }
            let session_id = read_u64(marker.as_slice(), 8);
            let session = match self.get_user_session(session_id) {
                Ok(Some(s)) => s,
                Ok(None) => {
                    assert(filter_stopped(
                        filter_fn,
                        start,
                        self.sessions(),
                        user_id,
                        markers,
                        keep,
                        i as nat,
                        Error::InconsistentDbState,
                    ));
                    return Err(Error::InconsistentDbState);
                },
                Err(e) => {
                    assert(e.is_store_failure() || filter_stopped(
                        filter_fn,
                        start,
                        self.sessions(),
                        user_id,
                        markers,
                        keep,
                        i as nat,
                        e,
                    ));
                    return Err(e);
                },
            };
            let kept = filter_fn(session);
            if !kept {
                self.remove_user_session(session_id)?;
            }
            proof {
                let longer = keep.push(kept);
                lemma_filtered_prefix(start, markers, keep, longer, i as nat);
                assert forall|j: nat| j < i + 1 implies call_ensures(
                    filter_fn,
                    (#[trigger] visited(start, markers, longer, j),),
                    longer[j as int],
                ) by {
                    lemma_filtered_prefix(start, markers, keep, longer, j);
                    if j < i {
                        assert(visited(start, markers, longer, j) == visited(
                            start,
                            markers,
                            keep,
                            j,
                        ));
                    }
                }
                keep = longer;
            }
            i += 1;
        }
        assert(filter_done(filter_fn, start, self.sessions(), user_id, markers, keep));
        Ok(())
    }

    /// The session with the given id, or `None` if there is none.
    pub fn get_user_session(&self, session_id: u64) -> (r: Result<Option<UserSession>, Error>)
        requires
            self.wf(),
        ensures
            answers(r, session_at(self.sessions(), session_id)),
    {
        let key = id_key(session_id);
        match tree_get(&self.session_trees[SESSIONS], key.as_slice())? {
            Some(b) => {
                if b.len() < 16 {
                    return Err(Error::EncodingError);
                }
                Ok(
                    Some(
                        UserSession::new(
                            session_id,
                            read_u64(b.as_slice(), 0),
                            stamp_from_bits(read_u64(b.as_slice(), 8)),
                        ),
                    ),
                )
            },
            None => Ok(None),
        }
    }

    /// The user with the given id, or `None` if there is none.
    pub fn get_user(&self, user_id: u64) -> (r: Result<Option<User>, Error>)
        requires
            self.wf(),
        ensures
            answers(r, user_at(self.users(), user_id)),
            r matches Ok(Some(u)) ==> u.id == user_id,
    {
        self.user_db.get_user(user_id)
    }

    /// The identifier of the user of that name, if there is one.
    pub fn get_userid_by_name(&self, username: &str) -> (r: Result<Option<u64>, Error>)
        requires
            self.wf(),
        ensures
            answers(r, id_by_name(self.users()[USERNAME_ID as int], username@)),
    {
        self.user_db.get_userid_by_name(username)
    }

    /// Stores the user, in place of what was stored under the identifier
    /// and under the name.
    pub fn insert_user(&mut self, user: &User) -> (r: Result<(), Error>)
        requires
            old(self).wf(),
        ensures
            final(self).wf(),
            final(self).fs() == old(self).fs(),
            final(self).sessions() == old(self).sessions(),
            match r {
                Ok(_) => {
                    &&& store_user_step(old(self).users(), user@) == done(
                        ReplyView::Done,
                        final(self).users(),
                    )
                    &&& id_by_name(final(self).users()[USERNAME_ID as int], user.name@) == Ok::<
                        Option<u64>,
                        Error,
                    >(Some(user.id))
                },
                Err(e) => e.is_store_failure(),
            },
    {
        self.user_db.insert_user(user)
    }

    /// The group with the given id, or `None` if there is none.
    pub fn get_group(&self, group_id: u64) -> (r: Result<Option<Group>, Error>)
        requires
            self.wf(),
        ensures
            answers(r, group_at(self.users(), group_id)),
            r matches Ok(Some(g)) ==> g.id == group_id,
    {
        self.user_db.get_group(group_id)
    }

    /// The identifier of the group of that name, if there is one.
    pub fn get_groupid_by_name(&self, groupname: &str) -> (r: Result<Option<u64>, Error>)
        requires
            self.wf(),
        ensures
            answers(r, id_by_name(self.users()[GROUPNAME_ID as int], groupname@)),
    {
        self.user_db.get_groupid_by_name(groupname)
    }

    /// Stores a new group under a fresh random identifier, which `group.id`
    /// is set to.
    pub fn insert_new_group(&mut self, group: &mut Group) -> (r: Result<(), Error>)
        requires
            old(self).wf(),
        ensures
            final(self).wf(),
            final(self).fs() == old(self).fs(),
            final(self).sessions() == old(self).sessions(),
            final(group)@ == (GroupView { id: final(group).id, ..old(group)@ }),
            match r {
                Ok(_) => {
                    &&& final(group).id != 0
                    &&& !old(self).users()[GROUPS as int].contains_key(be64(final(group).id))
                    &&& store_group_step(old(self).users(), true, final(group).id, old(group)@)
                        == done(ReplyView::Done, final(self).users())
                    &&& stored_as(final(self).users(), final(group).id, old(group)@)
                },
                Err(e) => e.is_store_failure() || (final(self).users() == old(self).users()
                    && final(group).id == old(group).id && group_refused(
                    old(self).users(),
                    old(group)@,
                    e,
                )),
            },
    {
        self.user_db.insert_new_group(group)
    }

    /// Stores the group in place of the one that has its identifier.
    pub fn insert_group(&mut self, group: &Group) -> (r: Result<(), Error>)
        requires
            old(self).wf(),
        ensures
            final(self).wf(),
            final(self).fs() == old(self).fs(),
            final(self).sessions() == old(self).sessions(),
            match r {
                Ok(_) => {
                    &&& store_group_step(old(self).users(), false, group.id, group@) == done(
                        ReplyView::Done,
                        final(self).users(),
                    )
                    &&& stored_as(final(self).users(), group.id, group@)
                },
                Err(e) => e.is_store_failure() || (store_group_step(
                    old(self).users(),
                    false,
                    group.id,
                    group@,
                ).reply == Err::<ReplyView, Error>(e) && final(self).users() == old(self).users()),
            },
    {
        self.user_db.insert_group(group)
    }

    /// The file with the given id, or `None` if there is none.
    pub fn get_file(&self, id: u64) -> (r: Result<Option<File>, Error>)
        requires
            self.wf(),
        ensures
            answers(r, file_at(self.fs(), id)),
            r matches Ok(Some(f)) ==> f.id == id,
    {
        self.fs_db.get_file(id)
    }

    /// The directory with the given id, or `None` if there is none.
    pub fn get_dir(&self, id: u64) -> (r: Result<Option<Dir>, Error>)
        requires
            self.wf(),
        ensures
            answers(r, dir_at(self.fs(), id)),
            r matches Ok(Some(d)) ==> d.id == id,
    {
        self.fs_db.get_dir(id)
    }

    /// The way from the directory `dir_id` up to its root directory: the
    /// directory itself, its parent, the parent of that, and so on, as long
    /// as there is a parent, but no more than `limit` directories. A
    /// directory on the way that is not stored is refused with `NoSuchDir`.
    pub fn path_to_root(&self, dir_id: u64, limit: usize) -> (r: Result<Vec<Dir>, Error>)
        requires
            self.wf(),
        ensures
            answers(r, way_up(self.fs(), dir_id, limit as nat)),
            limit == 0 ==> r is Ok,
    {
        let mut path: Vec<Dir> = Vec::new();
        let mut next: u64 = dir_id;
        assert(path.deep_view() =~= Seq::<DirView>::empty());
        assert(Seq::<DirView>::empty() + way_up(self.fs(), dir_id, limit as nat)->Ok_0
            =~= way_up(self.fs(), dir_id, limit as nat)->Ok_0);
        while path.len() < limit
            invariant
                self.wf(),
                path@.len() <= limit,
                way_up(self.fs(), dir_id, limit as nat) == match way_up(
                    self.fs(),
                    next,
                    (limit - path@.len()) as nat,
                ) {
                    Err(e) => Err(e),
                    Ok(rest) => Ok(path.deep_view() + rest),
                },
            decreases limit - path@.len(),
        {
            let ghost before = path.deep_view();
            let ghost left = (limit - path@.len()) as nat;
            let dir = match self.get_dir(next)? {
                Some(d) => d,
                None => {
                    return Err(Error::NoSuchDir);
                },
            };
            let ghost here = dir@;
            next = dir.parent_id;
            path.push(dir);
            proof {
                assert(path.deep_view() =~= before.push(here));
                if next != 0 {
                    let rest = way_up(self.fs(), next, (left - 1) as nat);
                    if rest is Ok {
                        assert(before + (seq![here] + rest->Ok_0) =~= before.push(here)
                            + rest->Ok_0);
                    }
                } else {
                    assert(before + seq![here] =~= before.push(here));
                }
            }
            if next == 0 {
                return Ok(path);
            }
        }
        assert(path.deep_view() + Seq::<DirView>::empty() =~= path.deep_view());
        Ok(path)
    }

    /// The files that are children of the given directory.
    pub fn get_files_by_parent(&self, parent_id: u64) -> (r: Result<Vec<File>, Error>)
        requires
            self.wf(),
        ensures
            answers(r, files_by_parent(self.fs(), parent_id)),
    {
        self.fs_db.get_files_by_parent(parent_id)
    }

    /// The directories that are children of the given directory.
    pub fn get_dirs_by_parent(&self, parent_id: u64) -> (r: Result<Vec<Dir>, Error>)
        requires
            self.wf(),
        ensures
            answers(r, dirs_by_parent(self.fs(), parent_id)),
    {
        self.fs_db.get_dirs_by_parent(parent_id)
    }

    /// Stores `file` as a new file: under a fresh random identifier, which
    /// `file.id` is set to, with the parent, owner, name and media type that
    /// it has, and with no group that may read or write it.
    pub fn insert_new_file(&mut self, file: &mut File) -> (r: Result<(), Error>)
        requires
            old(self).wf(),
        ensures
            final(self).wf(),
            final(self).users() == old(self).users(),
            final(self).sessions() == old(self).sessions(),
            tree_kept(old(self).fs(), final(self).fs(), r),
            final(file)@ == (FileView { id: final(file).id, ..old(file)@ }),
            match r {
                Ok(_) => {
                    &&& final(file).id != 0 && !node_exists(old(self).fs(), final(file).id)
                    &&& insert_file_step(
                        old(self).fs(),
                        final(file).id,
                        old(file).parent_id,
                        old(file).owner_id,
                        old(file).name@,
                        old(file).media_type@,
                    ) == done(ReplyView::Done, final(self).fs())
                    &&& file_at(final(self).fs(), final(file).id) == Ok::<
                        Option<FileView>,
                        Error,
                    >(
                        Some(
                            new_file(
                                final(file).id,
                                old(file).parent_id,
                                old(file).owner_id,
                                old(file).name@,
                                old(file).media_type@,
                            ),
                        ),
                    )
                },
                Err(e) => e.is_store_failure() || (final(self).fs() == old(self).fs()
                    && final(file).id == old(file).id && (e is InconsistentDbState
                    || if !file_storable(old(file)@) {
                    e is BadCall
                } else {
                    insert_refusal(old(self).fs(), old(file).parent_id) == Some(e)
                })),
            },
    {
        let stored = self.fs_db.insert_new_file(
            file.parent_id,
            file.owner_id,
            file.name.as_str(),
            file.media_type.as_str(),
        )?;
        file.id = stored.id;
        Ok(())
    }

    /// Replaces the stored file `file.id` by `file`.
    pub fn update_file(&mut self, file: &File) -> (r: Result<(), Error>)
        requires
            old(self).wf(),
        ensures
            final(self).wf(),
            final(self).users() == old(self).users(),
            final(self).sessions() == old(self).sessions(),
            !file_fits(file@) ==> (r is Err && r->Err_0 is BadCall
                && final(self).fs() == old(self).fs()),
            match r {
                Ok(_) => {
                    &&& file_fits(file@)
                    &&& store_file_step(old(self).fs(), file@) == done(
                        ReplyView::Done,
                        final(self).fs(),
                    )
                    &&& file_at(final(self).fs(), file.id) == Ok::<Option<FileView>, Error>(
                        Some(file@),
                    )
                },
                Err(e) => e.is_store_failure() || (final(self).fs() == old(self).fs()
                    && if !file_fits(file@) {
                    e is BadCall
                } else {
                    store_file_step(old(self).fs(), file@).reply == Err::<ReplyView, Error>(e)
                }),
            },
    {
        self.fs_db.update_file(file)
    }

    /// Removes the file and returns it as it was.
    pub fn remove_file(&mut self, id: u64) -> (r: Result<File, Error>)
        requires
            old(self).wf(),
        ensures
            final(self).wf(),
            final(self).users() == old(self).users(),
            final(self).sessions() == old(self).sessions(),
            tree_kept(old(self).fs(), final(self).fs(), r),
            r is Ok ==> file_at(final(self).fs(), id) == Ok::<Option<FileView>, Error>(None),
            match r {
                Ok(f) => {
                    &&& remove_file_step(old(self).fs(), id).reply is Ok
                    &&& final(self).fs() == del(
                        remove_file_step(old(self).fs(), id).tables,
                        PERMS as int,
                        id,
                    )
                    &&& f@ == removed_file(old(self).fs(), id)
                },
                Err(e) => e.is_store_failure() || (remove_file_step(old(self).fs(), id).reply
                    == Err::<ReplyView, Error>(e) && final(self).fs() == old(self).fs()),
            },
    {
        self.fs_db.remove_file(id)
    }

    /// Stores `dir` as a new, empty directory: under a fresh random
    /// identifier, which `dir.id` is set to, with the parent, owner and name
    /// that it has, and with no group that may read or write it. What
    /// `dir.child_ids` holds is not stored.
    pub fn insert_new_dir(&mut self, dir: &mut Dir) -> (r: Result<(), Error>)
        requires
            old(self).wf(),
        ensures
            final(self).wf(),
            final(self).users() == old(self).users(),
            final(self).sessions() == old(self).sessions(),
            tree_kept(old(self).fs(), final(self).fs(), r),
            final(dir)@ == (DirView { id: final(dir).id, ..old(dir)@ }),
            match r {
                Ok(_) => {
                    &&& final(dir).id != 0 && !node_exists(old(self).fs(), final(dir).id)
                    &&& insert_dir_step(
                        old(self).fs(),
                        final(dir).id,
                        old(dir).parent_id,
                        old(dir).owner_id,
                        old(dir).name@,
                    ) == done(ReplyView::Done, final(self).fs())
                    &&& dir_at(final(self).fs(), final(dir).id) == Ok::<Option<DirView>, Error>(
                        Some(
                            new_dir(
                                final(dir).id,
                                old(dir).parent_id,
                                old(dir).owner_id,
                                old(dir).name@,
                            ),
                        ),
                    )
                },
                Err(e) => e.is_store_failure() || (final(self).fs() == old(self).fs()
                    && final(dir).id == old(dir).id && (e is InconsistentDbState || insert_refusal(
                    old(self).fs(),
                    old(dir).parent_id,
                ) == Some(e))),
            },
    {
        let stored = self.fs_db.insert_new_dir(dir.parent_id, dir.owner_id, dir.name.as_str())?;
        dir.id = stored.id;
        Ok(())
    }

    /// Stores a new, empty root directory for `owner_id`, under a fresh
    /// random identifier, and returns it.
    pub fn insert_root_dir(&mut self, owner_id: u64, name: &str) -> (r: Result<Dir, Error>)
        requires
            old(self).wf(),
        ensures
            final(self).wf(),
            final(self).users() == old(self).users(),
            final(self).sessions() == old(self).sessions(),
            tree_kept(old(self).fs(), final(self).fs(), r),
            match r {
                Ok(d) => {
                    &&& d.id != 0 && !node_exists(old(self).fs(), d.id)
                    &&& d@ == new_dir(d.id, 0, owner_id, name@)
                    &&& insert_root_dir_step(old(self).fs(), d.id, owner_id, name@) == done(
                        ReplyView::Done,
                        final(self).fs(),
                    )
                    &&& dir_at(final(self).fs(), d.id) == Ok::<Option<DirView>, Error>(Some(d@))
                },
                Err(e) => e.is_store_failure() || (final(self).fs() == old(self).fs() && e
                    is InconsistentDbState),
            },
    {
        self.fs_db.insert_root_dir(owner_id, name)
    }

    /// Replaces parent, owner, name and permissions of the stored directory
    /// `dir.id` by those of `dir`; its children stay.
    pub fn update_dir(&mut self, dir: &Dir) -> (r: Result<(), Error>)
        requires
            old(self).wf(),
        ensures
            final(self).wf(),
            final(self).users() == old(self).users(),
            final(self).sessions() == old(self).sessions(),
            !dir_fits(dir@) ==> (r is Err && r->Err_0 is BadCall
                && final(self).fs() == old(self).fs()),
            match r {
                Ok(_) => {
                    &&& dir_fits(dir@)
                    &&& store_dir_step(old(self).fs(), dir@) == done(
                        ReplyView::Done,
                        final(self).fs(),
                    )
                    &&& children_at(old(self).fs(), dir.id) is Ok
                    &&& dir_at(final(self).fs(), dir.id) == Ok::<Option<DirView>, Error>(
                        Some(
                            DirView { child_ids: children_at(old(self).fs(), dir.id)->Ok_0, ..dir@ },
                        ),
                    )
                },
                Err(e) => e.is_store_failure() || (final(self).fs() == old(self).fs()
                    && if !dir_fits(dir@) {
                    e is BadCall
                } else {
                    store_dir_step(old(self).fs(), dir@).reply == Err::<ReplyView, Error>(e)
                }),
            },
    {
        self.fs_db.update_dir(dir)
    }

    /// Removes the directory with all that is below it, and returns it as it
    /// was. A root directory is refused with `ForbiddenAction`.
    pub fn remove_dir(&mut self, id: u64) -> (r: Result<Dir, Error>)
        requires
            old(self).wf(),
        ensures
            final(self).wf(),
            final(self).users() == old(self).users(),
            final(self).sessions() == old(self).sessions(),
            tree_kept(old(self).fs(), final(self).fs(), r),
            is_root(old(self).fs(), id) ==> (r is Err && (r->Err_0.is_store_failure() || (r->Err_0
                is ForbiddenAction && final(self).fs() == old(self).fs()))),
            r is Ok && tree_consistent(old(self).fs()) ==> gone(final(self).fs(), id),
            r is Ok && tree_consistent(old(self).fs()) ==> forall|x: u64, n: nat| #[trigger]
                below(old(self).fs(), x, id, n) ==> gone(final(self).fs(), x),
            match r {
                Ok(d) => {
                    &&& remove_dir_step(old(self).fs(), id).reply is Ok
                    &&& final(self).fs() == del(
                        remove_dir_step(old(self).fs(), id).tables,
                        PERMS as int,
                        id,
                    )
                    &&& d@ == removed_dir(old(self).fs(), id)
                },
                Err(e) => e.is_store_failure() || (remove_dir_step(old(self).fs(), id).reply
                    == Err::<ReplyView, Error>(e) && final(self).fs() == old(self).fs()),
            },
    {
        self.fs_db.remove_dir(id)
    }

    /// Lets the members of `group_id` read the node `fs_node_id`.
    pub fn add_readable_group(&mut self, fs_node_id: u64, group_id: u64) -> (r: Result<(), Error>)
        requires
            old(self).wf(),
        ensures
            final(self).wf(),
            final(self).users() == old(self).users(),
            final(self).sessions() == old(self).sessions(),
            match r {
                Ok(_) => add_group_step(old(self).fs(), fs_node_id, group_id, false) == done(
                    ReplyView::Done,
                    final(self).fs(),
                ),
                Err(e) => e.is_store_failure() || (add_group_step(
                    old(self).fs(),
                    fs_node_id,
                    group_id,
                    false,
                ).reply == Err::<ReplyView, Error>(e) && final(self).fs() == old(self).fs()),
            },
    {
        self.fs_db.add_readable_group(fs_node_id, group_id)
    }

    /// Lets the members of `group_id` write the node `fs_node_id`.
    pub fn add_writeable_group(&mut self, fs_node_id: u64, group_id: u64) -> (r: Result<(), Error>)
        requires
            old(self).wf(),
        ensures
            final(self).wf(),
            final(self).users() == old(self).users(),
            final(self).sessions() == old(self).sessions(),
            match r {
                Ok(_) => add_group_step(old(self).fs(), fs_node_id, group_id, true) == done(
                    ReplyView::Done,
                    final(self).fs(),
                ),
                Err(e) => e.is_store_failure() || (add_group_step(
                    old(self).fs(),
                    fs_node_id,
                    group_id,
                    true,
                ).reply == Err::<ReplyView, Error>(e) && final(self).fs() == old(self).fs()),
            },
    {
        self.fs_db.add_writeable_group(fs_node_id, group_id)
    }
}

} // verus!
