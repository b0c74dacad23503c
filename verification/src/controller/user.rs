//! Requests on users.

use vstd::prelude::*;
use crate::clock::{now_timestamp, stamp_bits};
use crate::database::{Database, decided, filter_done, filter_stopped, filtered, is_marker_list,
    visit, visited};
use crate::error::{answers, Error};
use crate::ids::allocate;
use crate::models::{Id, User, UserSession, UserView};
use crate::msg::{id_or, UserMsg};
use crate::ops::{done, ReplyView};
use crate::password::{argon2_accepts, argon2_hash, verify_password};
use crate::session_ops::{create_session_step, USER_SESSIONS};
use crate::store::Table;
use crate::user_db::{id_by_name, user_at};
use crate::user_ops::USERNAME_ID;

verus! {

/// The user, for themselves: nobody else may see them.
pub open spec fn user_for(users: Seq<Table>, queried_user_id: u64, querying_user_id: u64) -> Result<
    UserView,
    Error,
> {
    match user_at(users, queried_user_id) {
        Err(e) => Err(e),
        Ok(None) => Err(Error::NoSuchTarget),
        Ok(Some(u)) => if querying_user_id == queried_user_id {
            Ok(u)
        } else {
            Err(Error::MissingAuthorization)
        },
    }
}

/// The user `queried_user_id`, for the user `querying_user_id`, who must be
/// the same.
pub fn get_user_info(queried_user_id: u64, querying_user_id: u64, db: &Database) -> (r: Result<
    User,
    Error,
>)
    requires
        db.wf(),
    ensures
        answers(r, user_for(db.users(), queried_user_id, querying_user_id)),
{
    let user = match db.get_user(queried_user_id)? {
        Some(u) => u,
        None => {
            return Err(Error::NoSuchTarget);
        },
    };
    if querying_user_id == queried_user_id {
        Ok(user)
    } else {
        Err(Error::MissingAuthorization)
    }
}

/// Why a message that asks for a new user is refused before the store is
/// even looked at, if it is: the acting user is 0, or the message gives no
/// name or no password or gives an identifier.
pub open spec fn turned_away(
    id: Option<Id>,
    name: Option<String>,
    password: Option<String>,
    acting_user_id: u64,
) -> Option<Error> {
    if acting_user_id == 0 {
        Some(Error::MissingAuthorization)
    } else if name is None || password is None || id is Some {
        Some(Error::BadCall)
    } else {
        None
    }
}

/// Why a message that asks for a new user is refused before anything is
/// stored, if it is: the acting user is 0, the message gives no name or no
/// password or gives an identifier, or the name is taken.
pub open spec fn add_user_refusal(
    users: Seq<Table>,
    id: Option<Id>,
    name: Option<String>,
    password: Option<String>,
    acting_user_id: u64,
) -> Option<Error> {
    if acting_user_id == 0 {
        Some(Error::MissingAuthorization)
    } else if name is None || password is None || id is Some {
        Some(Error::BadCall)
    } else {
        match id_by_name(users[USERNAME_ID as int], name->0@) {
            Err(e) => Some(e),
            Ok(Some(_)) => Some(Error::TargetExists),
            Ok(None) => None,
        }
    }
}

/// Whether, under some salt, the password has no hash.
pub open spec fn cannot_hash(password: Seq<char>) -> bool {
    exists|salt: Seq<char>| #[trigger] argon2_hash(password, salt) is None
}

/// Draws an identifier that is not zero and under which no user is stored.
fn fresh_user_id(db: &Database) -> (r: Result<u64, Error>)
    requires
        db.wf(),
    ensures
        match r {
            Ok(id) => id != 0 && user_at(db.users(), id) == Ok::<Option<UserView>, Error>(None),
            Err(e) => e is InconsistentDbState,
        },
{
    let in_use = |id: u64| -> (taken: bool)
        requires
            db.wf(),
        ensures
            !taken ==> user_at(db.users(), id) == Ok::<Option<UserView>, Error>(None),
        {
            match db.get_user(id) {
                Ok(None) => false,
                _ => true,
            }
        };
    match allocate(in_use) {
        Some(id) => Ok(id),
        None => Err(Error::InconsistentDbState),
    }
}

/// Adds a new user with the name and the password that `user_infos` gives,
/// and with a new root directory called `home`.
///
/// The user gets a fresh random identifier. The root directory and the user
/// are stored one after the other: where the store fails on the user, the
/// directory stays.
pub fn add_user(user_infos: UserMsg, acting_user_id: u64, db: &mut Database) -> (r: Result<
    User,
    Error,
>)
    requires
        old(db).wf(),
    ensures
        final(db).wf(),
        final(db).sessions() == old(db).sessions(),
        turned_away(user_infos.id, user_infos.name, user_infos.password, acting_user_id) is Some
            ==> (r is Err && Some(r->Err_0) == turned_away(
            user_infos.id,
            user_infos.name,
            user_infos.password,
            acting_user_id,
        ) && final(db).fs() == old(db).fs() && final(db).users() == old(db).users()),
        match r {
            Ok(u) => {
                &&& add_user_refusal(
                    old(db).users(),
                    user_infos.id,
                    user_infos.name,
                    user_infos.password,
                    acting_user_id,
                ) is None
                &&& u.id != 0
                &&& u.root_dir_id != 0
                &&& u.name@ == user_infos.name->0@
                &&& u.group_ids@ == Seq::<u64>::empty()
                &&& exists|salt: Seq<char>| #[trigger]
                    argon2_hash(user_infos.password->0@, salt) == Some(u.pwd_hash@)
                &&& user_at(old(db).users(), u.id) == Ok::<Option<UserView>, Error>(None)
                &&& crate::user_db::store_user_step(old(db).users(), u@) == done(
                    ReplyView::Done,
                    final(db).users(),
                )
                &&& crate::fs_db::insert_root_dir_step(
                    old(db).fs(),
                    u.root_dir_id,
                    u.id,
                    "home"@,
                ) == done(ReplyView::Done, final(db).fs())
            },
            Err(e) => match add_user_refusal(
                old(db).users(),
                user_infos.id,
                user_infos.name,
                user_infos.password,
                acting_user_id,
            ) {
                Some(refusal) => e.is_store_failure() || (e == refusal && final(db).fs() == old(
                    db,
                ).fs() && final(db).users() == old(db).users()),
                None => e.is_store_failure() || (final(db).fs() == old(db).fs()
                    && final(db).users() == old(db).users() && (e is InconsistentDbState || (e
                    is BadCall && cannot_hash(user_infos.password->0@)))),
            },
        },
{
    if acting_user_id == 0 {
        return Err(Error::MissingAuthorization);
    }
    let name = match &user_infos.name {
        Some(n) => n,
        None => {
            return Err(Error::BadCall);
        },
    };
    if user_infos.password.is_none() {
        return Err(Error::BadCall);
    }
    if user_infos.id.is_some() {
        return Err(Error::BadCall);
    }
    if db.get_userid_by_name(name.as_str())?.is_some() {
        return Err(Error::TargetExists);
    }
    let user_id = fresh_user_id(db)?;
    let mut new_user = User {
        id: user_id,
        name: String::new(),
        pwd_hash: String::new(),
        root_dir_id: 0,
        group_ids: Vec::new(),
    };
    let ghost password = user_infos.password->0@;
    let ghost blank = new_user@;
    match user_infos.apply_changes(&mut new_user) {
        Ok(_) => {},
        Err(_) => {
            proof {
                let salt = choose|salt: Seq<char>| #[trigger]
                    crate::msg::user_changed(
                        user_infos.name,
                        user_infos.password,
                        salt,
                        blank,
                    ) is None;
                assert(argon2_hash(password, salt) is None);
            }
            return Err(Error::BadCall);
        },
    }
    assert(exists|salt: Seq<char>| #[trigger]
        argon2_hash(password, salt) == Some(new_user.pwd_hash@)) by {
        let salt = choose|salt: Seq<char>| #[trigger]
            crate::msg::user_changed(
                user_infos.name,
                user_infos.password,
                salt,
                blank,
            ) == Some(new_user@);
        assert(argon2_hash(password, salt) == Some(new_user.pwd_hash@));
    }
    let root_dir = db.insert_root_dir(user_id, "home")?;
    new_user.root_dir_id = root_dir.id;
    db.insert_user(&new_user)?;
    Ok(new_user)
}

/// Why a message that asks for a change to a user is refused before
/// anything is stored, if it is: the acting user is 0, the message names no
/// user, the name that it gives is that of another user, or the user that it
/// names is not stored.
pub open spec fn update_user_refusal(
    users: Seq<Table>,
    id: Option<Id>,
    name: Option<String>,
    acting_user_id: u64,
) -> Option<Error> {
    if acting_user_id == 0 {
        Some(Error::MissingAuthorization)
    } else if id is None {
        Some(Error::BadCall)
    } else {
        let taken = match name {
            None => Ok(None),
            Some(n) => id_by_name(users[USERNAME_ID as int], n@),
        };
        if taken is Err {
            Some(taken->Err_0)
        } else if taken->Ok_0 is Some && taken->Ok_0->0 != id_or(id, 0) {
            Some(Error::TargetExists)
        } else {
            match user_at(users, id_or(id, 0)) {
                Err(e) => Some(e),
                Ok(None) => Some(Error::NoSuchTarget),
                Ok(Some(_)) => None,
            }
        }
    }
}

/// Whether `after` is `before` with the name and the password taken over,
/// as far as they are given, the password hashed under some salt.
pub open spec fn hashed_change(
    name: Option<String>,
    password: Option<String>,
    before: UserView,
    after: UserView,
) -> bool {
    exists|salt: Seq<char>| #[trigger]
        crate::msg::user_changed(name, password, salt, before) == Some(after)
}

/// Changes the name and the password of the user that `user_infos` names,
/// as far as it gives them.
pub fn update_user_infos(user_infos: UserMsg, acting_user_id: u64, db: &mut Database) -> (r:
    Result<User, Error>)
    requires
        old(db).wf(),
    ensures
        final(db).wf(),
        final(db).fs() == old(db).fs(),
        final(db).sessions() == old(db).sessions(),
        acting_user_id == 0 ==> (r is Err && r->Err_0 is MissingAuthorization
            && final(db).users() == old(db).users()),
        acting_user_id != 0 && user_infos.id is None ==> (r is Err && r->Err_0 is BadCall
            && final(db).users() == old(db).users()),
        match r {
            Ok(u) => {
                &&& update_user_refusal(
                    old(db).users(),
                    user_infos.id,
                    user_infos.name,
                    acting_user_id,
                ) is None
                &&& hashed_change(
                    user_infos.name,
                    user_infos.password,
                    user_at(old(db).users(), id_or(user_infos.id, 0))->Ok_0->0,
                    u@,
                )
                &&& crate::user_db::store_user_step(old(db).users(), u@) == done(
                    ReplyView::Done,
                    final(db).users(),
                )
            },
            Err(e) => e.is_store_failure() || (final(db).users() == old(db).users()
                && match update_user_refusal(
                old(db).users(),
                user_infos.id,
                user_infos.name,
                acting_user_id,
            ) {
                Some(refusal) => e == refusal,
                None => e is BadCall && user_infos.password is Some && cannot_hash(
                    user_infos.password->0@,
                ),
            }),
        },
{
    if acting_user_id == 0 {
        return Err(Error::MissingAuthorization);
    }
    let user_id = match user_infos.id {
        Some(id) => id.as_int(),
        None => {
            return Err(Error::BadCall);
        },
    };
    match &user_infos.name {
        Some(name) => {
            match db.get_userid_by_name(name.as_str())? {
                Some(other) => {
                    if other != user_id {
                        return Err(Error::TargetExists);
                    }
                },
                None => {},
            }
        },
        None => {},
    }
    let mut user = match db.get_user(user_id)? {
        Some(u) => u,
        None => {
            return Err(Error::NoSuchTarget);
        },
    };
    let ghost before = user@;
    let ghost name = user_infos.name;
    let ghost password = user_infos.password;
    match user_infos.apply_changes(&mut user) {
        Ok(_) => {},
        Err(e) => {
            proof {
                let salt = choose|salt: Seq<char>| #[trigger]
                    crate::msg::user_changed(name, password, salt, before) is None;
                assert(argon2_hash(password->0@, salt) is None);
            }
            return Err(e);
        },
    }
    assert(hashed_change(name, password, before, user@));
    db.insert_user(&user)?;
    Ok(user)
}

/// How long a session lasts, in seconds: a day.
pub const SESSION_SECONDS: i64 = 86_400;

/// What comes of an attempt to log in.
pub enum Login {
    /// No user has this name.
    UnknownUser,
    /// The password is not that of the user.
    WrongPassword,
    /// The user is logged in, with a new session.
    Granted(UserSession, User),
}

/// Whether `after` is what the session trees hold when the user of the
/// new session `session` has logged in: of the markers of the user, the
/// first `n` were visited in turn; a session found with one of them was
/// kept if it was less than a day old when the new session began, and
/// removed if not; a marker that cannot be visited ends this; and in what
/// the trees held then, `mid`, the new session began.
pub open spec fn logged_in(
    before: Seq<Table>,
    mid: Seq<Table>,
    after: Seq<Table>,
    session: UserSession,
    markers: Seq<Seq<u8>>,
    keep: Seq<bool>,
    n: nat,
) -> bool {
    &&& is_marker_list(before[USER_SESSIONS as int], session.user_id, markers)
    &&& n <= markers.len()
    &&& keep.len() == n
    &&& filtered(before, markers, keep, n) == Ok::<Seq<Table>, Error>(mid)
    &&& forall|i: nat|
        i < n ==> keep[i as int] == (#[trigger] visited(
            before,
            markers,
            keep,
            i,
        )).spec_is_younger_than(session.creation_date, SESSION_SECONDS)
    &&& n < markers.len() ==> visit(mid, markers[n as int], true) is Err
    &&& create_session_step(
        mid,
        session.session_id,
        session.user_id,
        stamp_bits(session.creation_date),
    ) == done(ReplyView::Done, after)
}

/// Whether the name is that of a stored user and the password is theirs.
pub open spec fn password_right(users: Seq<Table>, username: Seq<char>, password: Seq<char>) ->
    bool {
    id_by_name(users[USERNAME_ID as int], username) matches Ok(Some(id)) && user_at(users, id)
        matches Ok(Some(u)) && argon2_accepts(password, u.pwd_hash)
}

/// Whether `e` is an error with which an attempt to log in ends, other than
/// a failure of the store: the name, or the user that it stands for, cannot
/// be read; or `InconsistentDbState`, where the name stands for no stored
/// user, or where the password is right and no identifier was found for the
/// new session.
pub open spec fn login_refused(
    users: Seq<Table>,
    username: Seq<char>,
    password: Seq<char>,
    e: Error,
) -> bool {
    match id_by_name(users[USERNAME_ID as int], username) {
        Err(refusal) => e == refusal,
        Ok(None) => false,
        Ok(Some(id)) => match user_at(users, id) {
            Err(refusal) => e == refusal,
            Ok(None) => e is InconsistentDbState,
            Ok(Some(u)) => e is InconsistentDbState && argon2_accepts(password, u.pwd_hash),
        },
    }
}

/// Logs a user in by name and password.
///
/// Where the password is that of the user, the sessions of the user that
/// began a day ago or earlier are removed and a new session begins. A
/// marker or a session of the user that cannot be read ends the removing,
/// not the login; a failure of the store ends the login.
pub fn login(db: &mut Database, username: &str, password: &str) -> (r: Result<Login, Error>)
    requires
        old(db).wf(),
    ensures
        final(db).wf(),
        final(db).fs() == old(db).fs(),
        final(db).users() == old(db).users(),
        !password_right(old(db).users(), username@, password@) && (r is Ok
            || !r->Err_0.is_store_failure()) ==> final(db).sessions() == old(db).sessions(),
        match r {
            Ok(Login::UnknownUser) => {
                &&& id_by_name(old(db).users()[USERNAME_ID as int], username@) == Ok::<
                    Option<u64>,
                    Error,
                >(None)
                &&& final(db).sessions() == old(db).sessions()
            },
            Ok(Login::WrongPassword) => {
                &&& id_by_name(old(db).users()[USERNAME_ID as int], username@) matches Ok(Some(id))
                    && user_at(old(db).users(), id) matches Ok(Some(u)) && !argon2_accepts(
                    password@,
                    u.pwd_hash,
                )
                &&& final(db).sessions() == old(db).sessions()
            },
            Ok(Login::Granted(session, user)) => {
                &&& id_by_name(old(db).users()[USERNAME_ID as int], username@) == Ok::<
                    Option<u64>,
                    Error,
                >(Some(user.id))
                &&& user_at(old(db).users(), user.id) == Ok::<Option<UserView>, Error>(Some(user@))
                &&& argon2_accepts(password@, user@.pwd_hash)
                &&& session.user_id == user.id
                &&& session.session_id != 0
                &&& crate::database::session_at(final(db).sessions(), session.session_id) == Ok::<
                    Option<UserSession>,
                    Error,
                >(Some(session))
                &&& exists|mid: Seq<Table>, markers: Seq<Seq<u8>>, keep: Seq<bool>, n: nat|
                    #[trigger] logged_in(
                        old(db).sessions(),
                        mid,
                        final(db).sessions(),
                        session,
                        markers,
                        keep,
                        n,
                    )
            },
            Err(e) => e.is_store_failure() || login_refused(
                old(db).users(),
                username@,
                password@,
                e,
            ),
        },
{
    let user_id = match db.get_userid_by_name(username)? {
        Some(id) => id,
        None => {
            return Ok(Login::UnknownUser);
        },
    };
    let user = match db.get_user(user_id)? {
        Some(u) => u,
        None => {
            return Err(Error::InconsistentDbState);
        },
    };
    if !verify_password(password, user.pwd_hash.as_str()) {
        return Ok(Login::WrongPassword);
    }
    let now = now_timestamp();
    let fresh = |s: UserSession| -> (b: bool)
        ensures
            b == s.spec_is_younger_than(now, SESSION_SECONDS),
        { s.is_younger_than(now, SESSION_SECONDS) };
    let ghost before = db.sessions();
    let ghost mut markers: Seq<Seq<u8>> = Seq::empty();
    let ghost mut keep: Seq<bool> = Seq::empty();
    let ghost mut n: nat = 0;
    match db.filter_user_sessions(user.id, fresh) {
        Ok(_) => {
            proof {
                let (m, k) = choose|m: Seq<Seq<u8>>, k: Seq<bool>| #[trigger]
                    filter_done(fresh, before, db.sessions(), user.id, m, k);
                markers = m;
                keep = k;
                n = m.len();
            }
        },
        Err(e) => {
            if e.store_failure() {
                return Err(e);
            }
            proof {
                let (m, k, i) = choose|m: Seq<Seq<u8>>, k: Seq<bool>, i: nat| #[trigger]
                    filter_stopped(fresh, before, db.sessions(), user.id, m, k, i, e);
                markers = m;
                keep = k;
                n = i;
            }
        },
    }
    let ghost mid = db.sessions();
    assert(decided(fresh, before, markers, keep, n));
    match db.create_user_session_at(user.id, now) {
        Ok(session) => {
            assert(logged_in(before, mid, db.sessions(), session, markers, keep, n));
            Ok(Login::Granted(session, user))
        },
        Err(e) => Err(if e.store_failure() {
            e
        } else {
            Error::InconsistentDbState
        }),
    }
}

} // verus!
