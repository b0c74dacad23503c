//! The operations on sessions.
//!
//! They work on two trees: the session records by session identifier, and a
//! marker for each session under the identifier of its user followed by its
//! own, so that the sessions of a user stand together.

use vstd::prelude::*;
use sled::transaction::TransactionalTree;
use crate::bytes::{be64, id_key, put_bytes, put_u64};
use crate::error::Error;
use crate::ops::{agrees, done, Reply, ReplyView, Step};
use crate::store::{lookup, Table, view_get, view_insert, view_remove, views_state};

verus! {

/// The tree of session records.
pub const SESSIONS: usize = 0;

/// The tree of markers, one for each session of each user.
pub const USER_SESSIONS: usize = 1;

/// A session record: the user, then the second in which the session began.
pub open spec fn session_bytes(user_id: u64, created_at: u64) -> Seq<u8> {
    be64(user_id) + be64(created_at)
}

/// The key of the marker of a session.
pub open spec fn marker_key(user_id: u64, session_id: u64) -> Seq<u8> {
    be64(user_id) + be64(session_id)
}

/// A session begins: answered with `IdTaken` while `session_id` is zero or
/// in use; else its record and its marker are stored.
pub open spec fn create_session_step(
    s: Seq<Table>,
    session_id: u64,
    user_id: u64,
    created_at: u64,
) -> Step {
    if session_id == 0 || s[SESSIONS as int].contains_key(be64(session_id)) {
        done(ReplyView::IdTaken, s)
    } else {
        let s1 = s.update(
            SESSIONS as int,
            s[SESSIONS as int].insert(be64(session_id), session_bytes(user_id, created_at)),
        );
        done(
            ReplyView::Done,
            s1.update(
                USER_SESSIONS as int,
                s1[USER_SESSIONS as int].insert(marker_key(user_id, session_id), Seq::empty()),
            ),
        )
    }
}

/// A session ends: its record goes, and with it the marker under the user
/// that the record names. Where there is no such session nothing changes.
pub open spec fn remove_session_step(s: Seq<Table>, session_id: u64) -> Step {
    match lookup(s[SESSIONS as int], be64(session_id)) {
        None => done(ReplyView::Done, s),
        Some(record) => {
            let s1 = s.update(SESSIONS as int, s[SESSIONS as int].remove(be64(session_id)));
            if record.len() < 8 {
                done(ReplyView::Done, s1)
            } else {
                done(
                    ReplyView::Done,
                    s1.update(
                        USER_SESSIONS as int,
                        s1[USER_SESSIONS as int].remove(
                            record.subrange(0, 8) + be64(session_id),
                        ),
                    ),
                )
            }
        },
    }
}

/// Carries out `create_session_step`.
pub(crate) fn create_session(
    views: &mut Vec<TransactionalTree>,
    session_id: u64,
    user_id: u64,
    created_at: u64,
) -> (r: Result<Reply, Error>)
    requires
        old(views)@.len() == 2,
    ensures
        final(views)@.len() == 2,
        agrees(
            r,
            create_session_step(views_state(old(views)@), session_id, user_id, created_at),
            views_state(final(views)@),
        ),
{
    let key = id_key(session_id);
    if session_id == 0 {
        return Ok(Reply::IdTaken);
    }
    if view_get(views, SESSIONS, key.as_slice())?.is_some() {
        return Ok(Reply::IdTaken);
    }
    let mut record = id_key(user_id);
    put_u64(&mut record, created_at);
    let mut marker = id_key(user_id);
    put_u64(&mut marker, session_id);
    let nothing: Vec<u8> = Vec::new();
    view_insert(views, SESSIONS, key.as_slice(), record.as_slice())?;
    view_insert(views, USER_SESSIONS, marker.as_slice(), nothing.as_slice())?;
    Ok(Reply::Done)
}

/// Carries out `remove_session_step`.
pub(crate) fn remove_session(views: &mut Vec<TransactionalTree>, session_id: u64) -> (r: Result<
    Reply,
    Error,
>)
    requires
        old(views)@.len() == 2,
    ensures
        final(views)@.len() == 2,
        agrees(
            r,
            remove_session_step(views_state(old(views)@), session_id),
            views_state(final(views)@),
        ),
{
    let key = id_key(session_id);
    match view_remove(views, SESSIONS, key.as_slice())? {
        Some(record) => {
            if record.len() >= 8 {
                let mut marker: Vec<u8> = Vec::new();
                put_bytes(&mut marker, vstd::slice::slice_subrange(record.as_slice(), 0, 8));
                put_u64(&mut marker, session_id);
                assert(marker@ =~= record@.subrange(0, 8) + be64(session_id));
                view_remove(views, USER_SESSIONS, marker.as_slice())?;
            }
        },
        None => {
            let ghost s = views_state(old(views)@);
            assert(s[SESSIONS as int].remove(key@) =~= s[SESSIONS as int]);
            assert(views_state(views@) =~= s);
        },
    }
    Ok(Reply::Done)
}

} // verus!
