//! The operations that change the store. Each one runs as a single
//! transaction: `step` says, as a function of the operation and of what the
//! trees hold, what the reply is and what the trees hold afterwards; `apply`
//! carries it out on the view that a transaction has of the trees.

use vstd::prelude::*;
use sled::transaction::TransactionalTree;
use crate::error::Error;
use crate::fs_ops::{add_group, add_group_step, DIRS, FILES, insert_node, insert_node_step,
    insert_root, insert_root_step, remove_dir, remove_dir_step, remove_file, remove_file_step,
    remove_permissions, remove_permissions_step, update_dir, update_dir_step, update_file,
    update_file_step};
use crate::session_ops::{create_session, create_session_step, remove_session, remove_session_step};
use crate::store::{opt_bytes, Table, views_state};
use crate::user_ops::{insert_group, insert_group_step, insert_user, insert_user_step};

verus! {

/// One operation on the store, with everything that it needs.
pub enum Op {
    /// Store a new file under `id` as a child of `parent_id`.
    InsertFile { id: u64, parent_id: u64, record: Vec<u8> },
    /// Store a new directory under `id` as a child of `parent_id`.
    InsertDir { id: u64, parent_id: u64, record: Vec<u8> },
    /// Store a new root directory under `id`.
    InsertRootDir { id: u64, record: Vec<u8> },
    /// Replace the record and the permissions of a file.
    UpdateFile { id: u64, record: Vec<u8>, permissions: Vec<u8> },
    /// Replace parent, owner, name and permissions of a directory, keeping
    /// its children.
    UpdateDir { id: u64, parent_id: u64, owner_id: u64, name: Vec<u8>, permissions: Vec<u8> },
    /// Remove a file and its entry in its parent.
    RemoveFile { id: u64 },
    /// Remove a directory, its entry in its parent, and all that is below it.
    RemoveDir { id: u64 },
    /// Remove the permission record of a node.
    RemovePermissions { id: u64 },
    /// Let a group read a node.
    AddReadableGroup { node_id: u64, group_id: u64 },
    /// Let a group write a node.
    AddWriteableGroup { node_id: u64, group_id: u64 },
    /// Store a user.
    InsertUser { id: u64, name: Vec<u8>, pwd_hash: Vec<u8>, root_dir_id: u64 },
    /// Store a group, new (`fresh`) or not, and note it with its users. A
    /// group that is too large to be stored comes without a record.
    InsertGroup { fresh: bool, id: u64, name: Vec<u8>, record: Option<Vec<u8>>, user_ids: Vec<u64> },
    /// Store a new session.
    CreateSession { session_id: u64, user_id: u64, created_at: u64 },
    /// Remove a session.
    RemoveSession { session_id: u64 },
}

/// What an operation answers when it succeeds.
pub enum Reply {
    /// The change was made.
    Done,
    /// Nothing was done: the proposed identifier is zero or in use.
    IdTaken,
    /// The change was made; this is the record that was removed.
    Record(Vec<u8>),
    /// There was nothing to remove.
    Nothing,
}

/// A reply as a mathematical value.
pub enum ReplyView {
    Done,
    IdTaken,
    Record(Seq<u8>),
    Nothing,
}

impl View for Reply {
    type V = ReplyView;

    open spec fn view(&self) -> ReplyView {
        match self {
            Reply::Done => ReplyView::Done,
            Reply::IdTaken => ReplyView::IdTaken,
            Reply::Record(b) => ReplyView::Record(b@),
            Reply::Nothing => ReplyView::Nothing,
        }
    }
}

/// The outcome of an operation: its reply or the error that it decides on,
/// and what the trees hold afterwards.
pub struct Step {
    pub reply: Result<ReplyView, Error>,
    pub tables: Seq<Table>,
}

/// The operation changes nothing and fails with `e`.
pub open spec fn fail(e: Error, s: Seq<Table>) -> Step {
    Step { reply: Err(e), tables: s }
}

/// The operation answers `reply` and leaves the trees as `s`.
pub open spec fn done(reply: ReplyView, s: Seq<Table>) -> Step {
    Step { reply: Ok(reply), tables: s }
}

/// Whether what `apply` returned, and the trees as it left them, are what
/// `expected` says. A failure of the store may come at any time; an error
/// that the operation decides on is the expected one.
pub open spec fn agrees(r: Result<Reply, Error>, expected: Step, after: Seq<Table>) -> bool {
    match r {
        Ok(reply) => expected.reply == Ok::<ReplyView, Error>(reply@) && expected.tables == after,
        Err(e) => e.is_store_failure() || expected.reply == Err::<ReplyView, Error>(e),
    }
}

impl Op {
    /// The number of trees that the operation works on.
    pub open spec fn tables(self) -> nat {
        match self {
            Op::InsertUser { .. } => 7,
            Op::InsertGroup { .. } => 7,
            Op::CreateSession { .. } => 2,
            Op::RemoveSession { .. } => 2,
            _ => 3,
        }
    }
}

/// What the operation does to trees that hold `s`.
pub open spec fn step(op: Op, s: Seq<Table>) -> Step {
    match op {
        Op::InsertFile { id, parent_id, record } => insert_node_step(
            s,
            FILES as int,
            id,
            parent_id,
            record@,
        ),
        Op::InsertDir { id, parent_id, record } => insert_node_step(
            s,
            DIRS as int,
            id,
            parent_id,
            record@,
        ),
        Op::InsertRootDir { id, record } => insert_root_step(s, id, record@),
        Op::UpdateFile { id, record, permissions } => update_file_step(
            s,
            id,
            record@,
            permissions@,
        ),
        Op::UpdateDir { id, parent_id, owner_id, name, permissions } => update_dir_step(
            s,
            id,
            parent_id,
            owner_id,
            name@,
            permissions@,
        ),
        Op::RemoveFile { id } => remove_file_step(s, id),
        Op::RemoveDir { id } => remove_dir_step(s, id),
        Op::RemovePermissions { id } => remove_permissions_step(s, id),
        Op::AddReadableGroup { node_id, group_id } => add_group_step(s, node_id, group_id, false),
        Op::AddWriteableGroup { node_id, group_id } => add_group_step(s, node_id, group_id, true),
        Op::InsertUser { id, name, pwd_hash, root_dir_id } => insert_user_step(
            s,
            id,
            name@,
            pwd_hash@,
            root_dir_id,
        ),
        Op::InsertGroup { fresh, id, name, record, user_ids } => insert_group_step(
            s,
            fresh,
            id,
            name@,
            opt_bytes(record),
            user_ids@,
        ),
        Op::CreateSession { session_id, user_id, created_at } => create_session_step(
            s,
            session_id,
            user_id,
            created_at,
        ),
        Op::RemoveSession { session_id } => remove_session_step(s, session_id),
    }
}

/// Carries out the operation on the view that a transaction has of the
/// trees.
pub fn apply(views: &mut Vec<TransactionalTree>, op: &Op) -> (r: Result<Reply, Error>)
    requires
        old(views)@.len() == op.tables(),
    ensures
        final(views)@.len() == old(views)@.len(),
        agrees(r, step(*op, views_state(old(views)@)), views_state(final(views)@)),
{
    match op {
        Op::InsertFile { id, parent_id, record } => insert_node(
            views,
            FILES,
            *id,
            *parent_id,
            record.as_slice(),
        ),
        Op::InsertDir { id, parent_id, record } => insert_node(
            views,
            DIRS,
            *id,
            *parent_id,
            record.as_slice(),
        ),
        Op::InsertRootDir { id, record } => insert_root(views, *id, record.as_slice()),
        Op::UpdateFile { id, record, permissions } => update_file(
            views,
            *id,
            record.as_slice(),
            permissions.as_slice(),
        ),
        Op::UpdateDir { id, parent_id, owner_id, name, permissions } => update_dir(
            views,
            *id,
            *parent_id,
            *owner_id,
            name.as_slice(),
            permissions.as_slice(),
        ),
        Op::RemoveFile { id } => remove_file(views, *id),
        Op::RemoveDir { id } => remove_dir(views, *id),
        Op::RemovePermissions { id } => remove_permissions(views, *id),
        Op::AddReadableGroup { node_id, group_id } => add_group(views, *node_id, *group_id, false),
        Op::AddWriteableGroup { node_id, group_id } => add_group(views, *node_id, *group_id, true),
        Op::InsertUser { id, name, pwd_hash, root_dir_id } => insert_user(
            views,
            *id,
            name.as_slice(),
            pwd_hash.as_slice(),
            *root_dir_id,
        ),
        Op::InsertGroup { fresh, id, name, record, user_ids } => insert_group(
            views,
            *fresh,
            *id,
            name.as_slice(),
            record,
            user_ids,
        ),
        Op::CreateSession { session_id, user_id, created_at } => create_session(
            views,
            *session_id,
            *user_id,
            *created_at,
        ),
        Op::RemoveSession { session_id } => remove_session(views, *session_id),
    }
}

} // verus!
