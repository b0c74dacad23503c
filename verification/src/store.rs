//! The key-value store under the engine: named trees of byte strings, read
//! directly and changed inside transactions.
//!
//! Everything in this file is taken on trust from the store's own code.
//!
//! A tree is a handle to entries that the store keeps under a name. What the
//! contracts call the contents of a tree is what the store holds under that
//! name at that moment; they describe a store that is written to through the
//! handles of one engine alone, which takes them by `&mut` whenever it
//! writes. Two handles of one name stand for the same entries: whoever opens
//! a tree a second time, or writes to it by another way, while an engine is
//! at work on it, leaves what these contracts describe. Any call may fail on
//! the side of the store; of such failures nothing is claimed but that they
//! arrive as errors.

use vstd::prelude::*;
use sled::transaction::{ConflictableTransactionError, Transactional, TransactionalTree,
    TransactionError, UnabortableTransactionError};
use crate::error::Error;
use crate::ops::{apply, Op, Reply, ReplyView, step, Step};

verus! {

/// `sled::Db`: a database, from which trees are opened by name.
#[verifier::external_type_specification]
#[verifier::external_body]
pub struct ExDb(sled::Db);

/// `sled::Tree`: a handle to one tree of a database.
#[verifier::external_type_specification]
#[verifier::external_body]
pub struct ExTree(sled::Tree);

/// `sled::transaction::TransactionalTree`: a tree as a running transaction
/// sees it.
#[verifier::external_type_specification]
#[verifier::external_body]
pub struct ExTransactionalTree(sled::transaction::TransactionalTree);

/// What one tree holds: a finite map from keys to values.
pub type Table = Map<Seq<u8>, Seq<u8>>;

/// The entries of a tree.
pub uninterp spec fn tree_contents(tree: sled::Tree) -> Map<Seq<u8>, Seq<u8>>;

/// The name under which a tree is kept in its database. Handles of one name
/// are handles to the same tree.
pub uninterp spec fn tree_name(tree: sled::Tree) -> Seq<char>;

/// The entries that a transaction sees in a tree: those of the tree, overlaid
/// with what the transaction has written so far.
pub uninterp spec fn view_contents(view: sled::transaction::TransactionalTree) -> Map<
    Seq<u8>,
    Seq<u8>,
>;

/// The entries of several trees, in order.
pub open spec fn trees_state(trees: Seq<sled::Tree>) -> Seq<Table> {
    Seq::new(trees.len(), |i: int| tree_contents(trees[i]))
}

/// The names of several trees, in order.
pub open spec fn trees_names(trees: Seq<sled::Tree>) -> Seq<Seq<char>> {
    Seq::new(trees.len(), |i: int| tree_name(trees[i]))
}

/// Whether no two of the trees have the same name, and so no two of them
/// are the same tree.
pub open spec fn names_differ(trees: Seq<sled::Tree>) -> bool {
    forall|i: int, j: int|
        0 <= i < j < trees.len() ==> #[trigger] trees_names(trees)[i] != #[trigger] trees_names(
            trees,
        )[j]
}

/// The entries that a transaction sees in several trees, in order.
pub open spec fn views_state(views: Seq<sled::transaction::TransactionalTree>) -> Seq<Table> {
    Seq::new(views.len(), |i: int| view_contents(views[i]))
}

/// The value of an optional byte vector.
pub open spec fn opt_bytes(v: Option<Vec<u8>>) -> Option<Seq<u8>> {
    match v {
        Some(b) => Some(b@),
        None => None,
    }
}

/// What a table holds under a key, if anything.
pub open spec fn lookup(t: Table, key: Seq<u8>) -> Option<Seq<u8>> {
    if t.contains_key(key) {
        Some(t[key])
    } else {
        None
    }
}

/// `sled::Db::open_tree`: a handle to the tree of that name, which is
/// created when it is new. Nothing is claimed of what the tree holds.
#[verifier::external_body]
pub(crate) fn open_tree(db: &sled::Db, name: &str) -> (r: Result<sled::Tree, Error>)
    ensures
        match r {
            Ok(tree) => tree_name(tree) == name@,
            Err(e) => e is DbError,
        },
{
    match db.open_tree(name) {
        Ok(tree) => Ok(tree),
        Err(e) => Err(Error::DbError(e.to_string())),
    }
}

/// `sled::Tree::get`: the value stored under `key`, or `None`; a failure of
/// the store comes back as `DbError`.
#[verifier::external_body]
pub(crate) fn tree_get(tree: &sled::Tree, key: &[u8]) -> (r: Result<Option<Vec<u8>>, Error>)
    ensures
        match r {
            Ok(v) => opt_bytes(v) == lookup(tree_contents(*tree), key@),
            Err(e) => e is DbError,
        },
{
    match tree.get(key) {
        Ok(Some(v)) => Ok(Some(v.to_vec())),
        Ok(None) => Ok(None),
        Err(e) => Err(Error::DbError(e.to_string())),
    }
}

/// `sled::Tree::scan_prefix`, of which the keys are taken: the keys of
/// the tree that start with `prefix`, each of them once; a failure of the
/// store comes back as `DbError`.
#[verifier::external_body]
pub(crate) fn tree_keys_with_prefix(tree: &sled::Tree, prefix: &[u8]) -> (r: Result<
    Vec<Vec<u8>>,
    Error,
>)
    ensures
        match r {
            Ok(keys) => {
                &&& forall|i: int|
                    0 <= i < keys@.len() ==> tree_contents(*tree).contains_key(
                        (#[trigger] keys@[i])@,
                    ) && prefix@.is_prefix_of(keys@[i]@)
                &&& forall|i: int, j: int|
                    0 <= i < j < keys@.len() ==> (#[trigger] keys@[i])@ != (#[trigger] keys@[j])@
                &&& forall|k: Seq<u8>|
                    tree_contents(*tree).contains_key(k) && prefix@.is_prefix_of(k) ==> exists|
                        i: int,
                    |
                        0 <= i < keys@.len() && (#[trigger] keys@[i])@ == k
            },
            Err(e) => e is DbError,
        },
{
    let keys = tree.scan_prefix(prefix).keys().map(|key| key.map(|k| k.to_vec()));
    match keys.collect::<Result<Vec<Vec<u8>>, sled::Error>>() {
        Ok(keys) => Ok(keys),
        Err(e) => Err(Error::DbError(e.to_string())),
    }
}

/// `TransactionalTree::get` on the tree at `at`: the value that the
/// transaction sees under `key`.
#[verifier::external_body]
pub(crate) fn view_get(views: &Vec<TransactionalTree>, at: usize, key: &[u8]) -> (r: Result<
    Option<Vec<u8>>,
    Error,
>)
    requires
        at < views@.len(),
    ensures
        match r {
            Ok(v) => opt_bytes(v) == lookup(view_contents(views@[at as int]), key@),
            Err(e) => e.is_store_failure(),
        },
{
    match views[at].get(key) {
        Ok(Some(v)) => Ok(Some(v.to_vec())),
        Ok(None) => Ok(None),
        Err(UnabortableTransactionError::Conflict) => Err(Error::TransactionConflictError),
        Err(UnabortableTransactionError::Storage(e)) => Err(Error::DbError(e.to_string())),
    }
}

/// `TransactionalTree::insert` on the tree at `at`: from now on the
/// transaction sees `value` under `key`; the other trees are as before. The
/// value seen until now comes back. On a failure nothing was written.
#[verifier::external_body]
pub(crate) fn view_insert(
    views: &mut Vec<TransactionalTree>,
    at: usize,
    key: &[u8],
    value: &[u8],
) -> (r: Result<Option<Vec<u8>>, Error>)
    requires
        at < old(views)@.len(),
    ensures
        final(views)@.len() == old(views)@.len(),
        forall|i: int|
            0 <= i < old(views)@.len() ==> (#[trigger] views_state(final(views)@)[i]).dom().finite(),
        match r {
            Ok(v) => {
                &&& opt_bytes(v) == lookup(views_state(old(views)@)[at as int], key@)
                &&& views_state(final(views)@) == views_state(old(views)@).update(
                    at as int,
                    views_state(old(views)@)[at as int].insert(key@, value@),
                )
            },
            Err(e) => e.is_store_failure() && views_state(final(views)@) == views_state(
                old(views)@,
            ),
        },
{
    match views[at].insert(key, value) {
        Ok(Some(v)) => Ok(Some(v.to_vec())),
        Ok(None) => Ok(None),
        Err(UnabortableTransactionError::Conflict) => Err(Error::TransactionConflictError),
        Err(UnabortableTransactionError::Storage(e)) => Err(Error::DbError(e.to_string())),
    }
}

/// `TransactionalTree::remove` on the tree at `at`: from now on the
/// transaction sees nothing under `key`; the other trees are as before. The
/// value seen until now comes back. After a failure nothing is claimed of
/// what the transaction sees: the removal is noted even where the value
/// could not be read.
#[verifier::external_body]
pub(crate) fn view_remove(views: &mut Vec<TransactionalTree>, at: usize, key: &[u8]) -> (r: Result<
    Option<Vec<u8>>,
    Error,
>)
    requires
        at < old(views)@.len(),
    ensures
        final(views)@.len() == old(views)@.len(),
        forall|i: int|
            0 <= i < old(views)@.len() ==> (#[trigger] views_state(final(views)@)[i]).dom().finite(),
        match r {
            Ok(v) => {
                &&& opt_bytes(v) == lookup(views_state(old(views)@)[at as int], key@)
                &&& views_state(final(views)@) == views_state(old(views)@).update(
                    at as int,
                    views_state(old(views)@)[at as int].remove(key@),
                )
            },
            Err(e) => e.is_store_failure(),
        },
{
    match views[at].remove(key) {
        Ok(Some(v)) => Ok(Some(v.to_vec())),
        Ok(None) => Ok(None),
        Err(UnabortableTransactionError::Conflict) => Err(Error::TransactionConflictError),
        Err(UnabortableTransactionError::Storage(e)) => Err(Error::DbError(e.to_string())),
    }
}

/// `Transactional::transaction` on a slice of trees, with `apply` as the
/// body: the operation is carried out on the trees in one transaction.
///
/// The body gets the views of the transaction as a copy that writes to the
/// same transaction, and every error that it returns gives the transaction
/// up. `apply` is proved to do on the views what `step` says; the claim here
/// is that the store then does the same to the trees: where the operation
/// succeeds, the trees hold afterwards what `step` says, all of it, and the
/// reply is the one that `step` gives; where it decides on an error, the
/// trees are as before. After a failure of the store itself nothing is known
/// of what the trees hold.
///
/// The trees must be different trees, each with a view and a set of writes
/// of its own; the handles stay what they are.
#[verifier::external_body]
pub(crate) fn transact(trees: &mut Vec<sled::Tree>, op: &Op) -> (r: Result<Reply, Error>)
    requires
        old(trees)@.len() == op.tables(),
        names_differ(old(trees)@),
    ensures
        final(trees)@.len() == old(trees)@.len(),
        trees_names(final(trees)@) == trees_names(old(trees)@),
        match r {
            Ok(reply) => step(*op, trees_state(old(trees)@)) == (Step {
                reply: Ok(reply@),
                tables: trees_state(final(trees)@),
            }),
            Err(e) => e.is_store_failure() || (step(*op, trees_state(old(trees)@)).reply == Err::<
                ReplyView,
                Error,
            >(e) && trees_state(final(trees)@) == trees_state(old(trees)@)),
        },
{
    let run = trees.as_slice().transaction(
        |views| apply(&mut views.clone(), op).map_err(ConflictableTransactionError::Abort),
    );
    match run {
        Ok(reply) => Ok(reply),
        Err(TransactionError::Abort(e)) => Err(e),
        Err(TransactionError::Storage(e)) => Err(Error::DbError(e.to_string())),
    }
}

} // verus!
