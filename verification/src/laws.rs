//! What holds of the tree of files and directories, and of the sessions,
//! whatever the operations are that are carried out and in whatever order.

use vstd::prelude::*;
use vstd::utf8::*;
use crate::bytes::{be64, lemma_be64_injective, lemma_be64_round_trip};
use crate::codec::{count_at, dir_bytes, file_bytes, first_index, id_list_at, lemma_first_index,
    lemma_id_list_round_trip, lemma_list_push, lemma_list_remove, list_push, list_remove, MAX_COUNT};
use crate::error::Error;
use crate::fs_db::{insert_dir_step, insert_file_step, insert_root_dir_step, new_file};
use crate::fs_ops::{del, DIRS, FILES, insert_node_step, insert_root_step, lemma_sweep_dir,
    lemma_sweep_done, lemma_sweep_leaf, node_exists, parent_in, PERMS, remove_dir_step,
    remove_file_step, sweep, unlink_step};
use crate::models::FileView;
use crate::ops::{done, fail, ReplyView, Step};
use crate::session_ops::remove_session_step;
use crate::store::Table;

verus! {

// ---------------------------------------------------------------------
// Root directories stay
// ---------------------------------------------------------------------

/// A root directory is never removed: `remove_dir` on a stored directory
/// whose parent is 0 fails with `ForbiddenAction` and changes nothing,
/// whatever else its record holds.
pub proof fn law_root_directory_stays(s: Seq<Table>, id: u64)
    requires
        s[DIRS as int].contains_key(be64(id)),
        s[DIRS as int][be64(id)].len() >= 8,
        parent_in(s[DIRS as int][be64(id)]) == 0,
    ensures
        remove_dir_step(s, id) == fail(Error::ForbiddenAction, s),
{
}

// ---------------------------------------------------------------------
// Sessions end once
// ---------------------------------------------------------------------

/// Ending a session twice is no error, and the second time changes nothing.
pub proof fn law_session_removal_idempotent(s: Seq<Table>, session_id: u64)
    requires
        s.len() == 2,
    ensures
        remove_session_step(s, session_id).reply == Ok::<ReplyView, Error>(ReplyView::Done),
        remove_session_step(remove_session_step(s, session_id).tables, session_id) == done(
            ReplyView::Done,
            remove_session_step(s, session_id).tables,
        ),
{
}

// ---------------------------------------------------------------------
// Identifiers are not given out twice
// ---------------------------------------------------------------------

/// One insertion that was made: under which identifier, into which tree,
/// below which parent (0 for a new root directory), with which record.
pub struct Insertion {
    pub table: int,
    pub id: u64,
    pub parent_id: u64,
    pub record: Seq<u8>,
}

/// What one insertion does.
pub open spec fn insertion_step(s: Seq<Table>, i: Insertion) -> Step {
    if i.parent_id == 0 {
        insert_root_step(s, i.id, i.record)
    } else {
        insert_node_step(s, i.table, i.id, i.parent_id, i.record)
    }
}

/// What the trees hold after the insertions were made one after the other,
/// if each of them was made indeed.
pub open spec fn after_insertions(s: Seq<Table>, made: Seq<Insertion>) -> Option<Seq<Table>>
    decreases made.len(),
{
    if made.len() == 0 {
        Some(s)
    } else {
        match after_insertions(s, made.drop_last()) {
            None => None,
            Some(s1) => if insertion_step(s1, made.last()).reply == Ok::<ReplyView, Error>(
                ReplyView::Done,
            ) {
                Some(insertion_step(s1, made.last()).tables)
            } else {
                None
            },
        }
    }
}

/// An insertion that is made stores its node under an identifier that is not
/// zero and was not in use, and keeps every node that was stored.
pub proof fn lemma_insertion_adds(s: Seq<Table>, i: Insertion, x: u64)
    requires
        s.len() == 3,
        i.table == FILES || i.table == DIRS,
        insertion_step(s, i).reply == Ok::<ReplyView, Error>(ReplyView::Done),
    ensures
        i.id != 0,
        !node_exists(s, i.id),
        insertion_step(s, i).tables.len() == 3,
        node_exists(insertion_step(s, i).tables, i.id),
        node_exists(s, x) ==> node_exists(insertion_step(s, i).tables, x),
{
}

/// After insertions that were all made, every one of their nodes is stored.
pub proof fn lemma_insertions_add(s: Seq<Table>, made: Seq<Insertion>, k: int)
    requires
        s.len() == 3,
        forall|i: int| 0 <= i < made.len() ==> made[i].table == FILES || made[i].table == DIRS,
        after_insertions(s, made) is Some,
        0 <= k < made.len(),
    ensures
        (after_insertions(s, made)->0).len() == 3,
        after_insertions(s, made.take(k)) is Some,
        !node_exists(after_insertions(s, made.take(k))->0, made[k].id),
        made[k].id != 0,
        node_exists(after_insertions(s, made)->0, made[k].id),
    decreases made.len(),
{
    let before = made.drop_last();
    let s1 = after_insertions(s, before)->0;
    lemma_insertions_len(s, before);
    lemma_insertion_adds(s1, made.last(), 0);
    if k == made.len() - 1 {
        assert(made.take(k) =~= before);
    } else {
        lemma_insertions_add(s, before, k);
        assert(before.take(k) =~= made.take(k));
        lemma_insertion_adds(s1, made.last(), made[k].id);
    }
}

/// Insertions leave the three trees three.
pub proof fn lemma_insertions_len(s: Seq<Table>, made: Seq<Insertion>)
    requires
        s.len() == 3,
        forall|i: int| 0 <= i < made.len() ==> made[i].table == FILES || made[i].table == DIRS,
        after_insertions(s, made) is Some,
    ensures
        (after_insertions(s, made)->0).len() == 3,
    decreases made.len(),
{
    if made.len() > 0 {
        lemma_insertions_len(s, made.drop_last());
        lemma_insertion_adds(after_insertions(s, made.drop_last())->0, made.last(), 0);
    }
}

/// However many files and directories are inserted one after the other: no
/// two of them get the same identifier, and none gets zero.
pub proof fn law_identifiers_unique(s: Seq<Table>, made: Seq<Insertion>)
    requires
        s.len() == 3,
        forall|i: int| 0 <= i < made.len() ==> made[i].table == FILES || made[i].table == DIRS,
        after_insertions(s, made) is Some,
    ensures
        forall|i: int| 0 <= i < made.len() ==> (#[trigger] made[i]).id != 0,
        forall|i: int, j: int|
            0 <= i < j < made.len() ==> (#[trigger] made[i]).id != (#[trigger] made[j]).id,
{
    assert forall|i: int| 0 <= i < made.len() implies (#[trigger] made[i]).id != 0 by {
        lemma_insertions_add(s, made, i);
    }
    assert forall|i: int, j: int| 0 <= i < j < made.len() implies (#[trigger] made[i]).id != (
    #[trigger] made[j]).id by {
        lemma_insertions_add(s, made, j);
        let upto = made.take(j);
        lemma_insertions_add(s, upto, i);
    }
}

// ---------------------------------------------------------------------
// The tree stays a tree
// ---------------------------------------------------------------------

/// Whether a file is stored under `x`.
pub open spec fn has_file(files: Table, x: u64) -> bool {
    files.contains_key(be64(x))
}

/// Whether a directory is stored under `x`.
pub open spec fn has_dir(dirs: Table, x: u64) -> bool {
    dirs.contains_key(be64(x))
}

/// Whether a file or a directory is stored under `x`.
pub open spec fn has_node(files: Table, dirs: Table, x: u64) -> bool {
    has_file(files, x) || has_dir(dirs, x)
}

/// The children that the stored directory `d` lists.
pub open spec fn kids(dirs: Table, d: u64) -> Seq<u64> {
    id_list_at(dirs[be64(d)], 16)->0
}

/// Whether the stored directory `d` lists `x` as a child.
pub open spec fn lists(dirs: Table, d: u64, x: u64) -> bool {
    kids(dirs, d).contains(x)
}

/// The parent that the record of the stored node `x` names.
pub open spec fn parent_of(files: Table, dirs: Table, x: u64) -> u64 {
    if has_dir(dirs, x) {
        parent_in(dirs[be64(x)])
    } else {
        parent_in(files[be64(x)])
    }
}

/// Whether `x`, if it is stored, hangs in the tree: its parent is a stored
/// directory, or it is a directory without a parent, a root.
pub open spec fn rooted(files: Table, dirs: Table, x: u64) -> bool {
    has_node(files, dirs, x) ==> has_dir(dirs, parent_of(files, dirs, x)) || (has_dir(dirs, x)
        && parent_of(files, dirs, x) == 0)
}

/// What holds of the stored directories at all times, even while a directory
/// is being removed: nothing is stored under 0; nothing is both a file and a
/// directory; every directory has a list of children without repetitions;
/// and a directory lists exactly the stored nodes whose parent it is.
pub open spec fn well_kept(files: Table, dirs: Table) -> bool {
    &&& !has_node(files, dirs, 0)
    &&& forall|x: u64| #[trigger] has_file(files, x) ==> !has_dir(dirs, x)
    &&& forall|d: u64| #[trigger]
        has_dir(dirs, d) ==> id_list_at(dirs[be64(d)], 16) is Some && kids(
            dirs,
            d,
        ).no_duplicates()
    &&& forall|d: u64, x: u64|
        has_dir(dirs, d) && #[trigger] lists(dirs, d, x) ==> has_node(files, dirs, x) && parent_of(
            files,
            dirs,
            x,
        ) == d
    &&& forall|x: u64| #[trigger]
        has_node(files, dirs, x) && has_dir(dirs, parent_of(files, dirs, x)) ==> lists(
            dirs,
            parent_of(files, dirs, x),
            x,
        )
}

/// The files and directories form a tree below the root directories: every
/// directory lists exactly the stored nodes whose parent it is, each of them
/// once, and the parent of every node but a root is a stored directory.
pub open spec fn tree_consistent(s: Seq<Table>) -> bool {
    &&& s.len() == 3
    &&& s[DIRS as int].dom().finite()
    &&& well_kept(s[FILES as int], s[DIRS as int])
    &&& forall|x: u64| #[trigger] rooted(s[FILES as int], s[DIRS as int], x)
}

/// No two identifiers have the same key.
pub proof fn lemma_keys_differ()
    ensures
        forall|a: u64, b: u64| #[trigger] be64(a) == #[trigger] be64(b) ==> a == b,
{
    assert forall|a: u64, b: u64| #[trigger] be64(a) == #[trigger] be64(b) implies a == b by {
        lemma_be64_injective(a, b);
    }
}

/// Adding a child to a directory record changes its list of children and
/// nothing else that the tree depends on.
pub proof fn lemma_pushed_record(b: Seq<u8>, id: u64)
    requires
        id_list_at(b, 16) is Some,
        count_at(b, 16) < MAX_COUNT,
    ensures
        id_list_at(list_push(b, 16, id), 16) == Some((id_list_at(b, 16)->0).push(id)),
        parent_in(list_push(b, 16, id)) == parent_in(b),
{
    lemma_list_push(b, 16, id);
    let out = list_push(b, 16, id);
    assert(out.subrange(0, 8) =~= out.subrange(0, 16).subrange(0, 8));
    assert(b.subrange(0, 8) =~= b.subrange(0, 16).subrange(0, 8));
}

/// Taking a child out of a directory record changes its list of children and
/// nothing else that the tree depends on.
pub proof fn lemma_shortened_record(b: Seq<u8>, i: int)
    requires
        id_list_at(b, 16) is Some,
        0 <= i < count_at(b, 16),
    ensures
        id_list_at(list_remove(b, 16, i), 16) == Some((id_list_at(b, 16)->0).remove(i)),
        parent_in(list_remove(b, 16, i)) == parent_in(b),
{
    lemma_list_remove(b, 16, i);
    let out = list_remove(b, 16, i);
    assert(out.subrange(0, 8) =~= out.subrange(0, 16).subrange(0, 8));
    assert(b.subrange(0, 8) =~= b.subrange(0, 16).subrange(0, 8));
}

/// Inserting keeps the tree a tree: if a node whose record names
/// `parent_id` as its parent, and which has no children if it is a
/// directory, is inserted below `parent_id`, a tree stays a tree.
pub proof fn lemma_insert_keeps_tree(
    s: Seq<Table>,
    table: int,
    id: u64,
    parent_id: u64,
    record: Seq<u8>,
)
    requires
        tree_consistent(s),
        table == FILES || table == DIRS,
        parent_in(record) == parent_id,
        table == DIRS ==> id_list_at(record, 16) == Some(Seq::<u64>::empty()),
        insert_node_step(s, table, id, parent_id, record).reply == Ok::<ReplyView, Error>(
            ReplyView::Done,
        ),
    ensures
        tree_consistent(insert_node_step(s, table, id, parent_id, record).tables),
{
    lemma_keys_differ();
    let files = s[FILES as int];
    let dirs = s[DIRS as int];
    let after = insert_node_step(s, table, id, parent_id, record).tables;
    let files2 = after[FILES as int];
    let dirs2 = after[DIRS as int];
    let old_parent = dirs[be64(parent_id)];
    lemma_pushed_record(old_parent, id);
    assert(has_dir(dirs, parent_id));
    assert(!has_node(files, dirs, id));
    assert(id != parent_id);
    assert(kids(dirs2, parent_id) == kids(dirs, parent_id).push(id));
    assert(parent_of(files2, dirs2, id) == parent_id);
    assert(!lists(dirs, parent_id, id)) by {
        if lists(dirs, parent_id, id) {
            assert(has_node(files, dirs, id));
        }
    }
    assert forall|x: u64| x != id implies has_file(files2, x) == has_file(files, x) && has_dir(
        dirs2,
        x,
    ) == has_dir(dirs, x) && parent_of(files2, dirs2, x) == parent_of(files, dirs, x) by {}
    assert forall|d: u64| d != id && d != parent_id && has_dir(dirs, d) implies kids(dirs2, d)
        == kids(dirs, d) by {}
    assert forall|x: u64| #[trigger] has_file(files2, x) implies !has_dir(dirs2, x) by {
        if x != id {
            assert(has_file(files, x));
        }
    }
    assert forall|d: u64| #[trigger] has_dir(dirs2, d) implies id_list_at(dirs2[be64(d)], 16)
        is Some && kids(dirs2, d).no_duplicates() by {
        if d == parent_id {
            let k = kids(dirs, d);
            assert forall|i: int, j: int| 0 <= i < j < k.push(id).len() implies k.push(id)[i]
                != k.push(id)[j] by {
                if j == k.len() {
                    if k[i] == id {
                        assert(k.contains(id));
                        assert(lists(dirs, parent_id, id));
                    }
                }
            }
        } else if d == id {
        } else {
            assert(has_dir(dirs, d));
        }
    }
    assert forall|d: u64, x: u64| has_dir(dirs2, d) && #[trigger] lists(dirs2, d, x) implies has_node(
        files2,
        dirs2,
        x,
    ) && parent_of(files2, dirs2, x) == d by {
        if d == parent_id {
            let k = kids(dirs, d);
            if x != id {
                let w = choose|w: int| 0 <= w < k.push(id).len() && k.push(id)[w] == x;
                assert(k[w] == x);
                assert(lists(dirs, d, x));
            }
        } else if d == id {
            assert(kids(dirs2, d) =~= Seq::<u64>::empty());
        } else {
            assert(has_dir(dirs, d));
            assert(lists(dirs, d, x));
        }
    }
    assert forall|x: u64| #[trigger]
        has_node(files2, dirs2, x) && has_dir(dirs2, parent_of(files2, dirs2, x)) implies lists(
        dirs2,
        parent_of(files2, dirs2, x),
        x,
    ) by {
        let d = parent_of(files2, dirs2, x);
        if x == id {
            let k = kids(dirs, parent_id);
            assert(k.push(id)[k.len() as int] == id);
        } else {
            assert(has_node(files, dirs, x));
            assert(rooted(files, dirs, x));
            if d == id {
                assert(false);
            } else {
                assert(has_dir(dirs, d));
                assert(lists(dirs, d, x));
                if d == parent_id {
                    let k = kids(dirs, d);
                    let w = choose|w: int| 0 <= w < k.len() && k[w] == x;
                    assert(k.push(id)[w] == x);
                }
            }
        }
    }
    assert forall|x: u64| #[trigger] rooted(files2, dirs2, x) by {
        if x != id {
            assert(rooted(files, dirs, x));
        }
    }
}

/// A store that holds nothing is a tree.
pub proof fn law_empty_store_is_tree()
    ensures
        tree_consistent(seq![Map::empty(), Map::empty(), Map::empty()]),
{
    let s: Seq<Table> = seq![Map::empty(), Map::empty(), Map::empty()];
    assert forall|x: u64| #[trigger] rooted(s[FILES as int], s[DIRS as int], x) by {}
}

/// A new root directory keeps the tree a tree.
pub proof fn lemma_insert_root_keeps_tree(s: Seq<Table>, id: u64, record: Seq<u8>)
    requires
        tree_consistent(s),
        parent_in(record) == 0,
        id_list_at(record, 16) == Some(Seq::<u64>::empty()),
        insert_root_step(s, id, record).reply == Ok::<ReplyView, Error>(ReplyView::Done),
    ensures
        tree_consistent(insert_root_step(s, id, record).tables),
{
    lemma_keys_differ();
    let files = s[FILES as int];
    let dirs = s[DIRS as int];
    let after = insert_root_step(s, id, record).tables;
    let dirs2 = after[DIRS as int];
    assert(after[FILES as int] == files);
    assert(!has_node(files, dirs, id));
    assert forall|x: u64| x != id implies has_dir(dirs2, x) == has_dir(dirs, x) && parent_of(
        files,
        dirs2,
        x,
    ) == parent_of(files, dirs, x) by {}
    assert forall|d: u64| d != id && has_dir(dirs, d) implies kids(dirs2, d) == kids(dirs, d) by {}
    assert forall|x: u64| #[trigger] has_file(files, x) implies !has_dir(dirs2, x) by {}
    assert forall|d: u64| #[trigger] has_dir(dirs2, d) implies id_list_at(dirs2[be64(d)], 16)
        is Some && kids(dirs2, d).no_duplicates() by {
        if d != id {
            assert(has_dir(dirs, d));
        }
    }
    assert forall|d: u64, x: u64| has_dir(dirs2, d) && #[trigger] lists(dirs2, d, x) implies has_node(
        files,
        dirs2,
        x,
    ) && parent_of(files, dirs2, x) == d by {
        if d == id {
            assert(kids(dirs2, d) =~= Seq::<u64>::empty());
        } else {
            assert(has_dir(dirs, d));
            assert(lists(dirs, d, x));
        }
    }
    assert forall|x: u64| #[trigger]
        has_node(files, dirs2, x) && has_dir(dirs2, parent_of(files, dirs2, x)) implies lists(
        dirs2,
        parent_of(files, dirs2, x),
        x,
    ) by {
        let d = parent_of(files, dirs2, x);
        if x != id {
            assert(has_node(files, dirs, x));
            assert(rooted(files, dirs, x));
            assert(has_dir(dirs, d));
            assert(lists(dirs, d, x));
        }
    }
    assert forall|x: u64| #[trigger] rooted(files, dirs2, x) by {
        if x != id {
            assert(rooted(files, dirs, x));
        }
    }
}

/// What is left of a list without repetitions when one item is taken out.
pub proof fn lemma_remove_item(k: Seq<u64>, i: int)
    requires
        k.no_duplicates(),
        0 <= i < k.len(),
    ensures
        k.remove(i).no_duplicates(),
        forall|x: u64| k.remove(i).contains(x) <==> k.contains(x) && x != k[i],
{
    let r = k.remove(i);
    assert forall|a: int, b: int| 0 <= a < b < r.len() implies r[a] != r[b] by {
        let a2 = if a < i { a } else { a + 1 };
        let b2 = if b < i { b } else { b + 1 };
        assert(r[a] == k[a2] && r[b] == k[b2]);
    }
    assert forall|x: u64| r.contains(x) <==> k.contains(x) && x != k[i] by {
        if r.contains(x) {
            let w = choose|w: int| 0 <= w < r.len() && r[w] == x;
            let w2 = if w < i { w } else { w + 1 };
            assert(k[w2] == x);
        }
        if k.contains(x) && x != k[i] {
            let w = choose|w: int| 0 <= w < k.len() && k[w] == x;
            let w2 = if w < i { w } else { w - 1 };
            assert(r[w2] == x);
        }
    }
}

/// The directories after `id` was taken out of the list of its parent.
pub open spec fn unlinked(files: Table, dirs: Table, id: u64) -> Table {
    let p = parent_of(files, dirs, id);
    dirs.insert(
        be64(p),
        list_remove(dirs[be64(p)], 16, first_index(kids(dirs, p), id)),
    )
}

/// While a directory is being removed, the nodes whose parent is gone wait
/// on a stack: every stored node hangs in the tree or waits, and what waits
/// has no stored parent.
pub open spec fn being_swept(files: Table, dirs: Table, stack: Seq<u64>) -> bool {
    &&& well_kept(files, dirs)
    &&& forall|x: u64| #[trigger] rooted(files, dirs, x) || stack.contains(x)
    &&& forall|i: int|
        0 <= i < stack.len() && has_node(files, dirs, #[trigger] stack[i]) ==> !has_dir(
            dirs,
            parent_of(files, dirs, stack[i]),
        )
}

/// What taking a node out of the list of its parent does to the directories.
pub proof fn lemma_unlinked(files: Table, dirs: Table, id: u64)
    requires
        well_kept(files, dirs),
        has_node(files, dirs, id),
        has_dir(dirs, parent_of(files, dirs, id)),
    ensures
        forall|x: u64| has_dir(unlinked(files, dirs, id), x) == has_dir(dirs, x),
        forall|x: u64| #[trigger]
            parent_of(files, unlinked(files, dirs, id), x) == parent_of(files, dirs, x),
        forall|d: u64|
            has_dir(dirs, d) && d != parent_of(files, dirs, id) ==> unlinked(files, dirs, id)[be64(
                d,
            )] == dirs[be64(d)],
        forall|d: u64| #[trigger]
            has_dir(dirs, d) ==> id_list_at(unlinked(files, dirs, id)[be64(d)], 16) is Some
                && kids(unlinked(files, dirs, id), d).no_duplicates(),
        forall|d: u64, x: u64|
            has_dir(dirs, d) ==> (#[trigger] lists(unlinked(files, dirs, id), d, x) <==> lists(
                dirs,
                d,
                x,
            ) && x != id),
{
    lemma_keys_differ();
    let p = parent_of(files, dirs, id);
    let k = kids(dirs, p);
    let i = first_index(k, id);
    let dirs1 = unlinked(files, dirs, id);
    assert(lists(dirs, p, id));
    lemma_first_index(k, id);
    assert(has_dir(dirs, p));
    lemma_shortened_record(dirs[be64(p)], i);
    lemma_remove_item(k, i);
    assert(kids(dirs1, p) == k.remove(i));
    assert forall|x: u64| has_dir(dirs1, x) == has_dir(dirs, x) by {}
    assert forall|x: u64| #[trigger] parent_of(files, dirs1, x) == parent_of(files, dirs, x) by {}
    assert forall|d: u64| #[trigger] has_dir(dirs, d) implies id_list_at(dirs1[be64(d)], 16)
        is Some && kids(dirs1, d).no_duplicates() by {}
    assert forall|d: u64, x: u64| has_dir(dirs, d) implies (#[trigger] lists(dirs1, d, x) <==> lists(
        dirs,
        d,
        x,
    ) && x != id) by {
        if d != p {
            if lists(dirs, d, x) && x == id {
                assert(parent_of(files, dirs, id) == d);
            }
        }
    }
}

/// Removing a file keeps the tree a tree.
pub proof fn law_remove_file_keeps_tree(s: Seq<Table>, id: u64)
    requires
        tree_consistent(s),
        remove_file_step(s, id).reply is Ok,
    ensures
        tree_consistent(remove_file_step(s, id).tables),
        tree_consistent(del(remove_file_step(s, id).tables, PERMS as int, id)),
{
    lemma_keys_differ();
    let files = s[FILES as int];
    let dirs = s[DIRS as int];
    let after = remove_file_step(s, id).tables;
    let files2 = files.remove(be64(id));
    assert(has_file(files, id));
    assert(!has_dir(dirs, id));
    assert(parent_of(files, dirs, id) == parent_in(files[be64(id)]));
    let p = parent_of(files, dirs, id);
    assert(has_dir(dirs, p));
    lemma_unlinked(files, dirs, id);
    let dirs2 = unlinked(files, dirs, id);
    assert(after[DIRS as int] == dirs2);
    assert(after[FILES as int] == files2);
    assert forall|x: u64| x != id implies has_file(files2, x) == has_file(files, x) && parent_of(
        files2,
        dirs2,
        x,
    ) == parent_of(files, dirs, x) by {
        assert(parent_of(files, dirs2, x) == parent_of(files, dirs, x));
    }
    assert forall|x: u64| #[trigger] has_file(files2, x) implies !has_dir(dirs2, x) by {
        assert(has_file(files, x));
    }
    assert forall|d: u64| #[trigger] has_dir(dirs2, d) implies id_list_at(dirs2[be64(d)], 16)
        is Some && kids(dirs2, d).no_duplicates() by {
        assert(has_dir(dirs, d));
    }
    assert forall|d: u64, x: u64| has_dir(dirs2, d) && #[trigger] lists(dirs2, d, x) implies has_node(
        files2,
        dirs2,
        x,
    ) && parent_of(files2, dirs2, x) == d by {
        assert(has_dir(dirs, d));
        assert(lists(dirs, d, x) && x != id);
    }
    assert forall|x: u64| #[trigger]
        has_node(files2, dirs2, x) && has_dir(dirs2, parent_of(files2, dirs2, x)) implies lists(
        dirs2,
        parent_of(files2, dirs2, x),
        x,
    ) by {
        assert(x != id);
        assert(has_node(files, dirs, x));
        assert(lists(dirs, parent_of(files, dirs, x), x));
    }
    assert forall|x: u64| #[trigger] rooted(files2, dirs2, x) by {
        if x != id {
            assert(rooted(files, dirs, x));
        }
    }
}

/// One round of removing on a directory keeps `being_swept`.
proof fn lemma_round_dir(files: Table, dirs: Table, stack: Seq<u64>)
    requires
        being_swept(files, dirs, stack),
        stack.len() > 0,
        has_dir(dirs, stack.last()),
    ensures
        being_swept(
            files,
            dirs.remove(be64(stack.last())),
            stack.drop_last() + kids(dirs, stack.last()),
        ),
{
    lemma_keys_differ();
    let x = stack.last();
    let rest = stack.drop_last();
    let dirs2 = dirs.remove(be64(x));
    let stack2 = rest + kids(dirs, x);
    assert(stack[stack.len() - 1] == x);
    assert(!has_dir(dirs, parent_of(files, dirs, x)));
    assert(!has_file(files, x));
    assert forall|y: u64| y != x implies has_dir(dirs2, y) == has_dir(dirs, y) && parent_of(
        files,
        dirs2,
        y,
    ) == parent_of(files, dirs, y) by {}
    assert forall|d: u64| has_dir(dirs2, d) implies kids(dirs2, d) == kids(dirs, d) by {}
    assert forall|y: u64| #[trigger] has_file(files, y) implies !has_dir(dirs2, y) by {}
    assert forall|d: u64| #[trigger] has_dir(dirs2, d) implies id_list_at(dirs2[be64(d)], 16)
        is Some && kids(dirs2, d).no_duplicates() by {
        assert(has_dir(dirs, d));
    }
    assert forall|d: u64, y: u64| has_dir(dirs2, d) && #[trigger] lists(dirs2, d, y) implies has_node(
        files,
        dirs2,
        y,
    ) && parent_of(files, dirs2, y) == d by {
        assert(has_dir(dirs, d));
        assert(lists(dirs, d, y));
    }
    assert forall|y: u64| #[trigger]
        has_node(files, dirs2, y) && has_dir(dirs2, parent_of(files, dirs2, y)) implies lists(
        dirs2,
        parent_of(files, dirs2, y),
        y,
    ) by {
        assert(has_node(files, dirs, y));
        assert(lists(dirs, parent_of(files, dirs, y), y));
    }
    assert forall|y: u64| #[trigger] rooted(files, dirs2, y) || stack2.contains(y) by {
        if y != x && has_node(files, dirs2, y) {
            if stack.contains(y) {
                let w = choose|w: int| 0 <= w < stack.len() && stack[w] == y;
                assert(stack2[w] == y);
            } else {
                assert(rooted(files, dirs, y));
                if parent_of(files, dirs, y) == x {
                    assert(has_node(files, dirs, y));
                    assert(lists(dirs, x, y));
                    let w = choose|w: int| 0 <= w < kids(dirs, x).len() && kids(dirs, x)[w] == y;
                    assert(stack2[rest.len() + w] == y);
                }
            }
        }
    }
    assert forall|i: int|
        0 <= i < stack2.len() && has_node(files, dirs2, #[trigger] stack2[i]) implies !has_dir(
        dirs2,
        parent_of(files, dirs2, stack2[i]),
    ) by {
        let y = stack2[i];
        if i < rest.len() {
            assert(stack[i] == y);
        } else {
            assert(kids(dirs, x)[i - rest.len()] == y);
            assert(lists(dirs, x, y));
        }
    }
}

/// One round of removing on what is no directory keeps `being_swept`.
proof fn lemma_round_leaf(files: Table, dirs: Table, stack: Seq<u64>)
    requires
        being_swept(files, dirs, stack),
        stack.len() > 0,
        !has_dir(dirs, stack.last()),
    ensures
        being_swept(files.remove(be64(stack.last())), dirs, stack.drop_last()),
{
    lemma_keys_differ();
    let x = stack.last();
    let rest = stack.drop_last();
    let files2 = files.remove(be64(x));
    assert(stack[stack.len() - 1] == x);
    assert forall|y: u64| y != x implies has_file(files2, y) == has_file(files, y) && parent_of(
        files2,
        dirs,
        y,
    ) == parent_of(files, dirs, y) by {}
    assert forall|y: u64| #[trigger] has_file(files2, y) implies !has_dir(dirs, y) by {
        assert(has_file(files, y));
    }
    assert forall|d: u64, y: u64| has_dir(dirs, d) && #[trigger] lists(dirs, d, y) implies has_node(
        files2,
        dirs,
        y,
    ) && parent_of(files2, dirs, y) == d by {
        assert(has_node(files, dirs, y) && parent_of(files, dirs, y) == d);
    }
    assert forall|y: u64| #[trigger]
        has_node(files2, dirs, y) && has_dir(dirs, parent_of(files2, dirs, y)) implies lists(
        dirs,
        parent_of(files2, dirs, y),
        y,
    ) by {
        assert(has_node(files, dirs, y));
        assert(lists(dirs, parent_of(files, dirs, y), y));
    }
    assert forall|y: u64| #[trigger] rooted(files2, dirs, y) || rest.contains(y) by {
        if y != x && has_node(files2, dirs, y) {
            if stack.contains(y) {
                let w = choose|w: int| 0 <= w < stack.len() && stack[w] == y;
                assert(rest[w] == y);
            } else {
                assert(rooted(files, dirs, y));
            }
        }
    }
    assert forall|i: int|
        0 <= i < rest.len() && has_node(files2, dirs, #[trigger] rest[i]) implies !has_dir(
        dirs,
        parent_of(files2, dirs, rest[i]),
    ) by {
        assert(stack[i] == rest[i]);
    }
}

/// Whether every entry of `small` is an entry of `big`.
pub open spec fn within(small: Table, big: Table) -> bool {
    forall|k: Seq<u8>| #[trigger] small.contains_key(k) ==> big.contains_key(k) && small[k] == big[k]
}

/// What removing from a stack leaves behind: a tree, in which nothing is
/// stored that was not stored before, and in which every node that is gone
/// has lost its permission record too.
proof fn lemma_sweep(files: Table, dirs: Table, perms: Table, stack: Seq<u64>)
    requires
        dirs.dom().finite(),
        being_swept(files, dirs, stack),
        sweep(files, dirs, perms, stack) is Some,
    ensures
        ({
            let (files2, dirs2, perms2) = sweep(files, dirs, perms, stack)->0;
            &&& well_kept(files2, dirs2)
            &&& dirs2.dom().finite()
            &&& forall|x: u64| #[trigger] rooted(files2, dirs2, x)
            &&& within(files2, files)
            &&& within(dirs2, dirs)
            &&& within(perms2, perms)
            &&& forall|x: u64|
                has_node(files, dirs, x) && !#[trigger] has_node(files2, dirs2, x)
                    ==> !perms2.contains_key(be64(x))
        }),
    decreases dirs.dom().len(), stack.len(),
{
    lemma_keys_differ();
    if stack.len() == 0 {
        assert(stack =~= Seq::empty());
        lemma_sweep_done(files, dirs, perms);
        assert forall|x: u64| #[trigger] rooted(files, dirs, x) by {
            assert(rooted(files, dirs, x) || stack.contains(x));
        }
    } else {
        let x = stack.last();
        let key = be64(x);
        if has_dir(dirs, x) {
            lemma_sweep_dir(files, dirs, perms, stack);
            lemma_round_dir(files, dirs, stack);
            let dirs1 = dirs.remove(key);
            let perms1 = perms.remove(key);
            let stack1 = stack.drop_last() + kids(dirs, x);
            lemma_sweep(files, dirs1, perms1, stack1);
            let (files2, dirs2, perms2) = sweep(files, dirs1, perms1, stack1)->0;
            assert forall|y: u64|
                has_node(files, dirs, y) && !#[trigger] has_node(files2, dirs2, y)
                    implies !perms2.contains_key(be64(y)) by {
                if y != x {
                    assert(has_node(files, dirs1, y));
                }
            }
        } else {
            lemma_sweep_leaf(files, dirs, perms, stack);
            lemma_round_leaf(files, dirs, stack);
            let files1 = files.remove(key);
            let perms1 = perms.remove(key);
            let stack1 = stack.drop_last();
            lemma_sweep(files1, dirs, perms1, stack1);
            let (files2, dirs2, perms2) = sweep(files1, dirs, perms1, stack1)->0;
            assert forall|y: u64|
                has_node(files, dirs, y) && !#[trigger] has_node(files2, dirs2, y)
                    implies !perms2.contains_key(be64(y)) by {
                if y != x {
                    assert(has_node(files1, dirs, y));
                }
            }
        }
    }
}

/// Removing a directory keeps the tree a tree.
pub proof fn law_remove_dir_keeps_tree(s: Seq<Table>, id: u64)
    requires
        tree_consistent(s),
        remove_dir_step(s, id).reply is Ok,
    ensures
        tree_consistent(remove_dir_step(s, id).tables),
        tree_consistent(del(remove_dir_step(s, id).tables, PERMS as int, id)),
{
    lemma_remove_dir(s, id);
}

/// What removing a directory leaves behind.
proof fn lemma_remove_dir(s: Seq<Table>, id: u64)
    requires
        tree_consistent(s),
        remove_dir_step(s, id).reply is Ok,
    ensures
        ({
            let after = remove_dir_step(s, id).tables;
            &&& tree_consistent(after)
            &&& tree_consistent(del(after, PERMS as int, id))
            &&& del(after, PERMS as int, id)[FILES as int] == after[FILES as int]
            &&& del(after, PERMS as int, id)[DIRS as int] == after[DIRS as int]
            &&& del(after, PERMS as int, id)[PERMS as int] == after[PERMS as int].remove(be64(id))
            &&& has_dir(s[DIRS as int], id)
            &&& !has_dir(after[DIRS as int], id)
            &&& forall|x: u64| #[trigger]
                has_file(after[FILES as int], x) ==> has_file(s[FILES as int], x)
                    && after[FILES as int][be64(x)] == s[FILES as int][be64(x)]
            &&& forall|x: u64| #[trigger]
                has_dir(after[DIRS as int], x) ==> has_dir(s[DIRS as int], x) && parent_in(
                    after[DIRS as int][be64(x)],
                ) == parent_in(s[DIRS as int][be64(x)])
            &&& forall|x: u64|
                x != id && has_node(s[FILES as int], s[DIRS as int], x) && !#[trigger] has_node(
                    after[FILES as int],
                    after[DIRS as int],
                    x,
                ) ==> !after[PERMS as int].contains_key(be64(x))
        }),
{
    lemma_keys_differ();
    let files = s[FILES as int];
    let dirs = s[DIRS as int];
    let perms = s[PERMS as int];
    let record = dirs[be64(id)];
    assert(has_dir(dirs, id));
    assert(parent_of(files, dirs, id) == parent_in(record));
    let p = parent_of(files, dirs, id);
    assert(rooted(files, dirs, id));
    assert(has_dir(dirs, p));
    lemma_unlinked(files, dirs, id);
    let dirs1 = unlinked(files, dirs, id);
    let dirs2 = dirs1.remove(be64(id));
    let stack = kids(dirs, id);
    let s1 = unlink_step(s, p, id)->Ok_0;
    assert(s1[DIRS as int] == dirs1);
    let s2 = del(s1, DIRS as int, id);
    assert(s2[DIRS as int] == dirs2 && s2[FILES as int] == files && s2[PERMS as int] == perms);
    assert(dirs2.dom().finite());
    assert(!has_file(files, id));
    assert forall|x: u64| x != id implies has_dir(dirs2, x) == has_dir(dirs, x) && parent_of(
        files,
        dirs2,
        x,
    ) == parent_of(files, dirs, x) by {
        assert(parent_of(files, dirs1, x) == parent_of(files, dirs, x));
    }
    assert forall|d: u64| has_dir(dirs2, d) implies kids(dirs2, d) == kids(dirs1, d) by {}
    assert(being_swept(files, dirs2, stack)) by {
        assert forall|x: u64| #[trigger] has_file(files, x) implies !has_dir(dirs2, x) by {}
        assert forall|d: u64| #[trigger] has_dir(dirs2, d) implies id_list_at(dirs2[be64(d)], 16)
            is Some && kids(dirs2, d).no_duplicates() by {
            assert(has_dir(dirs, d));
        }
        assert forall|d: u64, x: u64| has_dir(dirs2, d) && #[trigger] lists(dirs2, d, x) implies has_node(
            files,
            dirs2,
            x,
        ) && parent_of(files, dirs2, x) == d by {
            assert(has_dir(dirs, d));
            assert(lists(dirs1, d, x));
            assert(lists(dirs, d, x) && x != id);
        }
        assert forall|x: u64| #[trigger]
            has_node(files, dirs2, x) && has_dir(dirs2, parent_of(files, dirs2, x)) implies lists(
            dirs2,
            parent_of(files, dirs2, x),
            x,
        ) by {
            let d = parent_of(files, dirs, x);
            assert(has_node(files, dirs, x));
            assert(lists(dirs, d, x));
            assert(lists(dirs1, d, x));
        }
        assert forall|x: u64| #[trigger] rooted(files, dirs2, x) || stack.contains(x) by {
            if x != id && has_node(files, dirs2, x) {
                assert(rooted(files, dirs, x));
                if parent_of(files, dirs, x) == id {
                    assert(has_node(files, dirs, x));
                    assert(lists(dirs, id, x));
                }
            }
        }
        assert forall|i: int|
            0 <= i < stack.len() && has_node(files, dirs2, #[trigger] stack[i]) implies !has_dir(
            dirs2,
            parent_of(files, dirs2, stack[i]),
        ) by {
            assert(lists(dirs, id, stack[i]));
        }
    }
    lemma_sweep(files, dirs2, perms, stack);
    let (files3, dirs3, perms3) = sweep(files, dirs2, perms, stack)->0;
    let after = remove_dir_step(s, id).tables;
    assert(after =~= seq![files3, dirs3, perms3]);
    assert forall|x: u64| #[trigger] has_dir(dirs3, x) implies has_dir(dirs, x) && parent_in(
        dirs3[be64(x)],
    ) == parent_in(dirs[be64(x)]) by {
        assert(dirs2.contains_key(be64(x)));
        assert(parent_of(files, dirs2, x) == parent_of(files, dirs, x));
    }
    assert forall|x: u64|
        x != id && has_node(files, dirs, x) && !#[trigger] has_node(files3, dirs3, x)
            implies !perms3.contains_key(be64(x)) by {
        assert(has_node(files, dirs2, x));
    }
}

/// Whether `x` is stored below the directory `id`, at most `n` levels down:
/// its parent is `id`, or is stored below `id` less deep.
pub open spec fn below(s: Seq<Table>, x: u64, id: u64, n: nat) -> bool
    decreases n,
{
    n > 0 && has_node(s[FILES as int], s[DIRS as int], x) && (parent_of(
        s[FILES as int],
        s[DIRS as int],
        x,
    ) == id || below(s, parent_of(s[FILES as int], s[DIRS as int], x), id, (n - 1) as nat))
}

/// In a tree that came from another by removing nodes, the directory `id`
/// among them, nothing is left of what was below `id`.
proof fn lemma_below_gone(s: Seq<Table>, after: Seq<Table>, id: u64, x: u64, n: nat)
    requires
        tree_consistent(s),
        tree_consistent(after),
        has_dir(s[DIRS as int], id),
        !has_dir(after[DIRS as int], id),
        forall|y: u64| #[trigger]
            has_file(after[FILES as int], y) ==> has_file(s[FILES as int], y)
                && after[FILES as int][be64(y)] == s[FILES as int][be64(y)],
        forall|y: u64| #[trigger]
            has_dir(after[DIRS as int], y) ==> has_dir(s[DIRS as int], y) && parent_in(
                after[DIRS as int][be64(y)],
            ) == parent_in(s[DIRS as int][be64(y)]),
        below(s, x, id, n),
    ensures
        !has_node(after[FILES as int], after[DIRS as int], x),
    decreases n,
{
    let files = s[FILES as int];
    let dirs = s[DIRS as int];
    let files2 = after[FILES as int];
    let dirs2 = after[DIRS as int];
    let y = parent_of(files, dirs, x);
    if y != id {
        lemma_below_gone(s, after, id, y, (n - 1) as nat);
        assert(has_node(files, dirs, y));
    }
    assert(!has_dir(dirs2, y));
    assert(y != 0);
    if has_node(files2, dirs2, x) {
        assert(rooted(files2, dirs2, x));
        if has_dir(dirs2, x) {
            assert(has_dir(dirs, x));
            assert(parent_of(files2, dirs2, x) == y);
        } else {
            assert(has_file(files2, x));
            assert(has_file(files, x));
            assert(!has_dir(dirs, x));
            assert(parent_of(files2, dirs2, x) == y);
        }
        assert(false);
    }
}

/// Removing a directory removes all that is below it: after `remove_dir`,
/// neither the directory nor anything that was stored below it, however
/// deep, is stored any more, and the permission records of all of them are
/// gone too.
pub proof fn law_remove_dir_cascades(s: Seq<Table>, id: u64, x: u64, n: nat)
    requires
        tree_consistent(s),
        remove_dir_step(s, id).reply is Ok,
        x == id || below(s, x, id, n),
    ensures
        !node_exists(del(remove_dir_step(s, id).tables, PERMS as int, id), x),
        !del(remove_dir_step(s, id).tables, PERMS as int, id)[PERMS as int].contains_key(be64(x)),
{
    lemma_remove_dir(s, id);
    let after = remove_dir_step(s, id).tables;
    lemma_cascade(s, after, del(after, PERMS as int, id), id, x, n);
}

/// The last step to `law_remove_dir_cascades`.
proof fn lemma_cascade(s: Seq<Table>, after: Seq<Table>, last: Seq<Table>, id: u64, x: u64, n: nat)
    requires
        tree_consistent(s),
        tree_consistent(after),
        last.len() == 3,
        last[FILES as int] == after[FILES as int],
        last[DIRS as int] == after[DIRS as int],
        last[PERMS as int] == after[PERMS as int].remove(be64(id)),
        has_dir(s[DIRS as int], id),
        !has_dir(after[DIRS as int], id),
        forall|y: u64| #[trigger]
            has_file(after[FILES as int], y) ==> has_file(s[FILES as int], y)
                && after[FILES as int][be64(y)] == s[FILES as int][be64(y)],
        forall|y: u64| #[trigger]
            has_dir(after[DIRS as int], y) ==> has_dir(s[DIRS as int], y) && parent_in(
                after[DIRS as int][be64(y)],
            ) == parent_in(s[DIRS as int][be64(y)]),
        forall|y: u64|
            y != id && has_node(s[FILES as int], s[DIRS as int], y) && !#[trigger] has_node(
                after[FILES as int],
                after[DIRS as int],
                y,
            ) ==> !after[PERMS as int].contains_key(be64(y)),
        x == id || below(s, x, id, n),
    ensures
        !node_exists(last, x),
        !last[PERMS as int].contains_key(be64(x)),
{
    if x != id {
        lemma_below_gone(s, after, id, x, n);
        assert(has_node(s[FILES as int], s[DIRS as int], x));
        assert(!has_node(after[FILES as int], after[DIRS as int], x));
    } else {
        if has_file(after[FILES as int], id) {
            assert(has_file(s[FILES as int], id));
        }
    }
}

/// The record of a file names the parent of the file.
pub proof fn lemma_file_record_parent(f: FileView)
    ensures
        parent_in(file_bytes(f)) == f.parent_id,
{
    assert(file_bytes(f).subrange(0, 8) =~= be64(f.parent_id));
    lemma_be64_round_trip(f.parent_id);
}

/// The record of a new directory names its parent and lists no children.
pub proof fn lemma_new_dir_record(parent_id: u64, owner_id: u64, name: Seq<char>)
    ensures
        parent_in(dir_bytes(parent_id, owner_id, Seq::empty(), name)) == parent_id,
        id_list_at(dir_bytes(parent_id, owner_id, Seq::empty(), name), 16) == Some(
            Seq::<u64>::empty(),
        ),
{
    let b = dir_bytes(parent_id, owner_id, Seq::empty(), name);
    assert(b.subrange(0, 8) =~= be64(parent_id));
    lemma_be64_round_trip(parent_id);
    lemma_id_list_round_trip(be64(parent_id) + be64(owner_id), Seq::empty(), encode_utf8(name));
}

/// One change to the tree of files and directories.
pub enum TreeChange {
    /// `insert_new_file`, with the identifier that was drawn.
    NewFile { id: u64, parent_id: u64, owner_id: u64, name: Seq<char>, media_type: Seq<char> },
    /// `insert_new_dir`, with the identifier that was drawn.
    NewDir { id: u64, parent_id: u64, owner_id: u64, name: Seq<char> },
    /// `insert_root_dir`, with the identifier that was drawn.
    NewRootDir { id: u64, owner_id: u64, name: Seq<char> },
    /// `remove_file`.
    RemoveFile { id: u64 },
    /// `remove_dir`.
    RemoveDir { id: u64 },
}

/// What the trees hold after one change. A change that is refused changes
/// nothing.
pub open spec fn after_change(s: Seq<Table>, c: TreeChange) -> Seq<Table> {
    match c {
        TreeChange::NewFile { id, parent_id, owner_id, name, media_type } => insert_file_step(
            s,
            id,
            parent_id,
            owner_id,
            name,
            media_type,
        ).tables,
        TreeChange::NewDir { id, parent_id, owner_id, name } => insert_dir_step(
            s,
            id,
            parent_id,
            owner_id,
            name,
        ).tables,
        TreeChange::NewRootDir { id, owner_id, name } => insert_root_dir_step(
            s,
            id,
            owner_id,
            name,
        ).tables,
        TreeChange::RemoveFile { id } => if remove_file_step(s, id).reply is Ok {
            del(remove_file_step(s, id).tables, PERMS as int, id)
        } else {
            s
        },
        TreeChange::RemoveDir { id } => if remove_dir_step(s, id).reply is Ok {
            del(remove_dir_step(s, id).tables, PERMS as int, id)
        } else {
            s
        },
    }
}

/// What the trees hold after the changes were made one after the other.
pub open spec fn after_changes(s: Seq<Table>, changes: Seq<TreeChange>) -> Seq<Table>
    decreases changes.len(),
{
    if changes.len() == 0 {
        s
    } else {
        after_change(after_changes(s, changes.drop_last()), changes.last())
    }
}

/// One change keeps the tree a tree.
pub proof fn law_change_keeps_tree(s: Seq<Table>, c: TreeChange)
    requires
        tree_consistent(s),
    ensures
        tree_consistent(after_change(s, c)),
{
    match c {
        TreeChange::NewFile { id, parent_id, owner_id, name, media_type } => {
            let f = new_file(id, parent_id, owner_id, name, media_type);
            lemma_file_record_parent(f);
            if insert_file_step(s, id, parent_id, owner_id, name, media_type).reply == Ok::<
                ReplyView,
                Error,
            >(ReplyView::Done) {
                lemma_insert_keeps_tree(s, FILES as int, id, parent_id, file_bytes(f));
            }
        },
        TreeChange::NewDir { id, parent_id, owner_id, name } => {
            lemma_new_dir_record(parent_id, owner_id, name);
            if insert_dir_step(s, id, parent_id, owner_id, name).reply == Ok::<ReplyView, Error>(
                ReplyView::Done,
            ) {
                lemma_insert_keeps_tree(
                    s,
                    DIRS as int,
                    id,
                    parent_id,
                    dir_bytes(parent_id, owner_id, Seq::empty(), name),
                );
            }
        },
        TreeChange::NewRootDir { id, owner_id, name } => {
            lemma_new_dir_record(0, owner_id, name);
            if insert_root_dir_step(s, id, owner_id, name).reply == Ok::<ReplyView, Error>(
                ReplyView::Done,
            ) {
                lemma_insert_root_keeps_tree(s, id, dir_bytes(0, owner_id, Seq::empty(), name));
            }
        },
        TreeChange::RemoveFile { id } => {
            if remove_file_step(s, id).reply is Ok {
                law_remove_file_keeps_tree(s, id);
            }
        },
        TreeChange::RemoveDir { id } => {
            if remove_dir_step(s, id).reply is Ok {
                law_remove_dir_keeps_tree(s, id);
            }
        },
    }
}

/// The tree stays a tree: after any sequence of insertions and removals of
/// files and directories, every directory lists exactly the stored nodes
/// whose parent it is, each of them once.
pub proof fn law_tree_stays_consistent(s: Seq<Table>, changes: Seq<TreeChange>)
    requires
        tree_consistent(s),
    ensures
        tree_consistent(after_changes(s, changes)),
    decreases changes.len(),
{
    if changes.len() > 0 {
        law_tree_stays_consistent(s, changes.drop_last());
        law_change_keeps_tree(after_changes(s, changes.drop_last()), changes.last());
    }
}

} // verus!
