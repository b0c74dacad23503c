//! The tree of files and directories, as the rest of the program sees it.

use vstd::prelude::*;
use vstd::utf8::*;
use vstd::string::*;
use crate::bytes::{be64, id_key};
use crate::codec::{decode_file, dir_bytes, dir_of_entries, encode_dir, encode_file,
    encode_permissions, entry_to_dir_incomplete, file_bytes, file_of_entries, file_storable,
    id_list_at, is_perm_record, MAX_COUNT, parse_dir, parse_file, parse_id_list_at,
    parse_read_group_ids, parse_write_group_ids, perm_bytes, read_groups_of, write_groups_of};
use crate::error::{answers, Error};
use crate::fs_ops::{add_group_step, del, DIRS, FILES, insert_node_step, insert_refusal,
    insert_root_step, node_exists, parent_in, PERMS, remove_dir_step, remove_file_step,
    update_dir_step, update_file_step};
use crate::ids::{MAX_TRIES, random_u64};
use crate::laws::{below, law_change_keeps_tree, law_remove_dir_cascades, law_remove_dir_keeps_tree,
    law_remove_file_keeps_tree, tree_consistent, TreeChange};
use crate::models::{Dir, DirView, File, FileView};
use crate::ops::{done, Op, Reply, ReplyView, Step};
use crate::store::{lookup, names_differ, open_tree, Table, transact, tree_get, trees_names,
    trees_state};

verus! {

/// The file stored under `id`, if there is one: it takes a file record and a
/// permission record. Records that cannot be read are an error.
#[verifier::opaque]
pub open spec fn file_at(s: Seq<Table>, id: u64) -> Result<Option<FileView>, Error> {
    let record = lookup(s[FILES as int], be64(id));
    let perms = lookup(s[PERMS as int], be64(id));
    if record is None || perms is None {
        Ok(None)
    } else if file_of_entries(id, record->0, perms->0) is None {
        Err(Error::EncodingError)
    } else {
        Ok(file_of_entries(id, record->0, perms->0))
    }
}

/// The directory stored under `id`, if there is one: it takes a directory
/// record and a permission record. Records that cannot be read are an error.
#[verifier::opaque]
pub open spec fn dir_at(s: Seq<Table>, id: u64) -> Result<Option<DirView>, Error> {
    let record = lookup(s[DIRS as int], be64(id));
    let perms = lookup(s[PERMS as int], be64(id));
    if record is None || perms is None {
        Ok(None)
    } else if dir_of_entries(id, record->0, perms->0) is None {
        Err(Error::EncodingError)
    } else {
        Ok(dir_of_entries(id, record->0, perms->0))
    }
}

/// The identifiers that the directory `dir_id` lists as its children.
pub open spec fn children_at(s: Seq<Table>, dir_id: u64) -> Result<Seq<u64>, Error> {
    let record = lookup(s[DIRS as int], be64(dir_id));
    if record is None {
        Err(Error::EntryNotFound)
    } else if id_list_at(record->0, 16) is None {
        Err(Error::EncodingError)
    } else {
        Ok(id_list_at(record->0, 16)->0)
    }
}

/// The files among `ids`, in order; an identifier under which no file is
/// stored is passed over. The first record that cannot be read is an error.
pub open spec fn files_among(s: Seq<Table>, ids: Seq<u64>) -> Result<Seq<FileView>, Error>
    decreases ids.len(),
{
    if ids.len() == 0 {
        Ok(Seq::empty())
    } else {
        match files_among(s, ids.drop_last()) {
            Err(e) => Err(e),
            Ok(found) => match file_at(s, ids.last()) {
                Err(e) => Err(e),
                Ok(None) => Ok(found),
                Ok(Some(f)) => Ok(found.push(f)),
            },
        }
    }
}

/// The directories among `ids`, in order; an identifier under which no
/// directory is stored is passed over. The first record that cannot be read
/// is an error.
pub open spec fn dirs_among(s: Seq<Table>, ids: Seq<u64>) -> Result<Seq<DirView>, Error>
    decreases ids.len(),
{
    if ids.len() == 0 {
        Ok(Seq::empty())
    } else {
        match dirs_among(s, ids.drop_last()) {
            Err(e) => Err(e),
            Ok(found) => match dir_at(s, ids.last()) {
                Err(e) => Err(e),
                Ok(None) => Ok(found),
                Ok(Some(d)) => Ok(found.push(d)),
            },
        }
    }
}

/// The files that the directory `parent_id` lists as its children.
pub open spec fn files_by_parent(s: Seq<Table>, parent_id: u64) -> Result<Seq<FileView>, Error> {
    match children_at(s, parent_id) {
        Err(e) => Err(e),
        Ok(ids) => files_among(s, ids),
    }
}

/// The directories that the directory `parent_id` lists as its children.
pub open spec fn dirs_by_parent(s: Seq<Table>, parent_id: u64) -> Result<Seq<DirView>, Error> {
    match children_at(s, parent_id) {
        Err(e) => Err(e),
        Ok(ids) => dirs_among(s, ids),
    }
}

/// A new file as it is first stored: nobody but the owner may read or write
/// it.
pub open spec fn new_file(
    id: u64,
    parent_id: u64,
    owner_id: u64,
    name: Seq<char>,
    media_type: Seq<char>,
) -> FileView {
    FileView {
        id,
        parent_id,
        owner_id,
        read_group_ids: Seq::empty(),
        write_group_ids: Seq::empty(),
        name,
        media_type,
    }
}

/// A new directory as it is first stored: empty, and nobody but the owner
/// may read or write it.
pub open spec fn new_dir(id: u64, parent_id: u64, owner_id: u64, name: Seq<char>) -> DirView {
    DirView {
        id,
        parent_id,
        owner_id,
        read_group_ids: Seq::empty(),
        write_group_ids: Seq::empty(),
        child_ids: Seq::empty(),
        name,
    }
}

/// What storing a new file under `id` does.
pub open spec fn insert_file_step(
    s: Seq<Table>,
    id: u64,
    parent_id: u64,
    owner_id: u64,
    name: Seq<char>,
    media_type: Seq<char>,
) -> Step {
    insert_node_step(
        s,
        FILES as int,
        id,
        parent_id,
        file_bytes(new_file(id, parent_id, owner_id, name, media_type)),
    )
}

/// What storing a new directory under `id` does.
pub open spec fn insert_dir_step(
    s: Seq<Table>,
    id: u64,
    parent_id: u64,
    owner_id: u64,
    name: Seq<char>,
) -> Step {
    insert_node_step(
        s,
        DIRS as int,
        id,
        parent_id,
        dir_bytes(parent_id, owner_id, Seq::empty(), name),
    )
}

/// What storing a new root directory under `id` does.
pub open spec fn insert_root_dir_step(s: Seq<Table>, id: u64, owner_id: u64, name: Seq<char>) ->
    Step {
    insert_root_step(s, id, dir_bytes(0, owner_id, Seq::empty(), name))
}

/// Whether a file can be stored as it is: its strings and lists are short
/// enough.
pub open spec fn file_fits(f: FileView) -> bool {
    file_storable(f) && f.read_group_ids.len() <= MAX_COUNT && f.write_group_ids.len()
        <= MAX_COUNT
}

/// Whether the lists of groups of a directory are short enough to be stored.
pub open spec fn dir_fits(d: DirView) -> bool {
    d.read_group_ids.len() <= MAX_COUNT && d.write_group_ids.len() <= MAX_COUNT
}

/// What replacing the stored file `f.id` by `f` does.
pub open spec fn store_file_step(s: Seq<Table>, f: FileView) -> Step {
    update_file_step(s, f.id, file_bytes(f), perm_bytes(f.read_group_ids, f.write_group_ids))
}

/// What replacing parent, owner, name and permissions of the stored
/// directory `d.id` by those of `d` does.
pub open spec fn store_dir_step(s: Seq<Table>, d: DirView) -> Step {
    update_dir_step(
        s,
        d.id,
        d.parent_id,
        d.owner_id,
        encode_utf8(d.name),
        perm_bytes(d.read_group_ids, d.write_group_ids),
    )
}

/// The groups that the permission record under `id` lets read and write, as
/// far as there is such a record and it can be read; else none.
pub open spec fn groups_or_none(s: Seq<Table>, id: u64) -> (Seq<u64>, Seq<u64>) {
    let perms = lookup(s[PERMS as int], be64(id));
    if perms is Some && is_perm_record(perms->0) {
        (read_groups_of(perms->0)->0, write_groups_of(perms->0)->0)
    } else {
        (Seq::empty(), Seq::empty())
    }
}

/// The stored file `id` as `remove_file` hands it back.
pub open spec fn removed_file(s: Seq<Table>, id: u64) -> FileView {
    FileView {
        read_group_ids: groups_or_none(s, id).0,
        write_group_ids: groups_or_none(s, id).1,
        ..parse_file(id, s[FILES as int][be64(id)])->0
    }
}

/// The stored directory `id` as `remove_dir` hands it back.
pub open spec fn removed_dir(s: Seq<Table>, id: u64) -> DirView {
    DirView {
        read_group_ids: groups_or_none(s, id).0,
        write_group_ids: groups_or_none(s, id).1,
        ..parse_dir(id, s[DIRS as int][be64(id)])->0
    }
}

/// Whether `id` is a root directory: a directory is stored under it whose
/// record names no parent.
pub open spec fn is_root(s: Seq<Table>, id: u64) -> bool {
    &&& s[DIRS as int].contains_key(be64(id))
    &&& s[DIRS as int][be64(id)].len() >= 8
    &&& parent_in(s[DIRS as int][be64(id)]) == 0
}

/// Whether nothing is left of the node `x`: no file or directory is stored
/// under it, none is found, and it has no permission record.
pub open spec fn gone(s: Seq<Table>, x: u64) -> bool {
    &&& !node_exists(s, x)
    &&& !s[PERMS as int].contains_key(be64(x))
    &&& file_at(s, x) == Ok::<Option<FileView>, Error>(None)
    &&& dir_at(s, x) == Ok::<Option<DirView>, Error>(None)
}

/// Whether a tree stayed a tree through a call that answered `r`: where the
/// files and directories were a tree before, they are one after, unless the
/// store itself failed.
pub open spec fn tree_kept<T>(before: Seq<Table>, after: Seq<Table>, r: Result<T, Error>) -> bool {
    tree_consistent(before) && (r is Ok || !r->Err_0.is_store_failure()) ==> tree_consistent(after)
}

/// Where nothing is stored for a node, nothing is found.
pub proof fn lemma_gone(s: Seq<Table>, x: u64)
    requires
        !node_exists(s, x),
        !s[PERMS as int].contains_key(be64(x)),
    ensures
        gone(s, x),
{
    reveal(file_at);
    reveal(dir_at);
}

/// The three trees that hold the files, the directories and their
/// permissions.
pub struct FsDatabase {
    trees: Vec<sled::Tree>,
}

impl View for FsDatabase {
    type V = Seq<Table>;

    /// What the three trees hold: file records, directory records,
    /// permission records.
    closed spec fn view(&self) -> Seq<Table> {
        trees_state(self.trees@)
    }
}

impl FsDatabase {
    /// The database has its three trees, and they are three different trees.
    pub closed spec fn wf(&self) -> bool {
        self.trees@.len() == 3 && names_differ(self.trees@)
    }

    /// A database holds three tables: file records, directory records and
    /// permission records.
    pub proof fn lemma_three_tables(&self)
        requires
            self.wf(),
        ensures
            self@.len() == 3,
    {
    }

    /// Opens the three trees in `sled_db`. As long as the database is in
    /// use, nothing else may open or write these trees.
    pub fn init(sled_db: &sled::Db) -> (r: Result<FsDatabase, Error>)
        ensures
            match r {
                Ok(db) => db.wf(),
                Err(e) => e is DbError,
            },
    {
        let mut trees: Vec<sled::Tree> = Vec::new();
        trees.push(open_tree(sled_db, "files")?);
        trees.push(open_tree(sled_db, "dirs")?);
        trees.push(open_tree(sled_db, "fs_node_permissions")?);
        proof {
            reveal_strlit("files");
            reveal_strlit("dirs");
            reveal_strlit("fs_node_permissions");
            let names = trees_names(trees@);
            assert(names[0] == "files"@ && names[1] == "dirs"@ && names[2]
                == "fs_node_permissions"@);
            assert(names[0].len() == 5 && names[1].len() == 4 && names[2].len() == 19);
        }
        Ok(FsDatabase { trees })
    }

    /// The file with the given id, or `None` if there is none.
    pub fn get_file(&self, id: u64) -> (r: Result<Option<File>, Error>)
        requires
            self.wf(),
        ensures
            answers(r, file_at(self@, id)),
            r matches Ok(Some(f)) ==> f.id == id,
    {
        reveal(file_at);
        let key = id_key(id);
        let record = match tree_get(&self.trees[FILES], key.as_slice())? {
            Some(b) => b,
            None => {
                return Ok(None);
            },
        };
        let perms = match tree_get(&self.trees[PERMS], key.as_slice())? {
            Some(b) => b,
            None => {
                return Ok(None);
            },
        };
        let mut file = decode_file(id, record.as_slice())?;
        file.read_group_ids = parse_read_group_ids(perms.as_slice())?;
        file.write_group_ids = parse_write_group_ids(perms.as_slice())?;
        Ok(Some(file))
    }

    /// The directory with the given id, or `None` if there is none.
    pub fn get_dir(&self, id: u64) -> (r: Result<Option<Dir>, Error>)
        requires
            self.wf(),
        ensures
            answers(r, dir_at(self@, id)),
            r matches Ok(Some(d)) ==> d.id == id,
    {
        reveal(dir_at);
        let key = id_key(id);
        let record = match tree_get(&self.trees[DIRS], key.as_slice())? {
            Some(b) => b,
            None => {
                return Ok(None);
            },
        };
        let perms = match tree_get(&self.trees[PERMS], key.as_slice())? {
            Some(b) => b,
            None => {
                return Ok(None);
            },
        };
        let mut dir = entry_to_dir_incomplete(id, record.as_slice())?;
        dir.read_group_ids = parse_read_group_ids(perms.as_slice())?;
        dir.write_group_ids = parse_write_group_ids(perms.as_slice())?;
        Ok(Some(dir))
    }

    /// The identifiers of the children of the given directory.
    fn get_dirs_childs(&self, dir_id: u64) -> (r: Result<Vec<u64>, Error>)
        requires
            self.wf(),
        ensures
            answers(r, children_at(self@, dir_id)),
    {
        let key = id_key(dir_id);
        match tree_get(&self.trees[DIRS], key.as_slice())? {
            Some(record) => {
                let ids = parse_id_list_at(record.as_slice(), 16)?;
                assert(ids.deep_view() =~= ids@);
                Ok(ids)
            },
            None => Err(Error::EntryNotFound),
        }
    }

    /// The files that are children of the given directory.
    pub fn get_files_by_parent(&self, parent_id: u64) -> (r: Result<Vec<File>, Error>)
        requires
            self.wf(),
        ensures
            answers(r, files_by_parent(self@, parent_id)),
    {
        let child_ids = self.get_dirs_childs(parent_id)?;
        assert(child_ids.deep_view() =~= child_ids@);
        let mut found: Vec<File> = Vec::new();
        let mut i: usize = 0;
        assert(found.deep_view() =~= Seq::<FileView>::empty());
        assert(child_ids@.take(0) =~= Seq::<u64>::empty());
        while i < child_ids.len()
            invariant
                self.wf(),
                i <= child_ids@.len(),
                children_at(self@, parent_id) == Ok::<Seq<u64>, Error>(child_ids@),
                files_among(self@, child_ids@.take(i as int)) == Ok::<Seq<FileView>, Error>(
                    found.deep_view(),
                ),
            decreases child_ids@.len() - i,
        {
            proof {
                lemma_files_among_step(self@, child_ids@, i as int);
            }
            let ghost before = found.deep_view();
            match self.get_file(child_ids[i]) {
                Ok(Some(node)) => {
                    found.push(node);
                    assert(found.deep_view() =~= before.push(node.deep_view()));
                },
                Ok(None) => {},
                Err(e) => {
                    proof {
                        if !e.is_store_failure() {
                            lemma_files_among_fails(self@, child_ids@, i + 1);
                        }
                    }
                    return Err(e);
                },
            }
            i += 1;
        }
        assert(child_ids@.take(i as int) =~= child_ids@);
        Ok(found)
    }

    /// The directories that are children of the given directory.
    pub fn get_dirs_by_parent(&self, parent_id: u64) -> (r: Result<Vec<Dir>, Error>)
        requires
            self.wf(),
        ensures
            answers(r, dirs_by_parent(self@, parent_id)),
    {
        let child_ids = self.get_dirs_childs(parent_id)?;
        assert(child_ids.deep_view() =~= child_ids@);
        let mut found: Vec<Dir> = Vec::new();
        let mut i: usize = 0;
        assert(found.deep_view() =~= Seq::<DirView>::empty());
        assert(child_ids@.take(0) =~= Seq::<u64>::empty());
        while i < child_ids.len()
            invariant
                self.wf(),
                i <= child_ids@.len(),
                children_at(self@, parent_id) == Ok::<Seq<u64>, Error>(child_ids@),
                dirs_among(self@, child_ids@.take(i as int)) == Ok::<Seq<DirView>, Error>(
                    found.deep_view(),
                ),
            decreases child_ids@.len() - i,
        {
            proof {
                lemma_dirs_among_step(self@, child_ids@, i as int);
            }
            let ghost before = found.deep_view();
            match self.get_dir(child_ids[i]) {
                Ok(Some(node)) => {
                    found.push(node);
                    assert(found.deep_view() =~= before.push(node.deep_view()));
                },
                Ok(None) => {},
                Err(e) => {
                    proof {
                        if !e.is_store_failure() {
                            lemma_dirs_among_fails(self@, child_ids@, i + 1);
                        }
                    }
                    return Err(e);
                },
            }
            i += 1;
        }
        assert(child_ids@.take(i as int) =~= child_ids@);
        Ok(found)
    }

    /// Runs one operation that answers `Done` or `IdTaken`.
    fn run(&mut self, op: &Op) -> (r: Result<bool, Error>)
        requires
            old(self).wf(),
            op.tables() == 3,
            crate::ops::step(*op, old(self)@).reply is Ok ==> (crate::ops::step(
                *op,
                old(self)@,
            ).reply->Ok_0 is Done || crate::ops::step(*op, old(self)@).reply->Ok_0 is IdTaken),
        ensures
            final(self).wf(),
            match r {
                Ok(made) => crate::ops::step(*op, old(self)@) == (Step {
                    reply: Ok(
                        if made {
                            ReplyView::Done
                        } else {
                            ReplyView::IdTaken
                        },
                    ),
                    tables: final(self)@,
                }),
                Err(e) => e.is_store_failure() || (crate::ops::step(*op, old(self)@).reply == Err::<
                    ReplyView,
                    Error,
                >(e) && final(self)@ == old(self)@),
            },
    {
        match transact(&mut self.trees, op) {
            Ok(Reply::Done) => Ok(true),
            Ok(Reply::IdTaken) => Ok(false),
            Ok(_) => {
                proof {
                    assert(false);
                }
                Err(Error::InconsistentDbState)
            },
            Err(e) => Err(e),
        }
    }

    /// Runs one operation that answers with a record or with `Nothing`.
    fn take(&mut self, op: &Op) -> (r: Result<Option<Vec<u8>>, Error>)
        requires
            old(self).wf(),
            op.tables() == 3,
            crate::ops::step(*op, old(self)@).reply is Ok ==> (crate::ops::step(
                *op,
                old(self)@,
            ).reply->Ok_0 is Record || crate::ops::step(*op, old(self)@).reply->Ok_0 is Nothing),
        ensures
            final(self).wf(),
            match r {
                Ok(Some(record)) => crate::ops::step(*op, old(self)@) == (Step {
                    reply: Ok(ReplyView::Record(record@)),
                    tables: final(self)@,
                }),
                Ok(None) => crate::ops::step(*op, old(self)@) == (Step {
                    reply: Ok(ReplyView::Nothing),
                    tables: final(self)@,
                }),
                Err(e) => e.is_store_failure() || (crate::ops::step(*op, old(self)@).reply == Err::<
                    ReplyView,
                    Error,
                >(e) && final(self)@ == old(self)@),
            },
    {
        match transact(&mut self.trees, op) {
            Ok(Reply::Record(record)) => Ok(Some(record)),
            Ok(Reply::Nothing) => Ok(None),
            Ok(_) => {
                proof {
                    assert(false);
                }
                Err(Error::InconsistentDbState)
            },
            Err(e) => Err(e),
        }
    }

    /// Stores a new file under the proposed identifier `id`, as a child of
    /// `parent_id`. `Ok(None)` says that `id` is zero or in use, and that
    /// nothing was stored.
    pub fn insert_file_with_id(
        &mut self,
        id: u64,
        parent_id: u64,
        owner_id: u64,
        name: &str,
        media_type: &str,
    ) -> (r: Result<Option<File>, Error>)
        requires
            old(self).wf(),
        ensures
            final(self).wf(),
            id == 0 ==> r matches Ok(None),
            tree_kept(old(self)@, final(self)@, r),
            match r {
                Ok(Some(f)) => {
                    &&& f@ == new_file(id, parent_id, owner_id, name@, media_type@)
                    &&& file_storable(f@)
                    &&& insert_file_step(old(self)@, id, parent_id, owner_id, name@, media_type@)
                        == done(ReplyView::Done, final(self)@)
                    &&& file_at(final(self)@, id) == Ok::<Option<FileView>, Error>(Some(f@))
                },
                Ok(None) => (id == 0 || node_exists(old(self)@, id)) && final(self)@ == old(self)@,
                Err(e) => e.is_store_failure() || (final(self)@ == old(self)@ && !(id == 0
                    || node_exists(old(self)@, id)) && if !file_storable(
                    new_file(id, parent_id, owner_id, name@, media_type@),
                ) {
                    e is BadCall
                } else {
                    insert_refusal(old(self)@, parent_id) == Some(e)
                }),
            },
    {
        let key = id_key(id);
        if id == 0 {
            return Ok(None);
        }
        if tree_get(&self.trees[FILES], key.as_slice())?.is_some() {
            return Ok(None);
        }
        if tree_get(&self.trees[DIRS], key.as_slice())?.is_some() {
            return Ok(None);
        }
        let record = encode_file(parent_id, owner_id, name, media_type)?;
        let op = Op::InsertFile { id, parent_id, record };
        if self.run(&op)? {
            proof {
                if tree_consistent(old(self)@) {
                    law_change_keeps_tree(
                        old(self)@,
                        TreeChange::NewFile {
                            id,
                            parent_id,
                            owner_id,
                            name: name@,
                            media_type: media_type@,
                        },
                    );
                }
                crate::found::law_inserted_file_is_found(
                    old(self)@,
                    self@,
                    id,
                    parent_id,
                    owner_id,
                    name@,
                    media_type@,
                );
            }
            Ok(
                Some(
                    File {
                        id,
                        parent_id,
                        owner_id,
                        read_group_ids: Vec::new(),
                        write_group_ids: Vec::new(),
                        name: name.to_owned(),
                        media_type: media_type.to_owned(),
                    },
                ),
            )
        } else {
            Ok(None)
        }
    }

    /// Stores a new directory under the proposed identifier `id`, as a child
    /// of `parent_id`. `Ok(None)` says that `id` is zero or in use, and that
    /// nothing was stored.
    pub fn insert_dir_with_id(&mut self, id: u64, parent_id: u64, owner_id: u64, name: &str) -> (r:
        Result<Option<Dir>, Error>)
        requires
            old(self).wf(),
        ensures
            final(self).wf(),
            id == 0 ==> r matches Ok(None),
            tree_kept(old(self)@, final(self)@, r),
            match r {
                Ok(Some(d)) => {
                    &&& d@ == new_dir(id, parent_id, owner_id, name@)
                    &&& insert_dir_step(old(self)@, id, parent_id, owner_id, name@) == done(
                        ReplyView::Done,
                        final(self)@,
                    )
                    &&& dir_at(final(self)@, id) == Ok::<Option<DirView>, Error>(Some(d@))
                },
                Ok(None) => (id == 0 || node_exists(old(self)@, id)) && final(self)@ == old(self)@,
                Err(e) => e.is_store_failure() || (final(self)@ == old(self)@ && !(id == 0
                    || node_exists(old(self)@, id)) && insert_refusal(old(self)@, parent_id)
                    == Some(e)),
            },
    {
        let key = id_key(id);
        if id == 0 {
            return Ok(None);
        }
        if tree_get(&self.trees[FILES], key.as_slice())?.is_some() {
            return Ok(None);
        }
        if tree_get(&self.trees[DIRS], key.as_slice())?.is_some() {
            return Ok(None);
        }
        let none: Vec<u64> = Vec::new();
        let record = encode_dir(parent_id, owner_id, none.as_slice(), name)?;
        let op = Op::InsertDir { id, parent_id, record };
        if self.run(&op)? {
            proof {
                if tree_consistent(old(self)@) {
                    law_change_keeps_tree(
                        old(self)@,
                        TreeChange::NewDir { id, parent_id, owner_id, name: name@ },
                    );
                }
                crate::found::law_inserted_dir_is_found(
                    old(self)@,
                    self@,
                    id,
                    parent_id,
                    owner_id,
                    name@,
                );
            }
            Ok(
                Some(
                    Dir {
                        id,
                        parent_id,
                        owner_id,
                        read_group_ids: Vec::new(),
                        write_group_ids: Vec::new(),
                        child_ids: Vec::new(),
                        name: name.to_owned(),
                    },
                ),
            )
        } else {
            Ok(None)
        }
    }

    /// Stores a new root directory under the proposed identifier `id`.
    /// `Ok(None)` says that `id` is zero or in use, and that nothing was
    /// stored.
    pub fn insert_root_dir_with_id(&mut self, id: u64, owner_id: u64, name: &str) -> (r: Result<
        Option<Dir>,
        Error,
    >)
        requires
            old(self).wf(),
        ensures
            final(self).wf(),
            id == 0 ==> r matches Ok(None),
            tree_kept(old(self)@, final(self)@, r),
            match r {
                Ok(Some(d)) => {
                    &&& d@ == new_dir(id, 0, owner_id, name@)
                    &&& insert_root_dir_step(old(self)@, id, owner_id, name@) == done(
                        ReplyView::Done,
                        final(self)@,
                    )
                    &&& dir_at(final(self)@, id) == Ok::<Option<DirView>, Error>(Some(d@))
                },
                Ok(None) => (id == 0 || node_exists(old(self)@, id)) && final(self)@ == old(self)@,
                Err(e) => e.is_store_failure(),
            },
    {
        if id == 0 {
            return Ok(None);
        }
        let none: Vec<u64> = Vec::new();
        let record = match encode_dir(0, owner_id, none.as_slice(), name) {
            Ok(b) => b,
            Err(_) => {
                proof {
                    assert(false);
                }
                return Ok(None);
            },
        };
        let op = Op::InsertRootDir { id, record };
        if self.run(&op)? {
            proof {
                if tree_consistent(old(self)@) {
                    law_change_keeps_tree(
                        old(self)@,
                        TreeChange::NewRootDir { id, owner_id, name: name@ },
                    );
                }
                crate::found::law_inserted_root_is_found(old(self)@, self@, id, owner_id, name@);
            }
            Ok(
                Some(
                    Dir {
                        id,
                        parent_id: 0,
                        owner_id,
                        read_group_ids: Vec::new(),
                        write_group_ids: Vec::new(),
                        child_ids: Vec::new(),
                        name: name.to_owned(),
                    },
                ),
            )
        } else {
            Ok(None)
        }
    }

    /// Stores a new file as a child of `parent_id`, under a fresh random
    /// identifier, and returns it.
    pub fn insert_new_file(&mut self, parent_id: u64, owner_id: u64, name: &str, media_type: &str) -> (r:
        Result<File, Error>)
        requires
            old(self).wf(),
        ensures
            final(self).wf(),
            tree_kept(old(self)@, final(self)@, r),
            match r {
                Ok(f) => {
                    &&& f.id != 0 && !node_exists(old(self)@, f.id)
                    &&& f@ == new_file(f.id, parent_id, owner_id, name@, media_type@)
                    &&& insert_file_step(
                        old(self)@,
                        f.id,
                        parent_id,
                        owner_id,
                        name@,
                        media_type@,
                    ) == done(ReplyView::Done, final(self)@)
                    &&& file_at(final(self)@, f.id) == Ok::<Option<FileView>, Error>(Some(f@))
                },
                Err(e) => e.is_store_failure() || (final(self)@ == old(self)@ && (e
                    is InconsistentDbState || if !file_storable(
                    new_file(0, parent_id, owner_id, name@, media_type@),
                ) {
                    e is BadCall
                } else {
                    insert_refusal(old(self)@, parent_id) == Some(e)
                })),
            },
    {
        let mut tries: usize = 0;
        while tries < MAX_TRIES
            invariant
                self.wf(),
                self@ == old(self)@,
            decreases MAX_TRIES - tries,
        {
            let id = random_u64();
            match self.insert_file_with_id(id, parent_id, owner_id, name, media_type) {
                Ok(Some(f)) => {
                    return Ok(f);
                },
                Ok(None) => {},
                Err(e) => {
                    return Err(e);
                },
            }
            tries += 1;
        }
        Err(Error::InconsistentDbState)
    }

    /// Stores a new, empty directory as a child of `parent_id`, under a
    /// fresh random identifier, and returns it.
    pub fn insert_new_dir(&mut self, parent_id: u64, owner_id: u64, name: &str) -> (r: Result<
        Dir,
        Error,
    >)
        requires
            old(self).wf(),
        ensures
            final(self).wf(),
            tree_kept(old(self)@, final(self)@, r),
            match r {
                Ok(d) => {
                    &&& d.id != 0 && !node_exists(old(self)@, d.id)
                    &&& d@ == new_dir(d.id, parent_id, owner_id, name@)
                    &&& insert_dir_step(old(self)@, d.id, parent_id, owner_id, name@) == done(
                        ReplyView::Done,
                        final(self)@,
                    )
                    &&& dir_at(final(self)@, d.id) == Ok::<Option<DirView>, Error>(Some(d@))
                },
                Err(e) => e.is_store_failure() || (final(self)@ == old(self)@ && (e
                    is InconsistentDbState || insert_refusal(old(self)@, parent_id) == Some(e))),
            },
    {
        let mut tries: usize = 0;
        while tries < MAX_TRIES
            invariant
                self.wf(),
                self@ == old(self)@,
            decreases MAX_TRIES - tries,
        {
            let id = random_u64();
            match self.insert_dir_with_id(id, parent_id, owner_id, name) {
                Ok(Some(d)) => {
                    return Ok(d);
                },
                Ok(None) => {},
                Err(e) => {
                    return Err(e);
                },
            }
            tries += 1;
        }
        Err(Error::InconsistentDbState)
    }

    /// Stores a new, empty root directory for `owner_id`, under a fresh
    /// random identifier, and returns it.
    pub fn insert_root_dir(&mut self, owner_id: u64, name: &str) -> (r: Result<Dir, Error>)
        requires
            old(self).wf(),
        ensures
            final(self).wf(),
            tree_kept(old(self)@, final(self)@, r),
            match r {
                Ok(d) => {
                    &&& d.id != 0 && !node_exists(old(self)@, d.id)
                    &&& d@ == new_dir(d.id, 0, owner_id, name@)
                    &&& insert_root_dir_step(old(self)@, d.id, owner_id, name@) == done(
                        ReplyView::Done,
                        final(self)@,
                    )
                    &&& dir_at(final(self)@, d.id) == Ok::<Option<DirView>, Error>(Some(d@))
                },
                Err(e) => e.is_store_failure() || (final(self)@ == old(self)@ && e
                    is InconsistentDbState),
            },
    {
        let mut tries: usize = 0;
        while tries < MAX_TRIES
            invariant
                self.wf(),
                self@ == old(self)@,
            decreases MAX_TRIES - tries,
        {
            let id = random_u64();
            match self.insert_root_dir_with_id(id, owner_id, name) {
                Ok(Some(d)) => {
                    return Ok(d);
                },
                Ok(None) => {},
                Err(e) => {
                    return Err(e);
                },
            }
            tries += 1;
        }
        Err(Error::InconsistentDbState)
    }

    /// Replaces the stored file `file.id` by `file`: parent, owner, name,
    /// media type and permissions.
    pub fn update_file(&mut self, file: &File) -> (r: Result<(), Error>)
        requires
            old(self).wf(),
        ensures
            final(self).wf(),
            !file_fits(file@) ==> (r is Err && r->Err_0 is BadCall && final(self)@ == old(self)@),
            match r {
                Ok(_) => {
                    &&& file_fits(file@)
                    &&& store_file_step(old(self)@, file@) == done(ReplyView::Done, final(self)@)
                    &&& file_at(final(self)@, file.id) == Ok::<Option<FileView>, Error>(
                        Some(file@),
                    )
                },
                Err(e) => e.is_store_failure() || (final(self)@ == old(self)@ && if !file_fits(
                    file@,
                ) {
                    e is BadCall
                } else {
                    store_file_step(old(self)@, file@).reply == Err::<ReplyView, Error>(e)
                }),
            },
    {
        let permissions = encode_permissions(
            file.read_group_ids.as_slice(),
            file.write_group_ids.as_slice(),
        )?;
        let record = encode_file(
            file.parent_id,
            file.owner_id,
            file.name.as_str(),
            file.media_type.as_str(),
        )?;
        let op = Op::UpdateFile { id: file.id, record, permissions };
        self.run(&op)?;
        proof {
            crate::found::law_updated_file_is_found(old(self)@, self@, file@);
        }
        Ok(())
    }

    /// Replaces parent, owner, name and permissions of the stored directory
    /// `dir.id` by those of `dir`. The stored list of children stays as it
    /// is, whatever `dir.child_ids` holds.
    pub fn update_dir(&mut self, dir: &Dir) -> (r: Result<(), Error>)
        requires
            old(self).wf(),
        ensures
            final(self).wf(),
            !dir_fits(dir@) ==> (r is Err && r->Err_0 is BadCall && final(self)@ == old(self)@),
            match r {
                Ok(_) => {
                    &&& dir_fits(dir@)
                    &&& store_dir_step(old(self)@, dir@) == done(ReplyView::Done, final(self)@)
                    &&& children_at(old(self)@, dir.id) is Ok
                    &&& dir_at(final(self)@, dir.id) == Ok::<Option<DirView>, Error>(
                        Some(DirView { child_ids: children_at(old(self)@, dir.id)->Ok_0, ..dir@ }),
                    )
                },
                Err(e) => e.is_store_failure() || (final(self)@ == old(self)@ && if !dir_fits(
                    dir@,
                ) {
                    e is BadCall
                } else {
                    store_dir_step(old(self)@, dir@).reply == Err::<ReplyView, Error>(e)
                }),
            },
    {
        let permissions = encode_permissions(
            dir.read_group_ids.as_slice(),
            dir.write_group_ids.as_slice(),
        )?;
        let name = vstd::slice::slice_to_vec(dir.name.as_str().as_bytes());
        let op = Op::UpdateDir {
            id: dir.id,
            parent_id: dir.parent_id,
            owner_id: dir.owner_id,
            name,
            permissions,
        };
        self.run(&op)?;
        proof {
            crate::found::law_updated_dir_keeps_children(old(self)@, self@, dir@);
        }
        Ok(())
    }

    /// Reads the groups of a removed node from its permission record, as far
    /// as that can be read.
    fn groups_of(record: Option<Vec<u8>>) -> (r: (Vec<u64>, Vec<u64>))
        ensures
            match record {
                Some(b) => if is_perm_record(b@) {
                    r.0@ == read_groups_of(b@)->0 && r.1@ == write_groups_of(b@)->0
                } else {
                    r.0@ == Seq::<u64>::empty() && r.1@ == Seq::<u64>::empty()
                },
                None => r.0@ == Seq::<u64>::empty() && r.1@ == Seq::<u64>::empty(),
            },
    {
        match record {
            Some(b) => match parse_read_group_ids(b.as_slice()) {
                Ok(read) => match parse_write_group_ids(b.as_slice()) {
                    Ok(write) => (read, write),
                    Err(_) => (Vec::new(), Vec::new()),
                },
                Err(_) => (Vec::new(), Vec::new()),
            },
            None => (Vec::new(), Vec::new()),
        }
    }

    /// Removes the file `id`: in one transaction its record and its entry in
    /// its parent, and after that its permission record. Returns the file
    /// as it was.
    pub fn remove_file(&mut self, id: u64) -> (r: Result<File, Error>)
        requires
            old(self).wf(),
        ensures
            final(self).wf(),
            tree_kept(old(self)@, final(self)@, r),
            r is Ok ==> file_at(final(self)@, id) == Ok::<Option<FileView>, Error>(None),
            match r {
                Ok(f) => {
                    &&& remove_file_step(old(self)@, id).reply is Ok
                    &&& final(self)@ == del(remove_file_step(old(self)@, id).tables, PERMS as int, id)
                    &&& f@ == removed_file(old(self)@, id)
                },
                Err(e) => e.is_store_failure() || (remove_file_step(old(self)@, id).reply == Err::<
                    ReplyView,
                    Error,
                >(e) && final(self)@ == old(self)@),
            },
    {
        let record = match self.take(&Op::RemoveFile { id })? {
            Some(b) => b,
            None => {
                proof {
                    assert(false);
                }
                return Err(Error::InconsistentDbState);
            },
        };
        let ghost mid = self@;
        let mut file = decode_file(id, record.as_slice())?;
        let permissions = self.take(&Op::RemovePermissions { id })?;
        proof {
            assert(mid[PERMS as int] == old(self)@[PERMS as int]);
            if permissions is None {
                assert(mid[PERMS as int].remove(be64(id)) =~= mid[PERMS as int]);
                assert(self@ =~= del(mid, PERMS as int, id));
            }
        }
        proof {
            if tree_consistent(old(self)@) {
                law_remove_file_keeps_tree(old(self)@, id);
            }
            reveal(file_at);
        }
        let (read, write) = Self::groups_of(permissions);
        file.read_group_ids = read;
        file.write_group_ids = write;
        Ok(file)
    }

    /// Removes the directory `id` and all that is below it: in one
    /// transaction its entry in its parent, its record, and the records and
    /// permissions of everything below it; after that its own permission
    /// record. A root directory is refused. Returns the directory as it was.
    pub fn remove_dir(&mut self, id: u64) -> (r: Result<Dir, Error>)
        requires
            old(self).wf(),
        ensures
            final(self).wf(),
            tree_kept(old(self)@, final(self)@, r),
            is_root(old(self)@, id) ==> (r is Err && (r->Err_0.is_store_failure() || (r->Err_0
                is ForbiddenAction && final(self)@ == old(self)@))),
            r is Ok && tree_consistent(old(self)@) ==> gone(final(self)@, id),
            r is Ok && tree_consistent(old(self)@) ==> forall|x: u64, n: nat| #[trigger]
                below(old(self)@, x, id, n) ==> gone(final(self)@, x),
            match r {
                Ok(d) => {
                    &&& remove_dir_step(old(self)@, id).reply is Ok
                    &&& final(self)@ == del(remove_dir_step(old(self)@, id).tables, PERMS as int, id)
                    &&& d@ == removed_dir(old(self)@, id)
                },
                Err(e) => e.is_store_failure() || (remove_dir_step(old(self)@, id).reply == Err::<
                    ReplyView,
                    Error,
                >(e) && final(self)@ == old(self)@),
            },
    {
        let key = id_key(id);
        let before = tree_get(&self.trees[PERMS], key.as_slice())?;
        let record = match self.take(&Op::RemoveDir { id })? {
            Some(b) => b,
            None => {
                proof {
                    assert(false);
                }
                return Err(Error::InconsistentDbState);
            },
        };
        let ghost mid = self@;
        let mut dir = entry_to_dir_incomplete(id, record.as_slice())?;
        let _ = self.take(&Op::RemovePermissions { id })?;
        proof {
            assert(mid[PERMS as int].remove(be64(id)) =~= self@[PERMS as int]);
            assert(self@ =~= del(mid, PERMS as int, id));
        }
        proof {
            if tree_consistent(old(self)@) {
                law_remove_dir_keeps_tree(old(self)@, id);
                law_remove_dir_cascades(old(self)@, id, id, 0);
                lemma_gone(self@, id);
                assert forall|x: u64, n: nat| #[trigger]
                    below(old(self)@, x, id, n) implies gone(self@, x) by {
                    law_remove_dir_cascades(old(self)@, id, x, n);
                    lemma_gone(self@, x);
                }
            }
        }
        let (read, write) = Self::groups_of(before);
        dir.read_group_ids = read;
        dir.write_group_ids = write;
        Ok(dir)
    }

    /// Lets the members of `group_id` read the node `fs_node_id`. The group
    /// is added even if the node lists it already.
    pub fn add_readable_group(&mut self, fs_node_id: u64, group_id: u64) -> (r: Result<(), Error>)
        requires
            old(self).wf(),
        ensures
            final(self).wf(),
            match r {
                Ok(_) => add_group_step(old(self)@, fs_node_id, group_id, false) == done(
                    ReplyView::Done,
                    final(self)@,
                ),
                Err(e) => e.is_store_failure() || (add_group_step(
                    old(self)@,
                    fs_node_id,
                    group_id,
                    false,
                ).reply == Err::<ReplyView, Error>(e) && final(self)@ == old(self)@),
            },
    {
        self.run(&Op::AddReadableGroup { node_id: fs_node_id, group_id })?;
        Ok(())
    }

    /// Lets the members of `group_id` write the node `fs_node_id`. The group
    /// is added even if the node lists it already.
    pub fn add_writeable_group(&mut self, fs_node_id: u64, group_id: u64) -> (r: Result<(), Error>)
        requires
            old(self).wf(),
        ensures
            final(self).wf(),
            match r {
                Ok(_) => add_group_step(old(self)@, fs_node_id, group_id, true) == done(
                    ReplyView::Done,
                    final(self)@,
                ),
                Err(e) => e.is_store_failure() || (add_group_step(
                    old(self)@,
                    fs_node_id,
                    group_id,
                    true,
                ).reply == Err::<ReplyView, Error>(e) && final(self)@ == old(self)@),
            },
    {
        self.run(&Op::AddWriteableGroup { node_id: fs_node_id, group_id })?;
        Ok(())
    }
}

/// What one more identifier adds to the list.
pub proof fn lemma_files_among_step(s: Seq<Table>, ids: Seq<u64>, i: int)
    requires
        0 <= i < ids.len(),
    ensures
        files_among(s, ids.take(i + 1)) == match files_among(s, ids.take(i)) {
            Err(e) => Err(e),
            Ok(found) => match file_at(s, ids[i]) {
                Err(e) => Err(e),
                Ok(None) => Ok(found),
                Ok(Some(f)) => Ok(found.push(f)),
            },
        },
{
    let next = ids.take(i + 1);
    assert(next.drop_last() =~= ids.take(i));
    assert(next.last() == ids[i]);
}

/// Once a record among the first `n` identifiers cannot be read, the whole
/// list fails in the same way.
pub proof fn lemma_files_among_fails(s: Seq<Table>, ids: Seq<u64>, n: int)
    requires
        0 <= n <= ids.len(),
        files_among(s, ids.take(n)) is Err,
    ensures
        files_among(s, ids) == files_among(s, ids.take(n)),
    decreases ids.len() - n,
{
    if n < ids.len() {
        lemma_files_among_step(s, ids, n);
        lemma_files_among_fails(s, ids, n + 1);
    } else {
        assert(ids.take(n) =~= ids);
    }
}

/// What one more identifier adds to the list.
pub proof fn lemma_dirs_among_step(s: Seq<Table>, ids: Seq<u64>, i: int)
    requires
        0 <= i < ids.len(),
    ensures
        dirs_among(s, ids.take(i + 1)) == match dirs_among(s, ids.take(i)) {
            Err(e) => Err(e),
            Ok(found) => match dir_at(s, ids[i]) {
                Err(e) => Err(e),
                Ok(None) => Ok(found),
                Ok(Some(f)) => Ok(found.push(f)),
            },
        },
{
    let next = ids.take(i + 1);
    assert(next.drop_last() =~= ids.take(i));
    assert(next.last() == ids[i]);
}

/// Once a record among the first `n` identifiers cannot be read, the whole
/// list fails in the same way.
pub proof fn lemma_dirs_among_fails(s: Seq<Table>, ids: Seq<u64>, n: int)
    requires
        0 <= n <= ids.len(),
        dirs_among(s, ids.take(n)) is Err,
    ensures
        dirs_among(s, ids) == dirs_among(s, ids.take(n)),
    decreases ids.len() - n,
{
    if n < ids.len() {
        lemma_dirs_among_step(s, ids, n);
        lemma_dirs_among_fails(s, ids, n + 1);
    } else {
        assert(ids.take(n) =~= ids);
    }
}

} // verus!
