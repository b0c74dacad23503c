use kasten::codec::{encode_dir, encode_file};
use kasten::error::Error;
use kasten::fs_db::FsDatabase;
use kasten::models::{Dir, File};

fn open_fs() -> (sled::Db, FsDatabase) {
    let db = sled::Config::new().temporary(true).open().unwrap();
    let fs = FsDatabase::init(&db).unwrap();
    (db, fs)
}

fn key(id: u64) -> [u8; 8] {
    id.to_be_bytes()
}

/// Every stored directory lists exactly the stored nodes whose parent it is.
fn check_tree(db: &sled::Db, fs: &FsDatabase) {
    let dirs = db.open_tree("dirs").unwrap();
    let files = db.open_tree("files").unwrap();
    let mut parents = std::collections::HashMap::new();
    for entry in dirs.iter() {
        let (k, _) = entry.unwrap();
        let id = u64::from_be_bytes(k.as_ref().try_into().unwrap());
        let dir = fs.get_dir(id).unwrap().unwrap();
        assert_ne!(id, 0);
        assert!(parents.insert(id, dir.parent_id).is_none());
    }
    for entry in files.iter() {
        let (k, _) = entry.unwrap();
        let id = u64::from_be_bytes(k.as_ref().try_into().unwrap());
        let file = fs.get_file(id).unwrap().unwrap();
        assert_ne!(id, 0);
        assert!(parents.insert(id, file.parent_id).is_none());
    }
    for entry in dirs.iter() {
        let (k, _) = entry.unwrap();
        let id = u64::from_be_bytes(k.as_ref().try_into().unwrap());
        let dir = fs.get_dir(id).unwrap().unwrap();
        let mut listed = dir.child_ids.clone();
        listed.sort();
        let mut expected: Vec<u64> =
            parents.iter().filter(|(_, p)| **p == id).map(|(c, _)| *c).collect();
        expected.sort();
        assert_eq!(listed, expected);
    }
    for (id, parent) in &parents {
        assert!(*parent == 0 || dirs.contains_key(key(*parent)).unwrap(), "{}", id);
    }
}

#[test]
fn new_directory_is_listed_by_its_parent() {
    let (_db, mut fs) = open_fs();
    let root = fs.insert_root_dir(7, "home").unwrap();
    assert_eq!(root.parent_id, 0);
    let docs = fs.insert_new_dir(root.id, 7, "docs").unwrap();
    assert_eq!(docs.parent_id, root.id);
    assert_eq!(docs.owner_id, 7);
    assert!(docs.child_ids.is_empty());
    assert_ne!(docs.id, 0);
    let stored = fs.get_dir(root.id).unwrap().unwrap();
    assert_eq!(stored.child_ids, vec![docs.id]);
    let again = fs.get_dir(docs.id).unwrap().unwrap();
    assert_eq!(again.name, "docs");
    assert_eq!(again.parent_id, root.id);
    assert_eq!(again.owner_id, 7);
    assert!(again.child_ids.is_empty());
    assert!(again.read_group_ids.is_empty());
    assert!(again.write_group_ids.is_empty());
}

#[test]
fn removing_a_directory_removes_what_is_below_it() {
    let (db, mut fs) = open_fs();
    let root = fs.insert_root_dir(7, "home").unwrap();
    let docs = fs.insert_new_dir(root.id, 7, "docs").unwrap();
    let file = fs.insert_new_file(docs.id, 7, "a.txt", "text/plain").unwrap();
    assert_eq!(fs.get_file(file.id).unwrap().unwrap().name, "a.txt");
    let removed = fs.remove_dir(docs.id).unwrap();
    assert_eq!(removed.id, docs.id);
    assert_eq!(removed.child_ids, vec![file.id]);
    assert_eq!(removed.name, "docs");
    assert!(fs.get_file(file.id).unwrap().is_none());
    assert!(fs.get_dir(docs.id).unwrap().is_none());
    assert!(fs.get_dir(root.id).unwrap().unwrap().child_ids.is_empty());
    let perms = db.open_tree("fs_node_permissions").unwrap();
    assert!(!perms.contains_key(key(file.id)).unwrap());
    assert!(!perms.contains_key(key(docs.id)).unwrap());
    assert!(perms.contains_key(key(root.id)).unwrap());
    assert!(!db.open_tree("files").unwrap().contains_key(key(file.id)).unwrap());
    assert!(!db.open_tree("dirs").unwrap().contains_key(key(docs.id)).unwrap());
}

#[test]
fn root_directory_cannot_be_removed() {
    let (db, mut fs) = open_fs();
    let root = fs.insert_root_dir(7, "home").unwrap();
    let other = fs.insert_root_dir(8, "home").unwrap();
    fs.insert_new_file(root.id, 7, "a", "b").unwrap();
    assert!(matches!(fs.remove_dir(root.id), Err(Error::ForbiddenAction)));
    assert!(matches!(fs.remove_dir(other.id), Err(Error::ForbiddenAction)));
    assert_eq!(fs.get_dir(root.id).unwrap().unwrap().child_ids.len(), 1);
    assert!(fs.get_dir(other.id).unwrap().is_some());
    check_tree(&db, &fs);
}

#[test]
fn root_directory_with_a_broken_record_stays_too() {
    let (db, mut fs) = open_fs();
    let root = fs.insert_root_dir(7, "home").unwrap();
    let dirs = db.open_tree("dirs").unwrap();
    let mut record = encode_dir(0, 7, &[], "").unwrap();
    record.push(0xff);
    dirs.insert(key(root.id), record.clone()).unwrap();
    assert!(matches!(fs.get_dir(root.id), Err(Error::EncodingError)));
    assert!(matches!(fs.remove_dir(root.id), Err(Error::ForbiddenAction)));
    dirs.insert(key(root.id), vec![0; 8]).unwrap();
    assert!(matches!(fs.remove_dir(root.id), Err(Error::ForbiddenAction)));
    dirs.insert(key(root.id), vec![0; 7]).unwrap();
    assert!(matches!(fs.remove_dir(root.id), Err(Error::EncodingError)));
    assert_eq!(dirs.len(), 1);
}

#[test]
fn deep_tree_is_removed_whole() {
    let (db, mut fs) = open_fs();
    let root = fs.insert_root_dir(7, "home").unwrap();
    let keep = fs.insert_new_file(root.id, 7, "keep", "x").unwrap();
    let top = fs.insert_new_dir(root.id, 7, "top").unwrap();
    let mut below = Vec::new();
    let mut parent = top.id;
    for depth in 0..40 {
        let dir = fs.insert_new_dir(parent, 7, "d").unwrap();
        let file = fs.insert_new_file(parent, 7, "f", "x").unwrap();
        let side = fs.insert_new_dir(parent, 7, "side").unwrap();
        let side_file = fs.insert_new_file(side.id, 7, "sf", "x").unwrap();
        below.extend([dir.id, file.id, side.id, side_file.id]);
        parent = dir.id;
        if depth % 10 == 0 {
            check_tree(&db, &fs);
        }
    }
    assert_eq!(below.len(), 160);
    let removed = fs.remove_dir(top.id).unwrap();
    assert_eq!(removed.child_ids.len(), 3);
    let perms = db.open_tree("fs_node_permissions").unwrap();
    for id in below.iter().chain([top.id].iter()) {
        assert!(fs.get_file(*id).unwrap().is_none());
        assert!(fs.get_dir(*id).unwrap().is_none());
        assert!(!perms.contains_key(key(*id)).unwrap());
    }
    assert_eq!(db.open_tree("dirs").unwrap().len(), 1);
    assert_eq!(db.open_tree("files").unwrap().len(), 1);
    assert_eq!(perms.len(), 2);
    assert_eq!(fs.get_dir(root.id).unwrap().unwrap().child_ids, vec![keep.id]);
    check_tree(&db, &fs);
}

#[test]
fn tree_stays_consistent() {
    let (db, mut fs) = open_fs();
    let root = fs.insert_root_dir(1, "home").unwrap();
    let a = fs.insert_new_dir(root.id, 1, "a").unwrap();
    let b = fs.insert_new_dir(root.id, 1, "b").unwrap();
    let a1 = fs.insert_new_file(a.id, 1, "a1", "t").unwrap();
    let a2 = fs.insert_new_file(a.id, 1, "a2", "t").unwrap();
    let a3 = fs.insert_new_dir(a.id, 1, "a3").unwrap();
    let b1 = fs.insert_new_file(b.id, 1, "b1", "t").unwrap();
    check_tree(&db, &fs);
    assert_eq!(fs.get_dir(a.id).unwrap().unwrap().child_ids, vec![a1.id, a2.id, a3.id]);
    let removed = fs.remove_file(a1.id).unwrap();
    assert_eq!(removed.name, "a1");
    assert_eq!(removed.parent_id, a.id);
    check_tree(&db, &fs);
    assert_eq!(fs.get_dir(a.id).unwrap().unwrap().child_ids, vec![a2.id, a3.id]);
    let a4 = fs.insert_new_file(a.id, 1, "a4", "t").unwrap();
    assert_eq!(fs.get_dir(a.id).unwrap().unwrap().child_ids, vec![a2.id, a3.id, a4.id]);
    fs.remove_file(a3.id).unwrap_err();
    fs.remove_dir(a3.id).unwrap();
    check_tree(&db, &fs);
    assert_eq!(fs.get_dir(a.id).unwrap().unwrap().child_ids, vec![a2.id, a4.id]);
    fs.remove_dir(a.id).unwrap();
    check_tree(&db, &fs);
    assert_eq!(fs.get_dir(root.id).unwrap().unwrap().child_ids, vec![b.id]);
    assert_eq!(fs.get_dir(b.id).unwrap().unwrap().child_ids, vec![b1.id]);
    assert!(fs.get_file(a2.id).unwrap().is_none());
    assert!(fs.get_file(a4.id).unwrap().is_none());
    assert!(fs.get_file(b1.id).unwrap().is_some());
}

#[test]
fn identifiers_are_not_given_out_twice() {
    let (_db, mut fs) = open_fs();
    let mut seen = std::collections::HashSet::new();
    let root = fs.insert_root_dir(1, "home").unwrap();
    assert!(seen.insert(root.id));
    let mut parents = vec![root.id];
    for i in 0..10_000 {
        let parent = parents[i % parents.len()];
        let id = if i % 3 == 0 {
            let dir = fs.insert_new_dir(parent, 1, "d").unwrap();
            if parents.len() < 400 {
                parents.push(dir.id);
            }
            dir.id
        } else {
            fs.insert_new_file(parent, 1, "f", "t").unwrap().id
        };
        assert_ne!(id, 0);
        assert!(seen.insert(id));
    }
    assert_eq!(seen.len(), 10_001);
}

#[test]
fn proposed_identifier_is_refused_while_in_use() {
    let (_db, mut fs) = open_fs();
    assert!(fs.insert_root_dir_with_id(0, 1, "home").unwrap().is_none());
    let root = fs.insert_root_dir_with_id(10, 1, "home").unwrap().unwrap();
    assert_eq!((root.id, root.parent_id, root.owner_id), (10, 0, 1));
    assert_eq!(root.name, "home");
    assert!(fs.insert_root_dir_with_id(10, 1, "home").unwrap().is_none());
    assert!(fs.insert_dir_with_id(0, 10, 1, "d").unwrap().is_none());
    assert!(fs.insert_dir_with_id(10, 10, 1, "d").unwrap().is_none());
    let dir = fs.insert_dir_with_id(11, 10, 1, "d").unwrap().unwrap();
    assert_eq!((dir.id, dir.parent_id), (11, 10));
    assert!(fs.insert_file_with_id(0, 10, 1, "f", "t").unwrap().is_none());
    assert!(fs.insert_file_with_id(10, 10, 1, "f", "t").unwrap().is_none());
    assert!(fs.insert_file_with_id(11, 10, 1, "f", "t").unwrap().is_none());
    let file = fs.insert_file_with_id(12, 11, 1, "f", "t").unwrap().unwrap();
    assert_eq!((file.id, file.parent_id, file.owner_id), (12, 11, 1));
    assert_eq!((file.name.as_str(), file.media_type.as_str()), ("f", "t"));
    assert!(fs.insert_dir_with_id(12, 10, 1, "d").unwrap().is_none());
    assert_eq!(fs.get_dir(10).unwrap().unwrap().child_ids, vec![11]);
    assert_eq!(fs.get_dir(11).unwrap().unwrap().child_ids, vec![12]);
    assert!(matches!(fs.insert_file_with_id(13, 99, 1, "f", "t"), Err(Error::NoSuchDir)));
    assert!(matches!(fs.insert_dir_with_id(13, 12, 1, "d"), Err(Error::NoSuchDir)));
    assert!(fs.get_file(13).unwrap().is_none());
}

#[test]
fn stored_records_have_the_documented_layout() {
    let (db, mut fs) = open_fs();
    fs.insert_root_dir_with_id(10, 1, "home").unwrap().unwrap();
    fs.insert_file_with_id(12, 10, 3, "f", "t").unwrap().unwrap();
    fs.insert_dir_with_id(13, 10, 4, "d").unwrap().unwrap();
    let dirs = db.open_tree("dirs").unwrap();
    let files = db.open_tree("files").unwrap();
    let perms = db.open_tree("fs_node_permissions").unwrap();
    assert_eq!(dirs.get(key(10)).unwrap().unwrap().to_vec(), encode_dir(0, 1, &[12, 13], "home").unwrap());
    assert_eq!(dirs.get(key(13)).unwrap().unwrap().to_vec(), encode_dir(10, 4, &[], "d").unwrap());
    assert_eq!(files.get(key(12)).unwrap().unwrap().to_vec(), encode_file(10, 3, "f", "t").unwrap());
    for id in [10u64, 12, 13] {
        assert_eq!(perms.get(key(id)).unwrap().unwrap().to_vec(), vec![0, 0, 0, 0]);
    }
    assert_eq!((dirs.len(), files.len(), perms.len()), (2, 1, 3));
}

#[test]
fn missing_parent_is_refused() {
    let (db, mut fs) = open_fs();
    assert!(matches!(fs.insert_new_dir(5, 1, "d"), Err(Error::NoSuchDir)));
    assert!(matches!(fs.insert_new_file(5, 1, "f", "t"), Err(Error::NoSuchDir)));
    assert!(matches!(fs.insert_new_dir(0, 1, "d"), Err(Error::NoSuchDir)));
    let root = fs.insert_root_dir(1, "home").unwrap();
    let file = fs.insert_new_file(root.id, 1, "f", "t").unwrap();
    assert!(matches!(fs.insert_new_file(file.id, 1, "f", "t"), Err(Error::NoSuchDir)));
    assert_eq!(db.open_tree("files").unwrap().len(), 1);
    assert_eq!(db.open_tree("dirs").unwrap().len(), 1);
    assert_eq!(db.open_tree("fs_node_permissions").unwrap().len(), 2);
}

#[test]
fn name_that_is_too_long_is_refused() {
    let (_db, mut fs) = open_fs();
    let root = fs.insert_root_dir(1, "home").unwrap();
    let long = "x".repeat(65536);
    assert!(matches!(fs.insert_new_file(root.id, 1, &long, "t"), Err(Error::BadCall)));
    assert!(matches!(fs.insert_new_file(root.id, 1, "f", &long), Err(Error::BadCall)));
    assert!(fs.get_dir(root.id).unwrap().unwrap().child_ids.is_empty());
    let dir = fs.insert_new_dir(root.id, 1, &long).unwrap();
    assert_eq!(fs.get_dir(dir.id).unwrap().unwrap().name, long);
    let mut file = fs.insert_new_file(root.id, 1, "f", "t").unwrap();
    file.name = long;
    assert!(matches!(fs.update_file(&file), Err(Error::BadCall)));
    assert_eq!(fs.get_file(file.id).unwrap().unwrap().name, "f");
}

#[test]
fn full_directory_takes_no_more_children() {
    let (db, mut fs) = open_fs();
    let root = fs.insert_root_dir(1, "home").unwrap();
    let children: Vec<u64> = (1000..1000 + 65535).collect();
    let dirs = db.open_tree("dirs").unwrap();
    dirs.insert(key(root.id), encode_dir(0, 1, &children, "home").unwrap()).unwrap();
    assert!(matches!(fs.insert_new_file(root.id, 1, "f", "t"), Err(Error::BadCall)));
    assert!(matches!(fs.insert_new_dir(root.id, 1, "d"), Err(Error::BadCall)));
    assert_eq!(fs.get_dir(root.id).unwrap().unwrap().child_ids.len(), 65535);
    assert_eq!(db.open_tree("files").unwrap().len(), 0);
    dirs.insert(key(root.id), encode_dir(0, 1, &children[..65534], "home").unwrap()).unwrap();
    let last = fs.insert_new_file(root.id, 1, "f", "t").unwrap();
    let stored = fs.get_dir(root.id).unwrap().unwrap();
    assert_eq!(stored.child_ids.len(), 65535);
    assert_eq!(stored.child_ids[65534], last.id);
    assert_eq!(stored.name, "home");
}

#[test]
fn update_file_replaces_fields_and_permissions() {
    let (_db, mut fs) = open_fs();
    let root = fs.insert_root_dir(1, "home").unwrap();
    let file = fs.insert_new_file(root.id, 1, "f", "t").unwrap();
    let changed = File {
        id: file.id,
        parent_id: root.id,
        owner_id: 2,
        read_group_ids: vec![5, 6],
        write_group_ids: vec![7],
        name: "g".to_string(),
        media_type: "u".to_string(),
    };
    fs.update_file(&changed).unwrap();
    let stored = fs.get_file(file.id).unwrap().unwrap();
    assert_eq!(stored.owner_id, 2);
    assert_eq!(stored.read_group_ids, vec![5, 6]);
    assert_eq!(stored.write_group_ids, vec![7]);
    assert_eq!((stored.name.as_str(), stored.media_type.as_str()), ("g", "u"));
    let missing = File { id: 12345, ..changed };
    assert!(matches!(fs.update_file(&missing), Err(Error::NoSuchFile)));
    assert!(fs.get_file(12345).unwrap().is_none());
    let as_dir = File { id: root.id, ..missing };
    assert!(matches!(fs.update_file(&as_dir), Err(Error::NoSuchFile)));
}

#[test]
fn update_dir_keeps_the_children() {
    let (_db, mut fs) = open_fs();
    let root = fs.insert_root_dir(1, "home").unwrap();
    let dir = fs.insert_new_dir(root.id, 1, "d").unwrap();
    let f1 = fs.insert_new_file(dir.id, 1, "f1", "t").unwrap();
    let f2 = fs.insert_new_file(dir.id, 1, "f2", "t").unwrap();
    let changed = Dir {
        id: dir.id,
        parent_id: root.id,
        owner_id: 9,
        read_group_ids: vec![5],
        write_group_ids: vec![6, 7],
        child_ids: vec![1, 2, 3],
        name: "a longer name".to_string(),
    };
    fs.update_dir(&changed).unwrap();
    let stored = fs.get_dir(dir.id).unwrap().unwrap();
    assert_eq!(stored.child_ids, vec![f1.id, f2.id]);
    assert_eq!(stored.owner_id, 9);
    assert_eq!(stored.name, "a longer name");
    assert_eq!(stored.read_group_ids, vec![5]);
    assert_eq!(stored.write_group_ids, vec![6, 7]);
    let shorter = Dir { name: String::new(), ..changed };
    fs.update_dir(&shorter).unwrap();
    let stored = fs.get_dir(dir.id).unwrap().unwrap();
    assert_eq!(stored.child_ids, vec![f1.id, f2.id]);
    assert_eq!(stored.name, "");
    let missing = Dir { id: 12345, ..shorter };
    assert!(matches!(fs.update_dir(&missing), Err(Error::NoSuchDir)));
    let as_file = Dir { id: f1.id, ..missing };
    assert!(matches!(fs.update_dir(&as_file), Err(Error::NoSuchDir)));
    let too_many = Dir { id: dir.id, read_group_ids: vec![0; 65536], ..as_file };
    assert!(matches!(fs.update_dir(&too_many), Err(Error::BadCall)));
}

#[test]
fn remove_file_returns_the_file_as_it_was() {
    let (db, mut fs) = open_fs();
    let root = fs.insert_root_dir(1, "home").unwrap();
    let file = fs.insert_new_file(root.id, 1, "f", "t").unwrap();
    fs.add_readable_group(file.id, 5).unwrap();
    fs.add_writeable_group(file.id, 6).unwrap();
    let removed = fs.remove_file(file.id).unwrap();
    assert_eq!(removed.id, file.id);
    assert_eq!(removed.parent_id, root.id);
    assert_eq!((removed.name.as_str(), removed.media_type.as_str()), ("f", "t"));
    assert_eq!(removed.read_group_ids, vec![5]);
    assert_eq!(removed.write_group_ids, vec![6]);
    assert!(fs.get_file(file.id).unwrap().is_none());
    assert!(!db.open_tree("fs_node_permissions").unwrap().contains_key(key(file.id)).unwrap());
    assert!(matches!(fs.remove_file(file.id), Err(Error::NoSuchFile)));
    assert!(matches!(fs.remove_file(root.id), Err(Error::NoSuchFile)));
    assert!(matches!(fs.remove_dir(file.id), Err(Error::NoSuchDir)));
    assert!(matches!(fs.remove_dir(0), Err(Error::NoSuchDir)));
}

#[test]
fn broken_tree_is_reported() {
    let (_db, mut fs) = open_fs();
    let root = fs.insert_root_dir(1, "home").unwrap();
    let other = fs.insert_new_dir(root.id, 1, "other").unwrap();
    let mut file = fs.insert_new_file(root.id, 1, "f", "t").unwrap();
    file.parent_id = other.id;
    fs.update_file(&file).unwrap();
    assert!(matches!(fs.remove_file(file.id), Err(Error::InconsistentDbState)));
    assert!(fs.get_file(file.id).unwrap().is_some());
    file.parent_id = 4242;
    fs.update_file(&file).unwrap();
    assert!(matches!(fs.remove_file(file.id), Err(Error::InconsistentDbState)));
    assert!(fs.get_file(file.id).unwrap().is_some());
    let mut dir = fs.insert_new_dir(root.id, 1, "d").unwrap();
    dir.parent_id = 4242;
    fs.update_dir(&dir).unwrap();
    assert!(matches!(fs.remove_dir(dir.id), Err(Error::InconsistentDbState)));
    assert!(fs.get_dir(dir.id).unwrap().is_some());
    assert_eq!(fs.get_dir(root.id).unwrap().unwrap().child_ids.len(), 3);
}

#[test]
fn records_that_cannot_be_read_are_reported() {
    let (db, mut fs) = open_fs();
    let root = fs.insert_root_dir(1, "home").unwrap();
    let dir = fs.insert_new_dir(root.id, 1, "d").unwrap();
    let file = fs.insert_new_file(dir.id, 1, "f", "t").unwrap();
    let dirs = db.open_tree("dirs").unwrap();
    let files = db.open_tree("files").unwrap();
    let perms = db.open_tree("fs_node_permissions").unwrap();
    let good = files.insert(key(file.id), vec![1, 2, 3]).unwrap().unwrap();
    assert!(matches!(fs.get_file(file.id), Err(Error::EncodingError)));
    assert!(matches!(fs.get_files_by_parent(dir.id), Err(Error::EncodingError)));
    assert!(matches!(fs.remove_file(file.id), Err(Error::EncodingError)));
    files.insert(key(file.id), good).unwrap();
    let good = perms.insert(key(file.id), vec![0, 1]).unwrap().unwrap();
    assert!(matches!(fs.get_file(file.id), Err(Error::EncodingError)));
    assert!(matches!(fs.add_readable_group(file.id, 1), Err(Error::EncodingError)));
    assert!(matches!(fs.add_writeable_group(file.id, 1), Err(Error::EncodingError)));
    perms.insert(key(file.id), good).unwrap();
    assert!(fs.get_file(file.id).unwrap().is_some());
    let mut cut_short = key(root.id).to_vec();
    cut_short.extend([0; 9]);
    let good = dirs.insert(key(dir.id), cut_short).unwrap().unwrap();
    assert!(matches!(fs.get_dir(dir.id), Err(Error::EncodingError)));
    assert!(matches!(fs.get_dirs_by_parent(root.id), Err(Error::EncodingError)));
    assert!(matches!(fs.get_files_by_parent(dir.id), Err(Error::EncodingError)));
    assert!(matches!(fs.insert_new_file(dir.id, 1, "g", "t"), Err(Error::EncodingError)));
    assert!(matches!(fs.remove_dir(dir.id), Err(Error::EncodingError)));
    assert!(matches!(fs.remove_file(file.id), Err(Error::EncodingError)));
    dirs.insert(key(dir.id), good).unwrap();
    let inner = fs.insert_new_dir(dir.id, 1, "inner").unwrap();
    dirs.insert(key(inner.id), vec![0; 3]).unwrap();
    assert!(matches!(fs.remove_dir(dir.id), Err(Error::EncodingError)));
    assert!(fs.get_dir(dir.id).unwrap().is_some());
    assert!(fs.get_file(file.id).unwrap().is_some());
    assert_eq!(fs.get_dir(root.id).unwrap().unwrap().child_ids, vec![dir.id]);
}

#[test]
fn children_are_listed_by_kind() {
    let (db, mut fs) = open_fs();
    let root = fs.insert_root_dir(1, "home").unwrap();
    let d1 = fs.insert_new_dir(root.id, 1, "d1").unwrap();
    let f1 = fs.insert_new_file(root.id, 1, "f1", "t").unwrap();
    let d2 = fs.insert_new_dir(root.id, 1, "d2").unwrap();
    let f2 = fs.insert_new_file(root.id, 1, "f2", "t").unwrap();
    let files: Vec<u64> = fs.get_files_by_parent(root.id).unwrap().iter().map(|f| f.id).collect();
    let dirs: Vec<u64> = fs.get_dirs_by_parent(root.id).unwrap().iter().map(|d| d.id).collect();
    assert_eq!(files, vec![f1.id, f2.id]);
    assert_eq!(dirs, vec![d1.id, d2.id]);
    assert!(fs.get_files_by_parent(d1.id).unwrap().is_empty());
    assert!(fs.get_dirs_by_parent(d1.id).unwrap().is_empty());
    assert!(matches!(fs.get_files_by_parent(777), Err(Error::EntryNotFound)));
    assert!(matches!(fs.get_dirs_by_parent(f1.id), Err(Error::EntryNotFound)));
    let tree = db.open_tree("dirs").unwrap();
    tree.insert(key(root.id), encode_dir(0, 1, &[d1.id, 999, f1.id], "home").unwrap()).unwrap();
    let files: Vec<u64> = fs.get_files_by_parent(root.id).unwrap().iter().map(|f| f.id).collect();
    let dirs: Vec<u64> = fs.get_dirs_by_parent(root.id).unwrap().iter().map(|d| d.id).collect();
    assert_eq!(files, vec![f1.id]);
    assert_eq!(dirs, vec![d1.id]);
}

#[test]
fn readable_group_shows_up_in_the_file() {
    let (_db, mut fs) = open_fs();
    let root = fs.insert_root_dir(7, "home").unwrap();
    let file = fs.insert_new_file(root.id, 7, "a.txt", "text/plain").unwrap();
    fs.add_readable_group(file.id, 99).unwrap();
    assert_eq!(fs.get_file(file.id).unwrap().unwrap().read_group_ids, vec![99]);
    fs.add_writeable_group(file.id, 100).unwrap();
    fs.add_readable_group(file.id, 99).unwrap();
    fs.add_readable_group(file.id, 98).unwrap();
    fs.add_writeable_group(file.id, 101).unwrap();
    let stored = fs.get_file(file.id).unwrap().unwrap();
    assert_eq!(stored.read_group_ids, vec![99, 99, 98]);
    assert_eq!(stored.write_group_ids, vec![100, 101]);
    fs.add_readable_group(root.id, 5).unwrap();
    assert_eq!(fs.get_dir(root.id).unwrap().unwrap().read_group_ids, vec![5]);
    assert!(fs.get_dir(root.id).unwrap().unwrap().write_group_ids.is_empty());
    assert!(matches!(fs.add_readable_group(12345, 99), Err(Error::NoSuchTarget)));
    assert!(matches!(fs.add_writeable_group(12345, 99), Err(Error::NoSuchTarget)));
}

#[test]
fn full_list_of_groups_takes_no_more() {
    let (_db, mut fs) = open_fs();
    let root = fs.insert_root_dir(7, "home").unwrap();
    let mut file = fs.insert_new_file(root.id, 7, "a.txt", "text/plain").unwrap();
    file.read_group_ids = (0..65535).collect();
    file.write_group_ids = (0..65534).collect();
    fs.update_file(&file).unwrap();
    assert!(matches!(fs.add_readable_group(file.id, 1), Err(Error::BadCall)));
    fs.add_writeable_group(file.id, 77).unwrap();
    assert!(matches!(fs.add_writeable_group(file.id, 78), Err(Error::BadCall)));
    let stored = fs.get_file(file.id).unwrap().unwrap();
    assert_eq!(stored.read_group_ids.len(), 65535);
    assert_eq!(stored.write_group_ids.len(), 65535);
    assert_eq!(stored.write_group_ids[65534], 77);
}
