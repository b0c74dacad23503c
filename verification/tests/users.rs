use kasten::codec::encode_group;
use kasten::database::Database;
use kasten::error::Error;
use kasten::models::{Group, User, UserSession};
use kasten::user_db::UserDatabase;

fn open_db() -> (sled::Db, Database) {
    let sled_db = sled::Config::new().temporary(true).open().unwrap();
    let db = Database::init(sled_db.clone()).unwrap();
    (sled_db, db)
}

fn user(id: u64, name: &str) -> User {
    User {
        id,
        name: name.to_string(),
        pwd_hash: format!("hash of {}", name),
        root_dir_id: id + 1000,
        group_ids: Vec::new(),
    }
}

fn group(name: &str, member_ids: Vec<u64>, admin_ids: Vec<u64>) -> Group {
    Group { id: 0, name: name.to_string(), member_ids, admin_ids }
}

fn key(id: u64) -> [u8; 8] {
    id.to_be_bytes()
}

#[test]
fn user_is_stored_and_found() {
    let (sled_db, mut db) = open_db();
    assert!(db.get_user(7).unwrap().is_none());
    assert!(db.get_userid_by_name("ada").unwrap().is_none());
    db.insert_user(&user(7, "ada")).unwrap();
    let stored = db.get_user(7).unwrap().unwrap();
    assert_eq!(stored.id, 7);
    assert_eq!(stored.name, "ada");
    assert_eq!(stored.pwd_hash, "hash of ada");
    assert_eq!(stored.root_dir_id, 1007);
    assert!(stored.group_ids.is_empty());
    assert_eq!(db.get_userid_by_name("ada").unwrap(), Some(7));
    assert!(db.get_userid_by_name("Ada").unwrap().is_none());
    let names = sled_db.open_tree("userids_names").unwrap();
    assert_eq!(names.get(key(7)).unwrap().unwrap().to_vec(), b"ada".to_vec());
    let ids = sled_db.open_tree("usernames_ids").unwrap();
    assert_eq!(ids.get(b"ada").unwrap().unwrap().to_vec(), key(7).to_vec());
    let roots = sled_db.open_tree("userid_rootdir").unwrap();
    assert_eq!(roots.get(key(7)).unwrap().unwrap().to_vec(), key(1007).to_vec());
    let hashes = sled_db.open_tree("userids_pwds").unwrap();
    assert_eq!(hashes.get(key(7)).unwrap().unwrap().to_vec(), b"hash of ada".to_vec());
}

#[test]
fn user_is_replaced_by_identifier() {
    let (_sled_db, mut db) = open_db();
    db.insert_user(&user(7, "ada")).unwrap();
    let mut changed = user(7, "ada");
    changed.pwd_hash = "other".to_string();
    changed.root_dir_id = 5;
    db.insert_user(&changed).unwrap();
    let stored = db.get_user(7).unwrap().unwrap();
    assert_eq!(stored.pwd_hash, "other");
    assert_eq!(stored.root_dir_id, 5);
    db.insert_user(&user(8, "ada")).unwrap();
    assert_eq!(db.get_userid_by_name("ada").unwrap(), Some(8));
    assert_eq!(db.get_user(7).unwrap().unwrap().name, "ada");
}

#[test]
fn user_records_that_cannot_be_read_are_reported() {
    let (sled_db, mut db) = open_db();
    db.insert_user(&user(7, "ada")).unwrap();
    let names = sled_db.open_tree("userids_names").unwrap();
    let roots = sled_db.open_tree("userid_rootdir").unwrap();
    let hashes = sled_db.open_tree("userids_pwds").unwrap();
    let ids = sled_db.open_tree("usernames_ids").unwrap();
    let good = names.insert(key(7), vec![0xff]).unwrap().unwrap();
    assert!(matches!(db.get_user(7), Err(Error::EncodingError)));
    names.insert(key(7), good).unwrap();
    let good = roots.insert(key(7), vec![1, 2]).unwrap().unwrap();
    assert!(matches!(db.get_user(7), Err(Error::EncodingError)));
    roots.insert(key(7), good).unwrap();
    let good = hashes.insert(key(7), vec![0xc3]).unwrap().unwrap();
    assert!(matches!(db.get_user(7), Err(Error::EncodingError)));
    hashes.remove(key(7)).unwrap();
    assert!(db.get_user(7).unwrap().is_none());
    hashes.insert(key(7), good).unwrap();
    assert!(db.get_user(7).unwrap().is_some());
    ids.insert(b"ada", vec![1, 2, 3]).unwrap();
    assert!(matches!(db.get_userid_by_name("ada"), Err(Error::EncodingError)));
}

#[test]
fn group_is_found_by_name_and_name_is_taken_once() {
    let (_sled_db, mut db) = open_db();
    db.insert_user(&user(7, "ada")).unwrap();
    let mut team = group("team", vec![7], vec![7]);
    db.insert_new_group(&mut team).unwrap();
    assert_ne!(team.id, 0);
    assert_eq!(db.get_groupid_by_name("team").unwrap(), Some(team.id));
    let stored = db.get_group(team.id).unwrap().unwrap();
    assert_eq!(stored.id, team.id);
    assert_eq!(stored.name, "team");
    assert_eq!(stored.member_ids, vec![7]);
    assert_eq!(stored.admin_ids, vec![7]);
    let mut again = group("team", vec![], vec![]);
    assert!(matches!(db.insert_new_group(&mut again), Err(Error::TargetExists)));
    assert_eq!(again.id, 0);
    assert_eq!(db.get_groupid_by_name("team").unwrap(), Some(team.id));
    assert!(db.get_groupid_by_name("other").unwrap().is_none());
    assert!(db.get_group(team.id + 1).unwrap().is_none());
}

#[test]
fn group_record_has_the_documented_layout() {
    let (sled_db, mut db) = open_db();
    db.insert_user(&user(7, "ada")).unwrap();
    db.insert_user(&user(8, "bob")).unwrap();
    let mut team = group("team", vec![7, 8], vec![8]);
    db.insert_new_group(&mut team).unwrap();
    let groups = sled_db.open_tree("group").unwrap();
    assert_eq!(
        groups.get(key(team.id)).unwrap().unwrap().to_vec(),
        encode_group(&[7, 8], &[8], "team").unwrap()
    );
    let names = sled_db.open_tree("groupnames_ids").unwrap();
    assert_eq!(names.get(b"team").unwrap().unwrap().to_vec(), key(team.id).to_vec());
    let listed = sled_db.open_tree("user_groups").unwrap();
    assert_eq!(listed.get(key(7)).unwrap().unwrap().to_vec(), key(team.id).to_vec());
    assert_eq!(listed.get(key(8)).unwrap().unwrap().to_vec(), key(team.id).to_vec());
}

#[test]
fn group_with_unknown_user_is_refused() {
    let (sled_db, mut db) = open_db();
    db.insert_user(&user(7, "ada")).unwrap();
    let mut team = group("team", vec![7, 9], vec![]);
    assert!(matches!(db.insert_new_group(&mut team), Err(Error::NoSuchTarget)));
    assert_eq!(team.id, 0);
    let mut team = group("team", vec![7], vec![9]);
    assert!(matches!(db.insert_new_group(&mut team), Err(Error::NoSuchTarget)));
    assert!(db.get_groupid_by_name("team").unwrap().is_none());
    assert_eq!(sled_db.open_tree("group").unwrap().len(), 0);
    assert_eq!(sled_db.open_tree("user_groups").unwrap().len(), 0);
    assert!(db.get_user(7).unwrap().unwrap().group_ids.is_empty());
}

#[test]
fn group_that_is_too_large_is_refused() {
    let (_sled_db, mut db) = open_db();
    let mut team = group("team", vec![7; 65536], vec![]);
    assert!(matches!(db.insert_new_group(&mut team), Err(Error::BadCall)));
    let mut team = group("team", vec![], vec![7; 65536]);
    assert!(matches!(db.insert_new_group(&mut team), Err(Error::BadCall)));
    team.id = 5;
    assert!(matches!(db.insert_group(&team), Err(Error::BadCall)));
    assert!(db.get_groupid_by_name("team").unwrap().is_none());
}

#[test]
fn groups_of_a_user_are_those_that_count_them_as_member() {
    let (sled_db, mut db) = open_db();
    db.insert_user(&user(7, "ada")).unwrap();
    db.insert_user(&user(8, "bob")).unwrap();
    let mut a = group("a", vec![7, 8], vec![]);
    let mut b = group("b", vec![8], vec![7]);
    let mut c = group("c", vec![7], vec![7]);
    db.insert_new_group(&mut a).unwrap();
    db.insert_new_group(&mut b).unwrap();
    db.insert_new_group(&mut c).unwrap();
    assert_eq!(db.get_user(7).unwrap().unwrap().group_ids, vec![a.id, c.id]);
    assert_eq!(db.get_user(8).unwrap().unwrap().group_ids, vec![a.id, b.id]);
    let listed = sled_db.open_tree("user_groups").unwrap();
    let mut expected = key(a.id).to_vec();
    expected.extend(key(b.id));
    expected.extend(key(c.id));
    assert_eq!(listed.get(key(7)).unwrap().unwrap().to_vec(), expected);
    let mut with_stale = expected.clone();
    with_stale.extend(key(4242));
    listed.insert(key(7), with_stale).unwrap();
    assert_eq!(db.get_user(7).unwrap().unwrap().group_ids, vec![a.id, c.id]);
    sled_db.open_tree("group").unwrap().insert(key(c.id), vec![9]).unwrap();
    assert!(matches!(db.get_user(7), Err(Error::EncodingError)));
    assert!(matches!(db.get_group(c.id), Err(Error::EncodingError)));
}

#[test]
fn list_of_groups_that_is_cut_short_is_reported() {
    let (sled_db, mut db) = open_db();
    db.insert_user(&user(7, "ada")).unwrap();
    let listed = sled_db.open_tree("user_groups").unwrap();
    listed.insert(key(7), vec![1, 2, 3]).unwrap();
    let mut team = group("team", vec![7], vec![]);
    assert!(matches!(db.insert_new_group(&mut team), Err(Error::EncodingError)));
    assert!(db.get_groupid_by_name("team").unwrap().is_none());
    assert_eq!(listed.get(key(7)).unwrap().unwrap().to_vec(), vec![1, 2, 3]);
    assert!(db.get_user(7).unwrap().unwrap().group_ids.is_empty());
}

#[test]
fn group_is_replaced_by_identifier() {
    let (sled_db, mut db) = open_db();
    db.insert_user(&user(7, "ada")).unwrap();
    db.insert_user(&user(8, "bob")).unwrap();
    let mut team = group("team", vec![7], vec![7]);
    db.insert_new_group(&mut team).unwrap();
    let mut other = group("other", vec![], vec![]);
    db.insert_new_group(&mut other).unwrap();
    assert_ne!(team.id, other.id);
    team.member_ids.push(8);
    db.insert_group(&team).unwrap();
    assert_eq!(db.get_group(team.id).unwrap().unwrap().member_ids, vec![7, 8]);
    assert_eq!(db.get_user(8).unwrap().unwrap().group_ids, vec![team.id]);
    let listed = sled_db.open_tree("user_groups").unwrap();
    assert_eq!(listed.get(key(7)).unwrap().unwrap().to_vec(), key(team.id).to_vec());
    team.name = "other".to_string();
    assert!(matches!(db.insert_group(&team), Err(Error::TargetExists)));
    assert_eq!(db.get_group(team.id).unwrap().unwrap().name, "team");
    team.name = "renamed".to_string();
    db.insert_group(&team).unwrap();
    assert_eq!(db.get_groupid_by_name("renamed").unwrap(), Some(team.id));
    assert_eq!(db.get_group(team.id).unwrap().unwrap().name, "renamed");
    team.member_ids.push(99);
    assert!(matches!(db.insert_group(&team), Err(Error::NoSuchTarget)));
    assert_eq!(db.get_group(team.id).unwrap().unwrap().member_ids, vec![7, 8]);
    let fixed = Group { id: 555, name: "fixed".to_string(), member_ids: vec![], admin_ids: vec![8] };
    db.insert_group(&fixed).unwrap();
    assert_eq!(db.get_groupid_by_name("fixed").unwrap(), Some(555));
}

#[test]
fn proposed_group_identifier_is_refused_while_in_use() {
    let sled_db = sled::Config::new().temporary(true).open().unwrap();
    let mut users = UserDatabase::init(&sled_db).unwrap();
    let team = group("team", vec![], vec![]);
    assert_eq!(users.insert_group_with_id(true, 0, &team).unwrap(), false);
    assert_eq!(users.insert_group_with_id(true, 5, &team).unwrap(), true);
    assert_eq!(users.get_groupid_by_name("team").unwrap(), Some(5));
    let other = group("other", vec![], vec![]);
    assert_eq!(users.insert_group_with_id(true, 5, &other).unwrap(), false);
    assert!(users.get_groupid_by_name("other").unwrap().is_none());
    assert!(matches!(users.insert_group_with_id(true, 6, &team), Err(Error::TargetExists)));
    assert_eq!(users.insert_group_with_id(true, 6, &other).unwrap(), true);
    assert_eq!(users.get_group(6).unwrap().unwrap().name, "other");
    assert_eq!(users.insert_group_with_id(false, 0, &group("zero", vec![], vec![])).unwrap(), true);
}

#[test]
fn session_is_created_found_and_removed() {
    let (sled_db, mut db) = open_db();
    let session = db.create_user_session(7).unwrap();
    assert_eq!(session.user_id, 7);
    assert_ne!(session.session_id, 0);
    let now = std::time::SystemTime::now()
        .duration_since(std::time::UNIX_EPOCH)
        .unwrap()
        .as_secs() as i64;
    assert!((now - session.creation_date).abs() < 60);
    assert_eq!(db.get_user_session(session.session_id).unwrap(), Some(session));
    let sessions = sled_db.open_tree("sessions").unwrap();
    let mut record = key(7).to_vec();
    record.extend(session.creation_date.to_be_bytes());
    assert_eq!(sessions.get(key(session.session_id)).unwrap().unwrap().to_vec(), record);
    let markers = sled_db.open_tree("user_sessions").unwrap();
    let mut marker = key(7).to_vec();
    marker.extend(key(session.session_id));
    assert_eq!(markers.get(&marker).unwrap().unwrap().to_vec(), Vec::<u8>::new());
    db.remove_user_session(session.session_id).unwrap();
    assert!(db.get_user_session(session.session_id).unwrap().is_none());
    assert_eq!(sessions.len(), 0);
    assert_eq!(markers.len(), 0);
}

#[test]
fn session_begins_at_the_given_time() {
    let (_sled_db, mut db) = open_db();
    let session = db.create_user_session_at(7, -5).unwrap();
    assert_eq!((session.user_id, session.creation_date), (7, -5));
    assert_ne!(session.session_id, 0);
    assert_eq!(db.get_user_session(session.session_id).unwrap(), Some(session));
    let other = db.create_user_session_at(7, 1_700_000_000).unwrap();
    assert_ne!(other.session_id, session.session_id);
    assert_eq!(other.creation_date, 1_700_000_000);
}

#[test]
fn filter_that_stops_keeps_what_it_did() {
    let (sled_db, mut db) = open_db();
    db.create_session_with_id(1, 7, 10).unwrap().unwrap();
    db.create_session_with_id(3, 7, 10).unwrap().unwrap();
    let mut stale = key(7).to_vec();
    stale.extend(key(2));
    sled_db.open_tree("user_sessions").unwrap().insert(stale, vec![]).unwrap();
    assert!(matches!(db.filter_user_sessions(7, |_| false), Err(Error::InconsistentDbState)));
    assert!(db.get_user_session(1).unwrap().is_none());
    assert!(db.get_user_session(3).unwrap().is_some());
    assert_eq!(sled_db.open_tree("user_sessions").unwrap().len(), 2);
}

#[test]
fn session_removal_is_idempotent() {
    let (sled_db, mut db) = open_db();
    let keep = db.create_user_session(7).unwrap();
    let session = db.create_user_session(7).unwrap();
    assert_ne!(keep.session_id, session.session_id);
    db.remove_user_session(session.session_id).unwrap();
    db.remove_user_session(session.session_id).unwrap();
    db.remove_user_session(424242).unwrap();
    db.remove_user_session(0).unwrap();
    assert_eq!(db.get_user_session(keep.session_id).unwrap(), Some(keep));
    assert_eq!(sled_db.open_tree("sessions").unwrap().len(), 1);
    assert_eq!(sled_db.open_tree("user_sessions").unwrap().len(), 1);
}

#[test]
fn proposed_session_identifier_is_refused_while_in_use() {
    let (_sled_db, mut db) = open_db();
    assert!(db.create_session_with_id(0, 7, 100).unwrap().is_none());
    assert!(db.get_user_session(0).unwrap().is_none());
    let session = db.create_session_with_id(5, 7, -100).unwrap().unwrap();
    assert_eq!(session, UserSession::new(5, 7, -100));
    assert!(db.create_session_with_id(5, 8, 200).unwrap().is_none());
    assert_eq!(db.get_user_session(5).unwrap(), Some(UserSession::new(5, 7, -100)));
    let other = db.create_session_with_id(6, 8, i64::MAX).unwrap().unwrap();
    assert_eq!(db.get_user_session(6).unwrap(), Some(other));
    assert_eq!(other.creation_date, i64::MAX);
}

#[test]
fn sessions_of_a_user_are_filtered() {
    let (sled_db, mut db) = open_db();
    for (id, user, at) in [(1, 7, 10), (2, 7, 20), (3, 8, 10), (4, 7, 30), (5, 8, 30)] {
        db.create_session_with_id(id, user, at).unwrap().unwrap();
    }
    let seen = std::cell::RefCell::new(Vec::new());
    db.filter_user_sessions(7, |s| {
        seen.borrow_mut().push(s);
        s.creation_date >= 20
    })
    .unwrap();
    let mut seen = seen.into_inner();
    seen.sort_by_key(|s| s.session_id);
    assert_eq!(
        seen,
        vec![UserSession::new(1, 7, 10), UserSession::new(2, 7, 20), UserSession::new(4, 7, 30)]
    );
    assert!(db.get_user_session(1).unwrap().is_none());
    for id in [2, 3, 4, 5] {
        assert!(db.get_user_session(id).unwrap().is_some());
    }
    assert_eq!(sled_db.open_tree("user_sessions").unwrap().len(), 4);
    db.filter_user_sessions(9, |_| false).unwrap();
    assert_eq!(sled_db.open_tree("sessions").unwrap().len(), 4);
    db.filter_user_sessions(8, |_| false).unwrap();
    for id in [3, 5] {
        assert!(db.get_user_session(id).unwrap().is_none());
    }
    assert_eq!(sled_db.open_tree("sessions").unwrap().len(), 2);
    assert_eq!(sled_db.open_tree("user_sessions").unwrap().len(), 2);
    db.filter_user_sessions(7, |s| s.is_younger_than(86_400 + 25, 86_400)).unwrap();
    assert!(db.get_user_session(2).unwrap().is_none());
    assert_eq!(db.get_user_session(4).unwrap(), Some(UserSession::new(4, 7, 30)));
}

#[test]
fn broken_sessions_are_reported() {
    let (sled_db, mut db) = open_db();
    db.create_session_with_id(1, 7, 10).unwrap().unwrap();
    let sessions = sled_db.open_tree("sessions").unwrap();
    let markers = sled_db.open_tree("user_sessions").unwrap();
    let good = sessions.insert(key(1), vec![0; 15]).unwrap().unwrap();
    assert!(matches!(db.get_user_session(1), Err(Error::EncodingError)));
    assert!(matches!(db.filter_user_sessions(7, |_| true), Err(Error::EncodingError)));
    sessions.insert(key(1), good).unwrap();
    let mut stale = key(7).to_vec();
    stale.extend(key(99));
    markers.insert(stale.clone(), vec![]).unwrap();
    assert!(matches!(db.filter_user_sessions(7, |_| true), Err(Error::InconsistentDbState)));
    markers.remove(stale).unwrap();
    let mut short = key(7).to_vec();
    short.push(1);
    markers.insert(short, vec![]).unwrap();
    assert!(matches!(db.filter_user_sessions(7, |_| true), Err(Error::EncodingError)));
    assert!(db.get_user_session(1).unwrap().is_some());
}

#[test]
fn facade_reaches_the_tree() {
    let (_sled_db, mut db) = open_db();
    let root = db.insert_root_dir(7, "home").unwrap();
    let mut dir = kasten::models::DirBuilder::new()
        .with_parent_id(root.id)
        .with_owner_id(7)
        .with_name("docs")
        .build();
    dir.child_ids = vec![1, 2];
    db.insert_new_dir(&mut dir).unwrap();
    assert_ne!(dir.id, 0);
    assert!(db.get_dir(dir.id).unwrap().unwrap().child_ids.is_empty());
    let mut file = kasten::models::FileBuilder::new()
        .with_parent_id(dir.id)
        .with_owner_id(7)
        .with_name("a.txt")
        .with_media_type("text/plain")
        .build();
    db.insert_new_file(&mut file).unwrap();
    assert_ne!(file.id, 0);
    let stored = db.get_file(file.id).unwrap().unwrap();
    assert_eq!((stored.name.as_str(), stored.media_type.as_str()), ("a.txt", "text/plain"));
    assert_eq!(db.get_files_by_parent(dir.id).unwrap().len(), 1);
    assert_eq!(db.get_dirs_by_parent(root.id).unwrap()[0].id, dir.id);
    db.add_readable_group(file.id, 5).unwrap();
    db.add_writeable_group(dir.id, 6).unwrap();
    file.name = "b.txt".to_string();
    file.read_group_ids = vec![9];
    db.update_file(&file).unwrap();
    assert_eq!(db.get_file(file.id).unwrap().unwrap().read_group_ids, vec![9]);
    dir.name = "papers".to_string();
    dir.child_ids = vec![];
    db.update_dir(&dir).unwrap();
    let stored = db.get_dir(dir.id).unwrap().unwrap();
    assert_eq!(stored.name, "papers");
    assert_eq!(stored.child_ids, vec![file.id]);
    assert!(stored.write_group_ids.is_empty());
    let mut lost = kasten::models::FileBuilder::new().with_parent_id(4242).build();
    assert!(matches!(db.insert_new_file(&mut lost), Err(Error::NoSuchDir)));
    assert_eq!(lost.id, 0);
    assert_eq!(db.remove_file(file.id).unwrap().name, "b.txt");
    assert_eq!(db.remove_dir(dir.id).unwrap().name, "papers");
    assert!(matches!(db.remove_dir(root.id), Err(Error::ForbiddenAction)));
    assert!(db.get_dir(root.id).unwrap().unwrap().child_ids.is_empty());
}
