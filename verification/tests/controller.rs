use kasten::controller::group::{
    add_admin_ids, add_group, add_member_ids, add_new, get_group_info, update_group_infos,
};
use kasten::controller::user::{add_user, get_user_info, login, update_user_infos, Login};
use kasten::controller::{
    fetch_dir, fetch_file, add_dir, add_file, add_read_permission, add_write_permission, get_dir_info, get_file_info,
    update_dir_infos, update_file_infos,
};
use kasten::database::Database;
use kasten::error::Error;
use kasten::models::{Group, Id, User};
use kasten::msg::{DirMsg, FileMsg, GroupMsg, UserMsg};

struct World {
    db: Database,
    owner: User,
    guest: User,
    root: u64,
}

fn user_msg(name: &str, password: &str) -> UserMsg {
    UserMsg { id: None, name: Some(name.to_string()), password: Some(password.to_string()) }
}

fn dir_msg(parent: Option<u64>, name: Option<&str>) -> DirMsg {
    DirMsg {
        id: None,
        parent_id: parent.map(Id),
        owner_id: None,
        read_group_ids: None,
        write_group_ids: None,
        child_ids: None,
        name: name.map(|n| n.to_string()),
    }
}

fn file_msg(parent: Option<u64>, name: Option<&str>) -> FileMsg {
    FileMsg {
        id: None,
        parent_id: parent.map(Id),
        owner_id: None,
        read_group_ids: None,
        write_group_ids: None,
        name: name.map(|n| n.to_string()),
    }
}

fn world() -> World {
    let sled_db = sled::Config::new().temporary(true).open().unwrap();
    let mut db = Database::init(sled_db).unwrap();
    let owner = add_user(user_msg("ada", "pw"), 1, &mut db).unwrap();
    let guest = add_user(user_msg("bob", "pw"), 1, &mut db).unwrap();
    let root = owner.root_dir_id;
    World { db, owner, guest, root }
}

fn store_group(db: &mut Database, name: &str, member_ids: Vec<u64>, admin_ids: Vec<u64>) -> Group {
    let mut group = Group { id: 0, name: name.to_string(), member_ids, admin_ids };
    db.insert_new_group(&mut group).unwrap();
    group
}

#[test]
fn new_user_gets_a_root_directory() {
    let mut w = world();
    assert_ne!(w.owner.id, 0);
    assert_ne!(w.owner.id, w.guest.id);
    assert_ne!(w.owner.root_dir_id, w.guest.root_dir_id);
    assert_eq!(w.owner.name, "ada");
    assert!(w.owner.pwd_hash.starts_with("$argon2id$"));
    assert!(w.owner.group_ids.is_empty());
    let root = w.db.get_dir(w.root).unwrap().unwrap();
    assert_eq!((root.parent_id, root.owner_id), (0, w.owner.id));
    assert_eq!(root.name, "home");
    assert!(root.child_ids.is_empty());
    let stored = w.db.get_user(w.owner.id).unwrap().unwrap();
    assert_eq!(stored.name, "ada");
    assert_eq!(stored.pwd_hash, w.owner.pwd_hash);
    assert_eq!(stored.root_dir_id, w.root);
    assert_eq!(w.db.get_userid_by_name("ada").unwrap(), Some(w.owner.id));
    assert!(matches!(w.db.remove_dir(w.root), Err(Error::ForbiddenAction)));
}

#[test]
fn new_user_is_checked() {
    let mut w = world();
    assert!(matches!(add_user(user_msg("eve", "pw"), 0, &mut w.db), Err(Error::MissingAuthorization)));
    assert!(matches!(add_user(user_msg("ada", "pw"), 1, &mut w.db), Err(Error::TargetExists)));
    let no_name = UserMsg { id: None, name: None, password: Some("pw".to_string()) };
    assert!(matches!(add_user(no_name, 1, &mut w.db), Err(Error::BadCall)));
    let no_password = UserMsg { id: None, name: Some("eve".to_string()), password: None };
    assert!(matches!(add_user(no_password, 1, &mut w.db), Err(Error::BadCall)));
    let with_id = UserMsg { id: Some(Id(5)), ..user_msg("eve", "pw") };
    assert!(matches!(add_user(with_id, 1, &mut w.db), Err(Error::BadCall)));
    assert!(w.db.get_userid_by_name("eve").unwrap().is_none());
}

#[test]
fn user_is_seen_by_themselves_only() {
    let w = world();
    assert_eq!(get_user_info(w.owner.id, w.owner.id, &w.db).unwrap().name, "ada");
    assert!(matches!(get_user_info(w.owner.id, w.guest.id, &w.db), Err(Error::MissingAuthorization)));
    assert!(matches!(get_user_info(4242, 4242, &w.db), Err(Error::NoSuchTarget)));
    assert!(matches!(get_user_info(4242, w.guest.id, &w.db), Err(Error::NoSuchTarget)));
}

#[test]
fn user_is_changed() {
    let mut w = world();
    let msg = UserMsg { id: Some(Id(w.owner.id)), name: Some("ada2".to_string()), password: None };
    let changed = update_user_infos(msg, 1, &mut w.db).unwrap();
    assert_eq!(changed.name, "ada2");
    assert_eq!(changed.pwd_hash, w.owner.pwd_hash);
    assert_eq!(changed.root_dir_id, w.root);
    assert_eq!(w.db.get_user(w.owner.id).unwrap().unwrap().name, "ada2");
    assert_eq!(w.db.get_userid_by_name("ada2").unwrap(), Some(w.owner.id));
    let msg = UserMsg { id: Some(Id(w.owner.id)), name: None, password: Some("new".to_string()) };
    let changed = update_user_infos(msg, 1, &mut w.db).unwrap();
    assert_ne!(changed.pwd_hash, w.owner.pwd_hash);
    assert_eq!(changed.name, "ada2");
    let msg = UserMsg { id: Some(Id(w.owner.id)), name: Some("ada2".to_string()), password: None };
    assert_eq!(update_user_infos(msg, 1, &mut w.db).unwrap().name, "ada2");
    let msg = UserMsg { id: Some(Id(w.owner.id)), name: Some("bob".to_string()), password: None };
    assert!(matches!(update_user_infos(msg, 1, &mut w.db), Err(Error::TargetExists)));
    let msg = UserMsg { id: Some(Id(w.owner.id)), name: None, password: None };
    assert!(matches!(update_user_infos(msg, 0, &mut w.db), Err(Error::MissingAuthorization)));
    let msg = UserMsg { id: None, name: Some("x".to_string()), password: None };
    assert!(matches!(update_user_infos(msg, 1, &mut w.db), Err(Error::BadCall)));
    let msg = UserMsg { id: Some(Id(4242)), name: Some("x".to_string()), password: None };
    assert!(matches!(update_user_infos(msg, 1, &mut w.db), Err(Error::NoSuchTarget)));
    assert_eq!(w.db.get_user(w.owner.id).unwrap().unwrap().name, "ada2");
}

#[test]
fn directory_is_added_by_who_may_write_the_parent() {
    let mut w = world();
    let docs = add_dir(&mut w.db, dir_msg(Some(w.root), Some("docs")), w.owner.id).unwrap();
    assert_ne!(docs.id, 0);
    assert_eq!((docs.parent_id, docs.owner_id), (w.root, w.owner.id));
    assert_eq!(docs.name, "docs");
    assert_eq!(w.db.get_dir(w.root).unwrap().unwrap().child_ids, vec![docs.id]);
    let unnamed = add_dir(&mut w.db, dir_msg(Some(docs.id), None), w.owner.id).unwrap();
    assert_eq!(unnamed.name, "[new_dir]");
    assert_eq!(w.db.get_dir(unnamed.id).unwrap().unwrap().name, "[new_dir]");
    let refused = add_dir(&mut w.db, dir_msg(Some(w.root), Some("x")), w.guest.id);
    assert!(matches!(refused, Err(Error::MissingAuthorization)));
    assert!(matches!(add_dir(&mut w.db, dir_msg(None, Some("x")), w.owner.id), Err(Error::BadCall)));
    assert!(matches!(add_dir(&mut w.db, dir_msg(Some(4242), None), w.owner.id), Err(Error::NoSuchDir)));
    assert!(matches!(add_dir(&mut w.db, dir_msg(Some(w.root), None), 4242), Err(Error::BadCall)));
    assert_eq!(w.db.get_dir(w.root).unwrap().unwrap().child_ids, vec![docs.id]);
}

#[test]
fn group_member_may_write_where_the_group_may() {
    let mut w = world();
    let team = store_group(&mut w.db, "team", vec![w.guest.id], vec![w.owner.id]);
    let refused = add_file(&mut w.db, file_msg(Some(w.root), Some("f")), w.guest.id);
    assert!(matches!(refused, Err(Error::MissingAuthorization)));
    add_write_permission(w.root, team.id, w.owner.id, &mut w.db).unwrap();
    let file = add_file(&mut w.db, file_msg(Some(w.root), Some("f")), w.guest.id).unwrap();
    assert_eq!((file.parent_id, file.owner_id), (w.root, w.guest.id));
    assert_eq!(file.name, "f");
    assert_eq!(file.media_type, "");
    assert!(matches!(get_dir_info(w.root, Some(w.guest.id), &w.db), Err(Error::MissingAuthorization)));
    add_read_permission(w.root, team.id, w.owner.id, &mut w.db).unwrap();
    let seen = get_dir_info(w.root, Some(w.guest.id), &w.db).unwrap();
    assert_eq!(seen.child_ids, vec![file.id]);
    assert_eq!(seen.read_group_ids, vec![team.id]);
    assert_eq!(seen.write_group_ids, vec![team.id]);
    assert!(matches!(get_file_info(file.id, w.owner.id, &w.db), Err(Error::MissingAuthorization)));
    assert_eq!(get_file_info(file.id, w.guest.id, &w.db).unwrap().name, "f");
}

#[test]
fn nodes_are_read_by_who_may() {
    let mut w = world();
    let file = add_file(&mut w.db, file_msg(Some(w.root), None), w.owner.id).unwrap();
    assert_eq!(file.name, "[new_file]");
    assert_eq!(get_dir_info(w.root, Some(w.owner.id), &w.db).unwrap().id, w.root);
    assert!(matches!(get_dir_info(w.root, None, &w.db), Err(Error::MissingAuthorization)));
    assert!(matches!(get_dir_info(4242, None, &w.db), Err(Error::NoSuchDir)));
    assert!(matches!(get_dir_info(4242, Some(w.owner.id), &w.db), Err(Error::NoSuchDir)));
    assert!(matches!(get_dir_info(w.root, Some(4242), &w.db), Err(Error::BadCall)));
    assert_eq!(get_file_info(file.id, w.owner.id, &w.db).unwrap().id, file.id);
    assert!(matches!(get_file_info(file.id, w.guest.id, &w.db), Err(Error::MissingAuthorization)));
    assert!(matches!(get_file_info(4242, w.owner.id, &w.db), Err(Error::NoSuchFile)));
    assert!(matches!(get_file_info(file.id, 4242, &w.db), Err(Error::BadCall)));
    assert!(matches!(add_file(&mut w.db, file_msg(None, None), w.owner.id), Err(Error::BadCall)));
    assert!(matches!(add_file(&mut w.db, file_msg(Some(7), None), w.owner.id), Err(Error::NoSuchDir)));
}

#[test]
fn nodes_are_changed_by_who_may_write_them() {
    let mut w = world();
    let docs = add_dir(&mut w.db, dir_msg(Some(w.root), Some("docs")), w.owner.id).unwrap();
    let file = add_file(&mut w.db, file_msg(Some(docs.id), Some("f")), w.owner.id).unwrap();
    let msg = DirMsg { id: Some(Id(docs.id)), child_ids: Some(vec![]), ..dir_msg(None, Some("papers")) };
    let changed = update_dir_infos(msg, w.owner.id, &mut w.db).unwrap();
    assert_eq!(changed.name, "papers");
    assert_eq!(changed.parent_id, w.root);
    assert_eq!(changed.child_ids, vec![file.id]);
    let stored = w.db.get_dir(docs.id).unwrap().unwrap();
    assert_eq!(stored.name, "papers");
    assert_eq!(stored.child_ids, vec![file.id]);
    let msg = DirMsg { id: Some(Id(docs.id)), ..dir_msg(None, Some("x")) };
    assert!(matches!(update_dir_infos(msg, w.guest.id, &mut w.db), Err(Error::MissingAuthorization)));
    assert!(matches!(update_dir_infos(dir_msg(None, Some("x")), w.owner.id, &mut w.db), Err(Error::BadCall)));
    let msg = DirMsg { id: Some(Id(4242)), ..dir_msg(None, Some("x")) };
    assert!(matches!(update_dir_infos(msg, w.owner.id, &mut w.db), Err(Error::NoSuchDir)));
    let msg = FileMsg { id: Some(Id(file.id)), owner_id: Some(Id(w.guest.id)), ..file_msg(None, Some("g")) };
    let changed = update_file_infos(msg, w.owner.id, &mut w.db).unwrap();
    assert_eq!((changed.name.as_str(), changed.owner_id), ("g", w.guest.id));
    let stored = w.db.get_file(file.id).unwrap().unwrap();
    assert_eq!((stored.name.as_str(), stored.owner_id, stored.parent_id), ("g", w.guest.id, docs.id));
    let msg = FileMsg { id: Some(Id(file.id)), ..file_msg(None, Some("h")) };
    assert!(matches!(update_file_infos(msg, w.owner.id, &mut w.db), Err(Error::MissingAuthorization)));
    assert!(matches!(update_file_infos(file_msg(None, None), w.owner.id, &mut w.db), Err(Error::BadCall)));
    let msg = FileMsg { id: Some(Id(4242)), ..file_msg(None, None) };
    assert!(matches!(update_file_infos(msg, w.owner.id, &mut w.db), Err(Error::NoSuchFile)));
    assert_eq!(w.db.get_file(file.id).unwrap().unwrap().name, "g");
}

#[test]
fn permissions_are_given_by_the_owner() {
    let mut w = world();
    let team = store_group(&mut w.db, "team", vec![], vec![]);
    let file = add_file(&mut w.db, file_msg(Some(w.root), Some("f")), w.owner.id).unwrap();
    add_read_permission(file.id, team.id, w.owner.id, &mut w.db).unwrap();
    add_write_permission(file.id, team.id, w.owner.id, &mut w.db).unwrap();
    add_read_permission(file.id, team.id, w.owner.id, &mut w.db).unwrap();
    let stored = w.db.get_file(file.id).unwrap().unwrap();
    assert_eq!(stored.read_group_ids, vec![team.id, team.id]);
    assert_eq!(stored.write_group_ids, vec![team.id]);
    let refused = add_read_permission(file.id, team.id, w.guest.id, &mut w.db);
    assert!(matches!(refused, Err(Error::MissingAuthorization)));
    let refused = add_write_permission(w.root, team.id, w.guest.id, &mut w.db);
    assert!(matches!(refused, Err(Error::MissingAuthorization)));
    assert!(matches!(add_read_permission(file.id, 4242, w.owner.id, &mut w.db), Err(Error::NoSuchTarget)));
    assert!(matches!(add_write_permission(4242, team.id, w.owner.id, &mut w.db), Err(Error::NoSuchTarget)));
    assert_eq!(w.db.get_file(file.id).unwrap().unwrap().read_group_ids.len(), 2);
    assert!(w.db.get_dir(w.root).unwrap().unwrap().write_group_ids.is_empty());
}

#[test]
fn groups_are_added_by_user_zero() {
    let mut w = world();
    let msg = GroupMsg { id: None, name: Some("team".to_string()) };
    assert!(matches!(add_group(msg, w.owner.id, &mut w.db), Err(Error::MissingAuthorization)));
    let msg = GroupMsg { id: None, name: Some("team".to_string()) };
    assert!(matches!(add_group(msg, 0, &mut w.db), Err(Error::NoSuchTarget)));
    w.db.insert_user(&User {
        id: 0,
        name: "root".to_string(),
        pwd_hash: String::new(),
        root_dir_id: w.root,
        group_ids: vec![],
    })
    .unwrap();
    let msg = GroupMsg { id: None, name: Some("team".to_string()) };
    let team = add_group(msg, 0, &mut w.db).unwrap();
    assert_ne!(team.id, 0);
    assert_eq!(team.name, "team");
    assert!(team.member_ids.is_empty());
    assert_eq!(team.admin_ids, vec![0]);
    assert_eq!(w.db.get_groupid_by_name("team").unwrap(), Some(team.id));
    let msg = GroupMsg { id: None, name: Some("team".to_string()) };
    assert!(matches!(add_group(msg, 0, &mut w.db), Err(Error::TargetExists)));
    assert!(matches!(add_group(GroupMsg { id: None, name: None }, 0, &mut w.db), Err(Error::BadCall)));
    let msg = GroupMsg { id: Some(Id(3)), name: Some("x".to_string()) };
    assert!(matches!(add_group(msg, 0, &mut w.db), Err(Error::BadCall)));
}

#[test]
fn groups_are_run_by_their_admins() {
    let mut w = world();
    let third = add_user(user_msg("eve", "pw"), 1, &mut w.db).unwrap();
    let team = store_group(&mut w.db, "team", vec![w.guest.id], vec![w.owner.id]);
    assert_eq!(get_group_info(team.id, w.owner.id, &w.db).unwrap().name, "team");
    assert_eq!(get_group_info(team.id, w.guest.id, &w.db).unwrap().id, team.id);
    assert!(matches!(get_group_info(team.id, third.id, &w.db), Err(Error::MissingAuthorization)));
    assert!(matches!(get_group_info(4242, w.owner.id, &w.db), Err(Error::NoSuchTarget)));
    let msg = GroupMsg { id: Some(Id(team.id)), name: Some("crew".to_string()) };
    let changed = update_group_infos(msg, w.owner.id, &mut w.db).unwrap();
    assert_eq!(changed.name, "crew");
    assert_eq!(w.db.get_group(team.id).unwrap().unwrap().name, "crew");
    assert_eq!(w.db.get_groupid_by_name("crew").unwrap(), Some(team.id));
    let msg = GroupMsg { id: Some(Id(team.id)), name: Some("x".to_string()) };
    assert!(matches!(update_group_infos(msg, w.guest.id, &mut w.db), Err(Error::MissingAuthorization)));
    let msg = GroupMsg { id: None, name: Some("x".to_string()) };
    assert!(matches!(update_group_infos(msg, w.owner.id, &mut w.db), Err(Error::BadCall)));
    let msg = GroupMsg { id: Some(Id(4242)), name: None };
    assert!(matches!(update_group_infos(msg, w.owner.id, &mut w.db), Err(Error::NoSuchTarget)));
    let ids = vec![third.id, w.guest.id, third.id];
    let grown = add_member_ids(team.id, ids, w.owner.id, &mut w.db).unwrap();
    assert_eq!(grown.member_ids, vec![w.guest.id, third.id]);
    assert_eq!(w.db.get_group(team.id).unwrap().unwrap().member_ids, vec![w.guest.id, third.id]);
    assert_eq!(w.db.get_user(third.id).unwrap().unwrap().group_ids, vec![team.id]);
    let grown = add_admin_ids(team.id, vec![third.id, w.owner.id], w.owner.id, &mut w.db).unwrap();
    assert_eq!(grown.admin_ids, vec![w.owner.id, third.id]);
    assert_eq!(add_admin_ids(team.id, vec![], third.id, &mut w.db).unwrap().admin_ids.len(), 2);
    let refused = add_member_ids(team.id, vec![1], w.guest.id, &mut w.db);
    assert!(matches!(refused, Err(Error::MissingAuthorization)));
    assert!(matches!(add_admin_ids(4242, vec![1], w.owner.id, &mut w.db), Err(Error::NoSuchTarget)));
    let refused = add_member_ids(team.id, vec![4242], w.owner.id, &mut w.db);
    assert!(matches!(refused, Err(Error::NoSuchTarget)));
    assert_eq!(w.db.get_group(team.id).unwrap().unwrap().member_ids.len(), 2);
}

#[test]
fn new_items_are_added_once() {
    let mut list = vec![1, 2];
    add_new(&mut list, &vec![2, 3, 3, 1, 4]);
    assert_eq!(list, vec![1, 2, 3, 4]);
    add_new(&mut list, &vec![]);
    assert_eq!(list, vec![1, 2, 3, 4]);
    let mut empty = Vec::new();
    add_new(&mut empty, &vec![5, 5]);
    assert_eq!(empty, vec![5]);
}

#[test]
fn login_takes_the_right_password() {
    let mut w = world();
    assert!(matches!(login(&mut w.db, "nobody", "pw"), Ok(Login::UnknownUser)));
    assert!(matches!(login(&mut w.db, "ada", "wrong"), Ok(Login::WrongPassword)));
    assert!(matches!(login(&mut w.db, "ada", ""), Ok(Login::WrongPassword)));
    let (session, user) = match login(&mut w.db, "ada", "pw") {
        Ok(Login::Granted(session, user)) => (session, user),
        _ => panic!("the password is right"),
    };
    assert_eq!(user.id, w.owner.id);
    assert_eq!(user.name, "ada");
    assert_eq!(session.user_id, w.owner.id);
    assert_ne!(session.session_id, 0);
    assert_eq!(w.db.get_user_session(session.session_id).unwrap(), Some(session));
    let mut broken = w.db.get_user(w.guest.id).unwrap().unwrap();
    broken.pwd_hash = "pw".to_string();
    w.db.insert_user(&broken).unwrap();
    assert!(matches!(login(&mut w.db, "bob", "pw"), Ok(Login::WrongPassword)));
}

#[test]
fn login_ends_the_sessions_of_yesterday() {
    let mut w = world();
    let now = std::time::SystemTime::now()
        .duration_since(std::time::UNIX_EPOCH)
        .unwrap()
        .as_secs() as i64;
    w.db.create_session_with_id(1, w.owner.id, now - 86_400 - 5).unwrap().unwrap();
    w.db.create_session_with_id(2, w.owner.id, now - 86_400 + 3_600).unwrap().unwrap();
    w.db.create_session_with_id(3, w.guest.id, now - 200_000).unwrap().unwrap();
    assert!(matches!(login(&mut w.db, "ada", "wrong"), Ok(Login::WrongPassword)));
    assert!(w.db.get_user_session(1).unwrap().is_some());
    assert!(matches!(login(&mut w.db, "ada", "pw"), Ok(Login::Granted(_, _))));
    assert!(w.db.get_user_session(1).unwrap().is_none());
    assert!(w.db.get_user_session(2).unwrap().is_some());
    assert!(w.db.get_user_session(3).unwrap().is_some());
}

#[test]
fn way_to_the_root() {
    let mut w = world();
    let a = add_dir(&mut w.db, dir_msg(Some(w.root), Some("a")), w.owner.id).unwrap();
    let b = add_dir(&mut w.db, dir_msg(Some(a.id), Some("b")), w.owner.id).unwrap();
    let c = add_dir(&mut w.db, dir_msg(Some(b.id), Some("c")), w.owner.id).unwrap();
    let ids = |path: Vec<kasten::models::Dir>| path.iter().map(|d| d.id).collect::<Vec<u64>>();
    assert_eq!(ids(w.db.path_to_root(c.id, 100).unwrap()), vec![c.id, b.id, a.id, w.root]);
    assert_eq!(ids(w.db.path_to_root(c.id, 4).unwrap()), vec![c.id, b.id, a.id, w.root]);
    assert_eq!(ids(w.db.path_to_root(c.id, 2).unwrap()), vec![c.id, b.id]);
    assert_eq!(ids(w.db.path_to_root(c.id, 0).unwrap()), Vec::<u64>::new());
    assert_eq!(ids(w.db.path_to_root(w.root, 5).unwrap()), vec![w.root]);
    assert_eq!(w.db.path_to_root(b.id, 100).unwrap()[1].name, "a");
    assert!(matches!(w.db.path_to_root(4242, 5), Err(Error::NoSuchDir)));
    let mut lost = w.db.get_dir(a.id).unwrap().unwrap();
    lost.parent_id = 4242;
    w.db.update_dir(&lost).unwrap();
    assert!(matches!(w.db.path_to_root(c.id, 100), Err(Error::NoSuchDir)));
    assert_eq!(ids(w.db.path_to_root(c.id, 3).unwrap()), vec![c.id, b.id, a.id]);
    lost.parent_id = c.id;
    w.db.update_dir(&lost).unwrap();
    assert_eq!(w.db.path_to_root(c.id, 10).unwrap().len(), 10);
}

#[test]
fn login_goes_on_past_a_marker_that_cannot_be_read() {
    let sled_db = sled::Config::new().temporary(true).open().unwrap();
    let mut db = Database::init(sled_db.clone()).unwrap();
    let ada = add_user(user_msg("ada", "pw"), 1, &mut db).unwrap();
    let now = std::time::SystemTime::now()
        .duration_since(std::time::UNIX_EPOCH)
        .unwrap()
        .as_secs() as i64;
    db.create_session_with_id(1, ada.id, now - 200_000).unwrap().unwrap();
    db.create_session_with_id(u64::MAX, ada.id, now - 200_000).unwrap().unwrap();
    let mut stale = ada.id.to_be_bytes().to_vec();
    stale.extend(2u64.to_be_bytes());
    sled_db.open_tree("user_sessions").unwrap().insert(stale, vec![]).unwrap();
    let session = match login(&mut db, "ada", "pw") {
        Ok(Login::Granted(session, _)) => session,
        _ => panic!("the password is right"),
    };
    assert!((session.creation_date - now).abs() < 60);
    assert!(db.get_user_session(1).unwrap().is_none());
    assert!(db.get_user_session(u64::MAX).unwrap().is_some());
    assert_eq!(db.get_user_session(session.session_id).unwrap(), Some(session));
}

#[test]
fn nodes_are_fetched_for_who_may_use_them() {
    let mut w = world();
    let file = add_file(&mut w.db, file_msg(Some(w.root), Some("f")), w.owner.id).unwrap();
    let team = store_group(&mut w.db, "team", vec![w.guest.id], vec![]);
    assert_eq!(fetch_file(&w.db, file.id, w.owner.id, true).unwrap().id, file.id);
    assert!(matches!(fetch_file(&w.db, file.id, w.guest.id, true), Err(Error::MissingAuthorization)));
    assert!(matches!(fetch_file(&w.db, file.id, w.guest.id, false), Err(Error::MissingAuthorization)));
    add_read_permission(file.id, team.id, w.owner.id, &mut w.db).unwrap();
    assert_eq!(fetch_file(&w.db, file.id, w.guest.id, false).unwrap().name, "f");
    assert!(matches!(fetch_file(&w.db, file.id, w.guest.id, true), Err(Error::MissingAuthorization)));
    add_write_permission(file.id, team.id, w.owner.id, &mut w.db).unwrap();
    assert_eq!(fetch_file(&w.db, file.id, w.guest.id, true).unwrap().id, file.id);
    assert!(matches!(fetch_file(&w.db, 4242, w.owner.id, true), Err(Error::NoSuchFile)));
    assert!(matches!(fetch_file(&w.db, file.id, 4242, true), Err(Error::BadCall)));
    assert_eq!(fetch_dir(&w.db, w.root, w.owner.id, true).unwrap().id, w.root);
    assert!(matches!(fetch_dir(&w.db, w.root, w.guest.id, false), Err(Error::MissingAuthorization)));
    assert!(matches!(fetch_dir(&w.db, 4242, w.owner.id, false), Err(Error::NoSuchDir)));
}
