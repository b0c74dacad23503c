//! Partial descriptions of the entities, as a client sends them to ask for a
//! change: only the fields that are given are meant.

use vstd::prelude::*;
use crate::error::Error;
use crate::models::{Dir, DirView, File, FileView, Group, GroupView, Id, User, UserView};
use crate::password::{argon2_hash, hash_password, random_salt};

verus! {

/// A directory of which only some fields may be given.
#[derive(Debug)]
pub struct DirMsg {
    pub id: Option<Id>,
    pub parent_id: Option<Id>,
    pub owner_id: Option<Id>,
    pub read_group_ids: Option<Vec<Id>>,
    pub write_group_ids: Option<Vec<Id>>,
    pub child_ids: Option<Vec<Id>>,
    pub name: Option<String>,
}

/// `given` if there is one, else `kept`.
pub open spec fn id_or(given: Option<Id>, kept: u64) -> u64 {
    match given {
        Some(id) => id.0,
        None => kept,
    }
}

/// `given` if there is one, else `kept`.
pub open spec fn text_or(given: Option<String>, kept: Seq<char>) -> Seq<char> {
    match given {
        Some(s) => s@,
        None => kept,
    }
}

impl DirMsg {
    /// Takes over parent, owner and name, as far as they are given. The
    /// lists of groups and of children are not taken over.
    pub fn apply_changes(self, dir: &mut Dir)
        requires
            id_or(self.id, old(dir).id) == old(dir).id,
        ensures
            final(dir)@ == (DirView {
                parent_id: id_or(self.parent_id, old(dir).parent_id),
                owner_id: id_or(self.owner_id, old(dir).owner_id),
                name: text_or(self.name, old(dir).name@),
                ..old(dir)@
            }),
    {
        if let Some(parent) = self.parent_id {
            dir.parent_id = parent.as_int();
        }
        if let Some(owner) = self.owner_id {
            dir.owner_id = owner.as_int();
        }
        if let Some(name) = self.name {
            dir.name = name;
        }
    }
}

/// A file of which only some fields may be given.
#[derive(Debug)]
pub struct FileMsg {
    pub id: Option<Id>,
    pub parent_id: Option<Id>,
    pub owner_id: Option<Id>,
    pub read_group_ids: Option<Vec<Id>>,
    pub write_group_ids: Option<Vec<Id>>,
    pub name: Option<String>,
}

impl FileMsg {
    /// Takes over parent, owner and name, as far as they are given. The
    /// lists of groups are not taken over.
    pub fn apply_changes(self, file: &mut File)
        requires
            id_or(self.id, old(file).id) == old(file).id,
        ensures
            final(file)@ == (FileView {
                parent_id: id_or(self.parent_id, old(file).parent_id),
                owner_id: id_or(self.owner_id, old(file).owner_id),
                name: text_or(self.name, old(file).name@),
                ..old(file)@
            }),
    {
        if let Some(parent) = self.parent_id {
            file.parent_id = parent.as_int();
        }
        if let Some(owner) = self.owner_id {
            file.owner_id = owner.as_int();
        }
        if let Some(name) = self.name {
            file.name = name;
        }
    }
}

/// A user of whom only some fields may be given.
#[derive(Debug)]
pub struct UserMsg {
    pub id: Option<Id>,
    pub name: Option<String>,
    pub password: Option<String>,
}

/// The user after the name and the password of a message were taken over,
/// as far as they are given, the password hashed under `salt`; `None` where
/// the password cannot be hashed.
pub open spec fn user_changed(
    name: Option<String>,
    password: Option<String>,
    salt: Seq<char>,
    user: UserView,
) -> Option<UserView> {
    match password {
        None => Some(UserView { name: text_or(name, user.name), ..user }),
        Some(p) => match argon2_hash(p@, salt) {
            None => None,
            Some(hash) => Some(UserView { name: text_or(name, user.name), pwd_hash: hash, ..user }),
        },
    }
}

impl UserMsg {
    /// Takes over the name and the password, as far as they are given; of
    /// the password its hash under `salt` is kept. A password that cannot be
    /// hashed is refused with `BadCall`, and the user left as it was.
    pub fn apply_changes_with_salt(self, user: &mut User, salt: &str) -> (r: Result<(), Error>)
        requires
            id_or(self.id, old(user).id) == old(user).id || old(user).id == 0,
        ensures
            match r {
                Ok(_) => user_changed(self.name, self.password, salt@, old(user)@) == Some(
                    final(user)@,
                ),
                Err(e) => e is BadCall && user_changed(self.name, self.password, salt@, old(user)@)
                    is None && final(user)@ == old(user)@,
            },
    {
        if let Some(password) = self.password {
            match hash_password(password.as_str(), salt) {
                Some(hash) => {
                    user.pwd_hash = hash;
                },
                None => {
                    return Err(Error::BadCall);
                },
            }
        }
        if let Some(name) = self.name {
            user.name = name;
        }
        Ok(())
    }

    /// Takes over the name and the password, as far as they are given; of
    /// the password its hash under a new random salt is kept. Without a
    /// password there is nothing to hash, and nothing that can fail; a
    /// password that cannot be hashed under the salt that was drawn is
    /// refused with `BadCall`, and the user left as it was.
    pub fn apply_changes(self, user: &mut User) -> (r: Result<(), Error>)
        requires
            id_or(self.id, old(user).id) == old(user).id || old(user).id == 0,
        ensures
            self.password is None ==> r is Ok,
            match r {
                Ok(_) => exists|salt: Seq<char>| #[trigger]
                    user_changed(self.name, self.password, salt, old(user)@) == Some(final(user)@),
                Err(e) => {
                    &&& e is BadCall
                    &&& final(user)@ == old(user)@
                    &&& exists|salt: Seq<char>| #[trigger]
                        user_changed(self.name, self.password, salt, old(user)@) is None
                },
            },
    {
        let salt = random_salt();
        self.apply_changes_with_salt(user, salt.as_str())
    }
}

/// A group of which only some fields may be given.
#[derive(Debug)]
pub struct GroupMsg {
    pub id: Option<Id>,
    pub name: Option<String>,
}

impl GroupMsg {
    /// Takes over the name, if it is given.
    pub fn apply_changes(self, group: &mut Group)
        requires
            id_or(self.id, old(group).id) == old(group).id || old(group).id == 0,
        ensures
            final(group)@ == (GroupView { name: text_or(self.name, old(group).name@), ..old(group)@ }),
    {
        if let Some(name) = self.name {
            group.name = name;
        }
    }
}

/// The group that a message describes: without members and admins, with
/// identifier 0 and a makeshift name where the message gives none.
pub open spec fn group_described(id: Option<Id>, name: Option<String>) -> GroupView {
    GroupView {
        id: id_or(id, 0),
        name: text_or(name, "[MISSING_NAME]"@),
        member_ids: Seq::empty(),
        admin_ids: Seq::empty(),
    }
}

impl Group {
    /// The group that the message describes.
    pub fn from_msg(item: GroupMsg) -> (g: Group)
        ensures
            g@ == group_described(item.id, item.name),
    {
        let id = match item.id {
            Some(id) => id.as_int(),
            None => 0,
        };
        let name = match item.name {
            Some(name) => name,
            None => "[MISSING_NAME]".to_owned(),
        };
        Group { id, name, member_ids: Vec::new(), admin_ids: Vec::new() }
    }
}

} // verus!
