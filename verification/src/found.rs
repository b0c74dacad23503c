//! What is stored is found: what the operations on the store do, said once
//! more in terms of what is read from the store afterwards.

use vstd::prelude::*;
use vstd::utf8::*;
use crate::bytes::{be64, be64_value, lemma_be64_round_trip};
use crate::clock::{lemma_stamp_round_trip, stamp_bits};
use crate::codec::{count_at, file_storable, group_bytes, id_list_at, is_perm_record,
    lemma_dir_round_trip, lemma_file_round_trip, lemma_group_round_trip, lemma_id_list_at_suffix,
    lemma_list_push, lemma_permissions_round_trip, lemma_text_round_trip, parse_dir,
    read_groups_of, text_of, write_groups_of};
use crate::database::session_at;
use crate::error::Error;
use crate::fs_db::{children_at, dir_at, dir_fits, file_at, file_fits, insert_dir_step,
    insert_file_step, insert_root_dir_step, new_dir, new_file, store_dir_step, store_file_step};
use crate::fs_ops::{add_group_step, DIRS, FILES, lemma_sweep_dir, lemma_sweep_done,
    lemma_sweep_leaf, PERMS, remove_dir_step, remove_file_step, sweep};
use crate::laws::{lemma_keys_differ, lemma_pushed_record, within};
use crate::models::{DirView, FileView, GroupView, UserSession};
use crate::ops::{done, ReplyView};
use crate::session_ops::create_session_step;
use crate::store::{lookup, Table};
use crate::user_db::{group_at, group_fits, id_by_name, member_groups, store_group_step,
    store_user_step, user_at};
use crate::user_ops::{GROUPNAME_ID, GROUPS, groups_listed, link_user, link_users, plain_ids,
    USERID_NAME, USERID_PWD, USERID_ROOTDIR, USERNAME_ID};

verus! {

/// A file that was inserted is found as it was inserted, and its parent
/// lists it after the children that it had.
pub proof fn law_inserted_file_is_found(
    s: Seq<Table>,
    after: Seq<Table>,
    id: u64,
    parent_id: u64,
    owner_id: u64,
    name: Seq<char>,
    media_type: Seq<char>,
)
    requires
        s.len() == 3,
        file_storable(new_file(id, parent_id, owner_id, name, media_type)),
        insert_file_step(s, id, parent_id, owner_id, name, media_type) == done(
            ReplyView::Done,
            after,
        ),
    ensures
        file_at(after, id) == Ok::<Option<FileView>, Error>(
            Some(new_file(id, parent_id, owner_id, name, media_type)),
        ),
        children_at(s, parent_id) is Ok,
        children_at(after, parent_id) == Ok::<Seq<u64>, Error>(
            (children_at(s, parent_id)->Ok_0).push(id),
        ),
        forall|x: u64| x != id ==> file_at(after, x) == file_at(s, x),
{
    reveal(file_at);
    lemma_keys_differ();
    lemma_file_round_trip(new_file(id, parent_id, owner_id, name, media_type));
    lemma_pushed_record(s[DIRS as int][be64(parent_id)], id);
}

/// A directory that was inserted is found as it was inserted, empty, and its
/// parent lists it after the children that it had.
pub proof fn law_inserted_dir_is_found(
    s: Seq<Table>,
    after: Seq<Table>,
    id: u64,
    parent_id: u64,
    owner_id: u64,
    name: Seq<char>,
)
    requires
        s.len() == 3,
        insert_dir_step(s, id, parent_id, owner_id, name) == done(ReplyView::Done, after),
    ensures
        dir_at(after, id) == Ok::<Option<DirView>, Error>(
            Some(new_dir(id, parent_id, owner_id, name)),
        ),
        children_at(s, parent_id) is Ok,
        children_at(after, parent_id) == Ok::<Seq<u64>, Error>(
            (children_at(s, parent_id)->Ok_0).push(id),
        ),
{
    reveal(dir_at);
    lemma_keys_differ();
    lemma_dir_round_trip(new_dir(id, parent_id, owner_id, name));
    lemma_pushed_record(s[DIRS as int][be64(parent_id)], id);
}

/// A root directory that was inserted is found as it was inserted: empty,
/// and without a parent.
pub proof fn law_inserted_root_is_found(
    s: Seq<Table>,
    after: Seq<Table>,
    id: u64,
    owner_id: u64,
    name: Seq<char>,
)
    requires
        s.len() == 3,
        insert_root_dir_step(s, id, owner_id, name) == done(ReplyView::Done, after),
    ensures
        dir_at(after, id) == Ok::<Option<DirView>, Error>(Some(new_dir(id, 0, owner_id, name))),
{
    reveal(dir_at);
    lemma_dir_round_trip(new_dir(id, 0, owner_id, name));
}

/// A file that was updated is found as it was given.
pub proof fn law_updated_file_is_found(s: Seq<Table>, after: Seq<Table>, f: FileView)
    requires
        s.len() == 3,
        file_fits(f),
        store_file_step(s, f) == done(ReplyView::Done, after),
    ensures
        file_at(after, f.id) == Ok::<Option<FileView>, Error>(Some(f)),
{
    reveal(file_at);
    lemma_file_round_trip(f);
}

/// The record of a directory with a new parent, owner and name stands for
/// a directory with these, and with the children of the record that it was
/// made from.
pub proof fn lemma_dir_rewritten(
    stored: Seq<u8>,
    id: u64,
    parent_id: u64,
    owner_id: u64,
    name: Seq<char>,
)
    requires
        id_list_at(stored, 16) is Some,
    ensures
        parse_dir(id, crate::fs_ops::dir_rewritten(stored, parent_id, owner_id, encode_utf8(name)))
            == Some(
            DirView {
                id,
                parent_id,
                owner_id,
                read_group_ids: Seq::empty(),
                write_group_ids: Seq::empty(),
                child_ids: id_list_at(stored, 16)->0,
                name,
            },
        ),
{
    let record = crate::fs_ops::dir_rewritten(stored, parent_id, owner_id, encode_utf8(name));
    let n = count_at(stored, 16);
    assert(record.len() == 18 + 8 * n + encode_utf8(name).len());
    assert(record.subrange(16, 18) =~= stored.subrange(16, 18));
    assert(count_at(record, 16) == n);
    let kept = id_list_at(stored, 16)->0;
    let got = id_list_at(record, 16)->0;
    assert forall|i: int| 0 <= i < n implies #[trigger] got[i] == kept[i] by {
        assert(record.subrange(18 + 8 * i, 18 + 8 * i + 8) =~= stored.subrange(
            18 + 8 * i,
            18 + 8 * i + 8,
        ));
    }
    assert(got =~= kept);
    assert(record.skip(18 + 8 * n) =~= encode_utf8(name));
    lemma_text_round_trip(name);
    assert(record.subrange(0, 8) =~= be64(parent_id));
    assert(record.subrange(8, 16) =~= be64(owner_id));
    lemma_be64_round_trip(parent_id);
    lemma_be64_round_trip(owner_id);
}

/// A directory that was updated is found as it was given, but with the
/// children that it had.
pub proof fn law_updated_dir_keeps_children(s: Seq<Table>, after: Seq<Table>, d: DirView)
    requires
        s.len() == 3,
        dir_fits(d),
        store_dir_step(s, d) == done(ReplyView::Done, after),
    ensures
        children_at(s, d.id) is Ok,
        dir_at(after, d.id) == Ok::<Option<DirView>, Error>(
            Some(DirView { child_ids: children_at(s, d.id)->Ok_0, ..d }),
        ),
{
    reveal(dir_at);
    lemma_permissions_round_trip(d.read_group_ids, d.write_group_ids);
    lemma_dir_rewritten(s[DIRS as int][be64(d.id)], d.id, d.parent_id, d.owner_id, d.name);
}

/// A group that was let read or write a node is, from then on, the last of
/// the groups that may do so; the other list stays as it was.
pub proof fn law_added_group_is_listed(
    s: Seq<Table>,
    after: Seq<Table>,
    node_id: u64,
    group_id: u64,
    write: bool,
)
    requires
        s.len() == 3,
        add_group_step(s, node_id, group_id, write) == done(ReplyView::Done, after),
    ensures
        ({
            let before = s[PERMS as int][be64(node_id)];
            let record = after[PERMS as int][be64(node_id)];
            &&& s[PERMS as int].contains_key(be64(node_id))
            &&& is_perm_record(before)
            &&& after[PERMS as int].contains_key(be64(node_id))
            &&& read_groups_of(record) == Some(
                if write {
                    read_groups_of(before)->0
                } else {
                    (read_groups_of(before)->0).push(group_id)
                },
            )
            &&& write_groups_of(record) == Some(
                if write {
                    (write_groups_of(before)->0).push(group_id)
                } else {
                    write_groups_of(before)->0
                },
            )
            &&& after[FILES as int] == s[FILES as int]
            &&& after[DIRS as int] == s[DIRS as int]
        }),
{
    let before = s[PERMS as int][be64(node_id)];
    let record = after[PERMS as int][be64(node_id)];
    let n = count_at(before, 0);
    if write {
        let at = 2 + 8 * n;
        lemma_list_push(before, at, group_id);
        assert(record.subrange(0, 2) =~= record.subrange(0, at).subrange(0, 2));
        assert(before.subrange(0, 2) =~= before.subrange(0, at).subrange(0, 2));
        assert(count_at(record, 0) == n);
        let was = read_groups_of(before)->0;
        let got = read_groups_of(record)->0;
        assert forall|i: int| 0 <= i < n implies #[trigger] got[i] == was[i] by {
            assert(record.subrange(2 + 8 * i, 2 + 8 * i + 8) =~= record.subrange(0, at).subrange(
                2 + 8 * i,
                2 + 8 * i + 8,
            ));
            assert(before.subrange(2 + 8 * i, 2 + 8 * i + 8) =~= before.subrange(0, at).subrange(
                2 + 8 * i,
                2 + 8 * i + 8,
            ));
        }
        assert(got =~= was);
    } else {
        lemma_list_push(before, 0, group_id);
        lemma_id_list_at_suffix(record, 2 + 8 * (n + 1), before, 2 + 8 * n);
    }
}

/// A file that was removed is found no more, and its parent lists the
/// children that it had but for the file.
pub proof fn law_removed_file_is_gone(s: Seq<Table>, id: u64)
    requires
        s.len() == 3,
        remove_file_step(s, id).reply is Ok,
    ensures
        file_at(remove_file_step(s, id).tables, id) == Ok::<Option<FileView>, Error>(None),
        !remove_file_step(s, id).tables[FILES as int].contains_key(be64(id)),
{
    reveal(file_at);
}

/// Removing from a stack only removes: what the trees hold afterwards, they
/// held before.
pub proof fn lemma_sweep_only_removes(files: Table, dirs: Table, perms: Table, stack: Seq<u64>)
    requires
        dirs.dom().finite(),
        sweep(files, dirs, perms, stack) is Some,
    ensures
        within((sweep(files, dirs, perms, stack)->0).0, files),
        within((sweep(files, dirs, perms, stack)->0).1, dirs),
        within((sweep(files, dirs, perms, stack)->0).2, perms),
    decreases dirs.dom().len(), stack.len(),
{
    if stack.len() == 0 {
        assert(stack =~= Seq::empty());
        lemma_sweep_done(files, dirs, perms);
    } else {
        let key = be64(stack.last());
        if dirs.contains_key(key) {
            lemma_sweep_dir(files, dirs, perms, stack);
            lemma_sweep_only_removes(
                files,
                dirs.remove(key),
                perms.remove(key),
                stack.drop_last() + (id_list_at(dirs[key], 16)->0),
            );
        } else {
            lemma_sweep_leaf(files, dirs, perms, stack);
            lemma_sweep_only_removes(files.remove(key), dirs, perms.remove(key), stack.drop_last());
        }
    }
}

/// A directory that was removed is found no more, and nothing is stored
/// that was not stored before.
pub proof fn law_removed_dir_is_gone(s: Seq<Table>, id: u64)
    requires
        s.len() == 3,
        s[DIRS as int].dom().finite(),
        remove_dir_step(s, id).reply is Ok,
    ensures
        !remove_dir_step(s, id).tables[DIRS as int].contains_key(be64(id)),
        dir_at(remove_dir_step(s, id).tables, id) == Ok::<Option<DirView>, Error>(None),
        within(remove_dir_step(s, id).tables[FILES as int], s[FILES as int]),
        within(remove_dir_step(s, id).tables[PERMS as int], s[PERMS as int]),
        forall|k: Seq<u8>| #[trigger]
            remove_dir_step(s, id).tables[DIRS as int].contains_key(k) ==> s[DIRS as int].contains_key(
                k,
            ),
{
    reveal(dir_at);
    let record = s[DIRS as int][be64(id)];
    let parent = crate::fs_ops::parent_in(record);
    let s1 = crate::fs_ops::unlink_step(s, parent, id)->Ok_0;
    let s2 = crate::fs_ops::del(s1, DIRS as int, id);
    lemma_sweep_only_removes(
        s2[FILES as int],
        s2[DIRS as int],
        s2[PERMS as int],
        id_list_at(record, 16)->0,
    );
}

/// A group that was stored is found as it was given, under its identifier
/// and under its name.
pub proof fn law_stored_group_is_found(
    s: Seq<Table>,
    after: Seq<Table>,
    fresh: bool,
    id: u64,
    g: GroupView,
)
    requires
        s.len() == 7,
        store_group_step(s, fresh, id, g) == done(ReplyView::Done, after),
    ensures
        group_fits(g),
        lookup(after[GROUPS as int], be64(id)) == Some(
            group_bytes(g.member_ids, g.admin_ids, g.name),
        ),
        group_at(after, id) == Ok::<Option<GroupView>, Error>(Some(GroupView { id, ..g })),
        id_by_name(after[GROUPNAME_ID as int], g.name) == Ok::<Option<u64>, Error>(Some(id)),
{
    reveal(group_at);
    lemma_group_round_trip(GroupView { id, ..g });
    lemma_be64_round_trip(id);
    let s1 = crate::user_ops::set(
        s,
        GROUPS as int,
        be64(id),
        group_bytes(g.member_ids, g.admin_ids, g.name),
    );
    let s2 = crate::user_ops::set(s1, GROUPNAME_ID as int, encode_utf8(g.name), be64(id));
    lemma_links_keep_groups(s2, g.member_ids + g.admin_ids, id);
}

/// Noting a group with its users leaves the groups and their names as they
/// are.
pub proof fn lemma_links_keep_groups(s: Seq<Table>, user_ids: Seq<u64>, group_id: u64)
    requires
        s.len() == 7,
        crate::user_ops::link_users(s, user_ids, group_id) is Ok,
    ensures
        (crate::user_ops::link_users(s, user_ids, group_id)->Ok_0).len() == 7,
        (crate::user_ops::link_users(s, user_ids, group_id)->Ok_0)[GROUPS as int]
            == s[GROUPS as int],
        (crate::user_ops::link_users(s, user_ids, group_id)->Ok_0)[GROUPNAME_ID as int]
            == s[GROUPNAME_ID as int],
    decreases user_ids.len(),
{
    if user_ids.len() > 0 {
        lemma_links_keep_groups(s, user_ids.drop_last(), group_id);
    }
}

/// A list of groups that gains a group holds that group, and the groups
/// that it held.
pub proof fn lemma_plain_ids_grow(b: Seq<u8>, group_id: u64, x: u64)
    requires
        b.len() % 8 == 0,
    ensures
        plain_ids(b + be64(group_id)).contains(group_id),
        plain_ids(b).contains(x) ==> plain_ids(b + be64(group_id)).contains(x),
{
    let n = b.len() as int / 8;
    let longer = b + be64(group_id);
    assert(longer.len() as int / 8 == n + 1);
    assert(longer.subrange(8 * n, 8 * n + 8) =~= be64(group_id));
    lemma_be64_round_trip(group_id);
    assert(plain_ids(longer)[n] == group_id);
    if plain_ids(b).contains(x) {
        let i = choose|i: int| 0 <= i < n && plain_ids(b)[i] == x;
        assert(longer.subrange(8 * i, 8 * i + 8) =~= b.subrange(8 * i, 8 * i + 8));
        assert(plain_ids(longer)[i] == x);
    }
}

/// Noting a group with one user notes it with that user, and keeps what was
/// noted with any user.
pub proof fn lemma_link_user(s: Seq<Table>, user_id: u64, group_id: u64, other: u64, x: u64)
    requires
        s.len() == 7,
        link_user(s, user_id, group_id) is Ok,
    ensures
        (link_user(s, user_id, group_id)->Ok_0).len() == 7,
        plain_ids(groups_listed(link_user(s, user_id, group_id)->Ok_0, user_id)).contains(group_id),
        plain_ids(groups_listed(s, other)).contains(x) ==> plain_ids(
            groups_listed(link_user(s, user_id, group_id)->Ok_0, other),
        ).contains(x),
{
    lemma_keys_differ();
    lemma_plain_ids_grow(groups_listed(s, user_id), group_id, x);
}

/// Noting a group with several users notes it with each of them, and keeps
/// what was noted with any user.
pub proof fn lemma_link_users(s: Seq<Table>, user_ids: Seq<u64>, group_id: u64, other: u64, x: u64)
    requires
        s.len() == 7,
        link_users(s, user_ids, group_id) is Ok,
    ensures
        (link_users(s, user_ids, group_id)->Ok_0).len() == 7,
        user_ids.contains(other) ==> plain_ids(
            groups_listed(link_users(s, user_ids, group_id)->Ok_0, other),
        ).contains(group_id),
        plain_ids(groups_listed(s, other)).contains(x) ==> plain_ids(
            groups_listed(link_users(s, user_ids, group_id)->Ok_0, other),
        ).contains(x),
    decreases user_ids.len(),
{
    if user_ids.len() > 0 {
        let before = user_ids.drop_last();
        let s1 = link_users(s, before, group_id)->Ok_0;
        lemma_link_users(s, before, group_id, other, x);
        lemma_link_users(s, before, group_id, other, group_id);
        lemma_link_user(s1, user_ids.last(), group_id, other, x);
        lemma_link_user(s1, user_ids.last(), group_id, other, group_id);
        if user_ids.contains(other) && other != user_ids.last() {
            let i = choose|i: int| 0 <= i < user_ids.len() && user_ids[i] == other;
            assert(before[i] == other);
        }
    }
}

/// A group that was stored is noted with each of its members and admins,
/// and what was noted with any user before is noted still.
pub proof fn law_stored_group_is_noted(
    s: Seq<Table>,
    after: Seq<Table>,
    fresh: bool,
    id: u64,
    g: GroupView,
    user_id: u64,
    x: u64,
)
    requires
        s.len() == 7,
        store_group_step(s, fresh, id, g) == done(ReplyView::Done, after),
    ensures
        g.member_ids.contains(user_id) || g.admin_ids.contains(user_id) ==> plain_ids(
            groups_listed(after, user_id),
        ).contains(id),
        plain_ids(groups_listed(s, user_id)).contains(x) ==> plain_ids(
            groups_listed(after, user_id),
        ).contains(x),
{
    let s1 = crate::user_ops::set(
        s,
        GROUPS as int,
        be64(id),
        group_bytes(g.member_ids, g.admin_ids, g.name),
    );
    let s2 = crate::user_ops::set(s1, GROUPNAME_ID as int, encode_utf8(g.name), be64(id));
    let all = g.member_ids + g.admin_ids;
    lemma_link_users(s2, all, id, user_id, x);
    if g.member_ids.contains(user_id) {
        let i = choose|i: int| 0 <= i < g.member_ids.len() && g.member_ids[i] == user_id;
        assert(all[i] == user_id);
    }
    if g.admin_ids.contains(user_id) {
        let i = choose|i: int| 0 <= i < g.admin_ids.len() && g.admin_ids[i] == user_id;
        assert(all[g.member_ids.len() + i] == user_id);
    }
}

/// Among the groups of a user are all those of the given groups that are
/// stored and count the user as a member.
pub proof fn lemma_member_groups_hold(s: Seq<Table>, group_ids: Seq<u64>, user_id: u64, id: u64)
    requires
        member_groups(s, group_ids, user_id) is Ok,
        group_ids.contains(id),
        group_at(s, id) matches Ok(Some(g)) && g.member_ids.contains(user_id),
    ensures
        (member_groups(s, group_ids, user_id)->Ok_0).contains(id),
    decreases group_ids.len(),
{
    let before = group_ids.drop_last();
    let found = member_groups(s, before, user_id)->Ok_0;
    if group_ids.last() == id {
        assert(found.push(id)[found.len() as int] == id);
    } else {
        let i = choose|i: int| 0 <= i < group_ids.len() && group_ids[i] == id;
        assert(before[i] == id);
        lemma_member_groups_hold(s, before, user_id, id);
        let w = choose|w: int| 0 <= w < found.len() && found[w] == id;
        assert(found.push(group_ids.last())[w] == id);
    }
}

/// A user who is noted with a group that counts them as a member has the
/// group among their groups.
pub proof fn lemma_member_sees(s: Seq<Table>, id: u64, g: GroupView, user_id: u64)
    requires
        group_at(s, id) == Ok::<Option<GroupView>, Error>(Some(g)),
        g.member_ids.contains(user_id),
        plain_ids(groups_listed(s, user_id)).contains(id),
        user_at(s, user_id) matches Ok(Some(_)),
    ensures
        (user_at(s, user_id)->Ok_0->0).group_ids.contains(id),
{
    reveal(user_at);
    lemma_member_groups_hold(s, plain_ids(groups_listed(s, user_id)), user_id, id);
}

/// A member of a group that was stored has the group among their groups.
pub proof fn law_member_has_the_group(
    s: Seq<Table>,
    after: Seq<Table>,
    fresh: bool,
    id: u64,
    g: GroupView,
    user_id: u64,
)
    requires
        s.len() == 7,
        store_group_step(s, fresh, id, g) == done(ReplyView::Done, after),
        g.member_ids.contains(user_id),
        user_at(after, user_id) matches Ok(Some(_)),
    ensures
        (user_at(after, user_id)->Ok_0->0).group_ids.contains(id),
{
    law_stored_group_is_found(s, after, fresh, id, g);
    law_stored_group_is_noted(s, after, fresh, id, g, user_id, 0);
    lemma_member_sees(after, id, GroupView { id, ..g }, user_id);
}

/// A user that was stored is found under its name, with the name, the
/// password hash and the root directory that it was given.
pub proof fn law_stored_user_is_found(s: Seq<Table>, after: Seq<Table>, u: crate::models::UserView)
    requires
        s.len() == 7,
        store_user_step(s, u) == done(ReplyView::Done, after),
    ensures
        id_by_name(after[USERNAME_ID as int], u.name) == Ok::<Option<u64>, Error>(Some(u.id)),
        lookup(after[USERID_NAME as int], be64(u.id)) == Some(encode_utf8(u.name)),
        text_of(after[USERID_NAME as int][be64(u.id)]) == Some(u.name),
        text_of(after[USERID_PWD as int][be64(u.id)]) == Some(u.pwd_hash),
        be64_value(after[USERID_ROOTDIR as int][be64(u.id)]) == u.root_dir_id,
{
    lemma_be64_round_trip(u.id);
    lemma_be64_round_trip(u.root_dir_id);
    lemma_text_round_trip(u.name);
    lemma_text_round_trip(u.pwd_hash);
}

/// A session that has begun is found as it began.
pub proof fn law_created_session_is_found(
    s: Seq<Table>,
    after: Seq<Table>,
    session: UserSession,
)
    requires
        s.len() == 2,
        create_session_step(
            s,
            session.session_id,
            session.user_id,
            stamp_bits(session.creation_date),
        ) == done(ReplyView::Done, after),
    ensures
        session_at(after, session.session_id) == Ok::<Option<UserSession>, Error>(Some(session)),
{
    let record = after[crate::session_ops::SESSIONS as int][be64(session.session_id)];
    assert(record.subrange(0, 8) =~= be64(session.user_id));
    assert(record.subrange(8, 16) =~= be64(stamp_bits(session.creation_date)));
    lemma_be64_round_trip(session.user_id);
    lemma_be64_round_trip(stamp_bits(session.creation_date));
    lemma_stamp_round_trip(session.creation_date);
}

} // verus!
