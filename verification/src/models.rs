//! The entities that the engine stores: files and directories, users and
//! groups, sessions.

use vstd::prelude::*;
use vstd::string::*;

verus! {

/// A file: a leaf of the tree. Only its metadata lives here.
#[derive(Debug)]
pub struct File {
    pub id: u64,
    pub parent_id: u64,
    pub owner_id: u64,
    pub read_group_ids: Vec<u64>,
    pub write_group_ids: Vec<u64>,
    pub name: String,
    pub media_type: String,
}

/// A file as a mathematical value.
pub struct FileView {
    pub id: u64,
    pub parent_id: u64,
    pub owner_id: u64,
    pub read_group_ids: Seq<u64>,
    pub write_group_ids: Seq<u64>,
    pub name: Seq<char>,
    pub media_type: Seq<char>,
}

impl View for File {
    type V = FileView;

    open spec fn view(&self) -> FileView {
        FileView {
            id: self.id,
            parent_id: self.parent_id,
            owner_id: self.owner_id,
            read_group_ids: self.read_group_ids@,
            write_group_ids: self.write_group_ids@,
            name: self.name@,
            media_type: self.media_type@,
        }
    }
}

impl DeepView for File {
    type V = FileView;

    open spec fn deep_view(&self) -> FileView {
        self@
    }
}

/// A directory. `parent_id` is 0 for a user's root directory and for no other.
#[derive(Clone, Debug)]
pub struct Dir {
    pub id: u64,
    pub parent_id: u64,
    pub owner_id: u64,
    pub read_group_ids: Vec<u64>,
    pub write_group_ids: Vec<u64>,
    pub child_ids: Vec<u64>,
    pub name: String,
}

/// A directory as a mathematical value.
pub struct DirView {
    pub id: u64,
    pub parent_id: u64,
    pub owner_id: u64,
    pub read_group_ids: Seq<u64>,
    pub write_group_ids: Seq<u64>,
    pub child_ids: Seq<u64>,
    pub name: Seq<char>,
}

impl View for Dir {
    type V = DirView;

    open spec fn view(&self) -> DirView {
        DirView {
            id: self.id,
            parent_id: self.parent_id,
            owner_id: self.owner_id,
            read_group_ids: self.read_group_ids@,
            write_group_ids: self.write_group_ids@,
            child_ids: self.child_ids@,
            name: self.name@,
        }
    }
}

impl DeepView for Dir {
    type V = DirView;

    open spec fn deep_view(&self) -> DirView {
        self@
    }
}

/// A user, with the groups that count them as a member.
#[derive(Debug)]
pub struct User {
    pub id: u64,
    pub name: String,
    pub pwd_hash: String,
    pub root_dir_id: u64,
    pub group_ids: Vec<u64>,
}

/// A user as a mathematical value.
pub struct UserView {
    pub id: u64,
    pub name: Seq<char>,
    pub pwd_hash: Seq<char>,
    pub root_dir_id: u64,
    pub group_ids: Seq<u64>,
}

impl View for User {
    type V = UserView;

    open spec fn view(&self) -> UserView {
        UserView {
            id: self.id,
            name: self.name@,
            pwd_hash: self.pwd_hash@,
            root_dir_id: self.root_dir_id,
            group_ids: self.group_ids@,
        }
    }
}

impl DeepView for User {
    type V = UserView;

    open spec fn deep_view(&self) -> UserView {
        self@
    }
}

/// A named group of users, some of them its admins.
#[derive(Debug)]
pub struct Group {
    pub id: u64,
    pub name: String,
    pub member_ids: Vec<u64>,
    pub admin_ids: Vec<u64>,
}

/// A group as a mathematical value.
pub struct GroupView {
    pub id: u64,
    pub name: Seq<char>,
    pub member_ids: Seq<u64>,
    pub admin_ids: Seq<u64>,
}

impl View for Group {
    type V = GroupView;

    open spec fn view(&self) -> GroupView {
        GroupView {
            id: self.id,
            name: self.name@,
            member_ids: self.member_ids@,
            admin_ids: self.admin_ids@,
        }
    }
}

impl DeepView for Group {
    type V = GroupView;

    open spec fn deep_view(&self) -> GroupView {
        self@
    }
}

/// A session: a user who has logged in, and when.
#[derive(Clone, Copy, Debug, PartialEq, Eq, Structural)]
pub struct UserSession {
    pub session_id: u64,
    pub user_id: u64,
    /// The second in which the session began, counted from 1970 in UTC.
    pub creation_date: i64,
}

impl UserSession {
    pub fn new(session_id: u64, user_id: u64, creation_date: i64) -> (s: UserSession)
        ensures
            s == (UserSession { session_id, user_id, creation_date }),
    {
        UserSession { session_id, user_id, creation_date }
    }

    /// Whether the session began less than `seconds` before `now`.
    pub open spec fn spec_is_younger_than(self, now: i64, seconds: i64) -> bool {
        now - self.creation_date < seconds
    }

    /// Whether the session began less than `seconds` before `now`.
    pub fn is_younger_than(&self, now: i64, seconds: i64) -> (b: bool)
        ensures
            b == self.spec_is_younger_than(now, seconds),
    {
        (now as i128) - (self.creation_date as i128) < seconds as i128
    }
}

impl DeepView for UserSession {
    type V = UserSession;

    open spec fn deep_view(&self) -> UserSession {
        *self
    }
}

/// Whether `x` occurs in `list`.
pub fn contains_id(list: &Vec<u64>, x: u64) -> (b: bool)
    ensures
        b == list@.contains(x),
{
    let mut i: usize = 0;
    while i < list.len()
        invariant
            i <= list@.len(),
            forall|j: int| 0 <= j < i ==> list@[j] != x,
        decreases list@.len() - i,
    {
        if list[i] == x {
            return true;
        }
        i += 1;
    }
    false
}

impl Group {
    /// Whether `user_id` is a member of the group.
    pub fn contains_user(&self, user_id: u64) -> (b: bool)
        ensures
            b == self@.member_ids.contains(user_id),
    {
        contains_id(&self.member_ids, user_id)
    }

    /// Whether `user_id` is an admin of the group.
    pub fn contains_admin(&self, user_id: u64) -> (b: bool)
        ensures
            b == self@.admin_ids.contains(user_id),
    {
        contains_id(&self.admin_ids, user_id)
    }
}

/// A new file before anything is known of it.
pub open spec fn default_file() -> FileView {
    FileView {
        id: 0,
        parent_id: 0,
        owner_id: 0,
        read_group_ids: Seq::empty(),
        write_group_ids: Seq::empty(),
        name: "[new_file]"@,
        media_type: ""@,
    }
}

/// A new directory before anything is known of it.
pub open spec fn default_dir() -> DirView {
    DirView {
        id: 0,
        parent_id: 0,
        owner_id: 0,
        read_group_ids: Seq::empty(),
        write_group_ids: Seq::empty(),
        child_ids: Seq::empty(),
        name: "[new_dir]"@,
    }
}

impl Default for File {
    fn default() -> (f: File)
        ensures
            f@ == default_file(),
    {
        File {
            id: 0,
            parent_id: 0,
            owner_id: 0,
            read_group_ids: Vec::new(),
            write_group_ids: Vec::new(),
            name: "[new_file]".to_owned(),
            media_type: "".to_owned(),
        }
    }
}

impl Default for Dir {
    fn default() -> (d: Dir)
        ensures
            d@ == default_dir(),
    {
        Dir {
            id: 0,
            parent_id: 0,
            owner_id: 0,
            read_group_ids: Vec::new(),
            write_group_ids: Vec::new(),
            child_ids: Vec::new(),
            name: "[new_dir]".to_owned(),
        }
    }
}

/// Whether the user may use a node of that owner which the groups in
/// `group_ids` may use: they own it, or they are in one of the groups.
pub open spec fn may_access(owner_id: u64, group_ids: Seq<u64>, user: UserView) -> bool {
    owner_id == user.id || exists|i: int|
        0 <= i < group_ids.len() && user.group_ids.contains(#[trigger] group_ids[i])
}

/// Decides `may_access`.
pub fn check_access(owner_id: u64, group_ids: &[u64], user: &User) -> (b: bool)
    ensures
        b == may_access(owner_id, group_ids@, user@),
{
    if owner_id == user.id {
        return true;
    }
    let mut i: usize = 0;
    while i < group_ids.len()
        invariant
            i <= group_ids@.len(),
            owner_id != user.id,
            forall|j: int| 0 <= j < i ==> !user@.group_ids.contains(#[trigger] group_ids@[j]),
        decreases group_ids@.len() - i,
    {
        if contains_id(&user.group_ids, group_ids[i]) {
            return true;
        }
        i += 1;
    }
    false
}

/// What files and directories have in common.
pub trait FsNode {
    spec fn node_id(&self) -> u64;

    spec fn node_name(&self) -> Seq<char>;

    spec fn node_parent_id(&self) -> u64;

    spec fn node_owner_id(&self) -> u64;

    spec fn node_readable_groups(&self) -> Seq<u64>;

    spec fn node_writeable_groups(&self) -> Seq<u64>;

    fn id(&self) -> (r: u64)
        ensures
            r == self.node_id(),
    ;

    fn name(&self) -> (r: &str)
        ensures
            r@ == self.node_name(),
    ;

    fn parent_id(&self) -> (r: u64)
        ensures
            r == self.node_parent_id(),
    ;

    fn owner_id(&self) -> (r: u64)
        ensures
            r == self.node_owner_id(),
    ;

    /// The groups whose members may read the node.
    fn readable_groups(&self) -> (r: &[u64])
        ensures
            r@ == self.node_readable_groups(),
    ;

    /// The groups whose members may write the node.
    fn writeable_groups(&self) -> (r: &[u64])
        ensures
            r@ == self.node_writeable_groups(),
    ;

    /// Whether the user may read the node.
    fn may_read(&self, user: &User) -> (b: bool)
        ensures
            b == may_access(self.node_owner_id(), self.node_readable_groups(), user@),
    {
        check_access(self.owner_id(), self.readable_groups(), user)
    }

    /// Whether the user may write the node.
    fn may_write(&self, user: &User) -> (b: bool)
        ensures
            b == may_access(self.node_owner_id(), self.node_writeable_groups(), user@),
    {
        check_access(self.owner_id(), self.writeable_groups(), user)
    }
}

impl FsNode for File {
    open spec fn node_id(&self) -> u64 {
        self.id
    }

    open spec fn node_name(&self) -> Seq<char> {
        self.name@
    }

    open spec fn node_parent_id(&self) -> u64 {
        self.parent_id
    }

    open spec fn node_owner_id(&self) -> u64 {
        self.owner_id
    }

    open spec fn node_readable_groups(&self) -> Seq<u64> {
        self.read_group_ids@
    }

    open spec fn node_writeable_groups(&self) -> Seq<u64> {
        self.write_group_ids@
    }

    fn id(&self) -> (r: u64) {
        self.id
    }

    fn name(&self) -> (r: &str) {
        self.name.as_str()
    }

    fn parent_id(&self) -> (r: u64) {
        self.parent_id
    }

    fn owner_id(&self) -> (r: u64) {
        self.owner_id
    }

    fn readable_groups(&self) -> (r: &[u64]) {
        self.read_group_ids.as_slice()
    }

    fn writeable_groups(&self) -> (r: &[u64]) {
        self.write_group_ids.as_slice()
    }
}

impl FsNode for Dir {
    open spec fn node_id(&self) -> u64 {
        self.id
    }

    open spec fn node_name(&self) -> Seq<char> {
        self.name@
    }

    open spec fn node_parent_id(&self) -> u64 {
        self.parent_id
    }

    open spec fn node_owner_id(&self) -> u64 {
        self.owner_id
    }

    open spec fn node_readable_groups(&self) -> Seq<u64> {
        self.read_group_ids@
    }

    open spec fn node_writeable_groups(&self) -> Seq<u64> {
        self.write_group_ids@
    }

    fn id(&self) -> (r: u64) {
        self.id
    }

    fn name(&self) -> (r: &str) {
        self.name.as_str()
    }

    fn parent_id(&self) -> (r: u64) {
        self.parent_id
    }

    fn owner_id(&self) -> (r: u64) {
        self.owner_id
    }

    fn readable_groups(&self) -> (r: &[u64]) {
        self.read_group_ids.as_slice()
    }

    fn writeable_groups(&self) -> (r: &[u64]) {
        self.write_group_ids.as_slice()
    }
}

/// Puts a file together field by field.
pub struct FileBuilder {
    file: File,
}

impl View for FileBuilder {
    type V = FileView;

    /// The file as it stands.
    closed spec fn view(&self) -> FileView {
        self.file@
    }
}

impl FileBuilder {
    pub fn new() -> (b: Self)
        ensures
            b@ == default_file(),
    {
        FileBuilder { file: File::default() }
    }

    pub fn build(self) -> (f: File)
        ensures
            f@ == self@,
    {
        self.file
    }

    pub fn with_parent_id(self, parent_id: u64) -> (b: Self)
        ensures
            b@ == (FileView { parent_id, ..self@ }),
    {
        let mut b = self;
        b.file.parent_id = parent_id;
        b
    }

    pub fn with_owner_id(self, owner_id: u64) -> (b: Self)
        ensures
            b@ == (FileView { owner_id, ..self@ }),
    {
        let mut b = self;
        b.file.owner_id = owner_id;
        b
    }

    pub fn with_name(self, name: &str) -> (b: Self)
        ensures
            b@ == (FileView { name: name@, ..self@ }),
    {
        let mut b = self;
        b.file.name = name.to_owned();
        b
    }

    pub fn with_media_type(self, media_type: &str) -> (b: Self)
        ensures
            b@ == (FileView { media_type: media_type@, ..self@ }),
    {
        let mut b = self;
        b.file.media_type = media_type.to_owned();
        b
    }

    pub fn set_name(&mut self, name: &str)
        ensures
            final(self)@ == (FileView { name: name@, ..old(self)@ }),
    {
        self.file.name = name.to_owned();
    }
}

/// Puts a directory together field by field.
pub struct DirBuilder {
    dir: Dir,
}

impl View for DirBuilder {
    type V = DirView;

    /// The directory as it stands.
    closed spec fn view(&self) -> DirView {
        self.dir@
    }
}

impl DirBuilder {
    pub fn new() -> (b: Self)
        ensures
            b@ == default_dir(),
    {
        DirBuilder { dir: Dir::default() }
    }

    pub fn build(self) -> (d: Dir)
        ensures
            d@ == self@,
    {
        self.dir
    }

    pub fn set_name(&mut self, name: &str)
        ensures
            final(self)@ == (DirView { name: name@, ..old(self)@ }),
    {
        self.dir.name = name.to_owned();
    }

    pub fn with_id(self, id: u64) -> (b: Self)
        ensures
            b@ == (DirView { id, ..self@ }),
    {
        let mut b = self;
        b.dir.id = id;
        b
    }

    pub fn with_parent_id(self, parent_id: u64) -> (b: Self)
        ensures
            b@ == (DirView { parent_id, ..self@ }),
    {
        let mut b = self;
        b.dir.parent_id = parent_id;
        b
    }

    pub fn with_owner_id(self, owner_id: u64) -> (b: Self)
        ensures
            b@ == (DirView { owner_id, ..self@ }),
    {
        let mut b = self;
        b.dir.owner_id = owner_id;
        b
    }

    pub fn with_name(self, name: &str) -> (b: Self)
        ensures
            b@ == (DirView { name: name@, ..self@ }),
    {
        let mut b = self;
        b.dir.name = name.to_owned();
        b
    }
}

/// An identifier as it travels outside the engine, where it is written in
/// hexadecimal.
#[derive(Clone, Copy, Debug, PartialEq, Eq, Structural)]
pub struct Id(pub u64);

/// The hexadecimal digit for a number below 16, in lower case.
pub open spec fn hex_digit(d: int) -> char {
    if d == 0 {
        '0'
    } else if d == 1 {
        '1'
    } else if d == 2 {
        '2'
    } else if d == 3 {
        '3'
    } else if d == 4 {
        '4'
    } else if d == 5 {
        '5'
    } else if d == 6 {
        '6'
    } else if d == 7 {
        '7'
    } else if d == 8 {
        '8'
    } else if d == 9 {
        '9'
    } else if d == 10 {
        'a'
    } else if d == 11 {
        'b'
    } else if d == 12 {
        'c'
    } else if d == 13 {
        'd'
    } else if d == 14 {
        'e'
    } else {
        'f'
    }
}

/// A number in hexadecimal: its digits in lower case, without leading
/// zeros; one zero for the number zero.
pub open spec fn hex_text(number: nat) -> Seq<char>
    decreases number,
{
    if number < 16 {
        seq![hex_digit(number as int)]
    } else {
        hex_text(number / 16).push(hex_digit(number as int % 16))
    }
}

/// What a byte counts for as a hexadecimal digit, in either case, if it is
/// one.
pub open spec fn hex_digit_value(b: u8) -> Option<nat> {
    if 0x30 <= b <= 0x39 {
        Some((b - 0x30) as nat)
    } else if 0x61 <= b <= 0x66 {
        Some((b - 0x61 + 10) as nat)
    } else if 0x41 <= b <= 0x46 {
        Some((b - 0x41 + 10) as nat)
    } else {
        None
    }
}

/// The number that hexadecimal digits spell, if all of them are digits; no
/// digits spell zero.
pub open spec fn hex_value(digits: Seq<u8>) -> Option<nat>
    decreases digits.len(),
{
    if digits.len() == 0 {
        Some(0)
    } else {
        match (hex_value(digits.drop_last()), hex_digit_value(digits.last())) {
            (Some(v), Some(d)) => Some(v * 16 + d),
            _ => None,
        }
    }
}

/// The number that the bytes of a text spell in hexadecimal: an optional
/// `+`, then at least one digit, in either case; `None` where the text is
/// not of this form or the number does not fit in 64 bits.
pub open spec fn hex_number(text: Seq<u8>) -> Option<u64> {
    let digits = if text.len() > 0 && text[0] == 0x2b {
        text.skip(1)
    } else {
        text
    };
    if digits.len() == 0 {
        None
    } else {
        match hex_value(digits) {
            Some(v) => if v <= u64::MAX {
                Some(v as u64)
            } else {
                None
            },
            None => None,
        }
    }
}

/// More digits spell no smaller number.
pub proof fn lemma_hex_value_grows(digits: Seq<u8>, n: int)
    requires
        0 <= n <= digits.len(),
        hex_value(digits) is Some,
    ensures
        hex_value(digits.take(n)) is Some,
        hex_value(digits.take(n))->0 <= hex_value(digits)->0,
    decreases digits.len() - n,
{
    if n < digits.len() {
        lemma_hex_value_grows(digits, n + 1);
        assert(digits.take(n + 1).drop_last() =~= digits.take(n));
    } else {
        assert(digits.take(n) =~= digits);
    }
}

/// Where some of the digits are none, all of them spell no number.
pub proof fn lemma_hex_value_fails(digits: Seq<u8>, n: int)
    requires
        0 <= n <= digits.len(),
        hex_value(digits.take(n)) is None,
    ensures
        hex_value(digits) is None,
    decreases digits.len() - n,
{
    if n < digits.len() {
        assert(digits.take(n + 1).drop_last() =~= digits.take(n));
        lemma_hex_value_fails(digits, n + 1);
    } else {
        assert(digits.take(n) =~= digits);
    }
}

/// The digit for a number below 16, as a text.
fn hex_digit_text(d: u64) -> (r: &'static str)
    requires
        d < 16,
    ensures
        r@ == seq![hex_digit(d as int)],
{
    proof {
        reveal_strlit("0");
        reveal_strlit("1");
        reveal_strlit("2");
        reveal_strlit("3");
        reveal_strlit("4");
        reveal_strlit("5");
        reveal_strlit("6");
        reveal_strlit("7");
        reveal_strlit("8");
        reveal_strlit("9");
        reveal_strlit("a");
        reveal_strlit("b");
        reveal_strlit("c");
        reveal_strlit("d");
        reveal_strlit("e");
        reveal_strlit("f");
    }
    let r = if d == 0 {
        "0"
    } else if d == 1 {
        "1"
    } else if d == 2 {
        "2"
    } else if d == 3 {
        "3"
    } else if d == 4 {
        "4"
    } else if d == 5 {
        "5"
    } else if d == 6 {
        "6"
    } else if d == 7 {
        "7"
    } else if d == 8 {
        "8"
    } else if d == 9 {
        "9"
    } else if d == 10 {
        "a"
    } else if d == 11 {
        "b"
    } else if d == 12 {
        "c"
    } else if d == 13 {
        "d"
    } else if d == 14 {
        "e"
    } else {
        "f"
    };
    assert(r@ =~= seq![hex_digit(d as int)]);
    r
}

/// Appends the number in hexadecimal to `out`.
pub fn write_hex(number: u64, out: &mut String)
    ensures
        final(out)@ == old(out)@ + hex_text(number as nat),
    decreases number,
{
    if number >= 16 {
        write_hex(number / 16, out);
    }
    out.append(hex_digit_text(number % 16));
    assert(out@ =~= old(out)@ + hex_text(number as nat));
}

/// Reads a number in hexadecimal.
pub fn parse_hex(text: &str) -> (r: Option<u64>)
    ensures
        r == hex_number(text.spec_bytes()),
{
    let bytes = text.as_bytes();
    let start: usize = if bytes.len() > 0 && bytes[0] == 0x2b {
        1
    } else {
        0
    };
    if bytes.len() == start {
        return None;
    }
    let ghost digits = bytes@.skip(start as int);
    assert(bytes@.skip(0) =~= bytes@);
    let mut value: u64 = 0;
    let mut i: usize = start;
    assert(digits.take(0) =~= Seq::<u8>::empty());
    while i < bytes.len()
        invariant
            start <= i <= bytes@.len(),
            start < bytes@.len(),
            bytes@ == text.spec_bytes(),
            digits == bytes@.skip(start as int),
            hex_number(bytes@) == match hex_value(digits) {
                Some(v) => if v <= u64::MAX {
                    Some(v as u64)
                } else {
                    None
                },
                None => None,
            },
            hex_value(digits.take(i - start)) == Some(value as nat),
        decreases bytes@.len() - i,
    {
        let b = bytes[i];
        proof {
            let next = digits.take(i - start + 1);
            assert(next.drop_last() =~= digits.take(i - start));
            assert(next.last() == b);
        }
        let d: u64 = if 0x30 <= b && b <= 0x39 {
            (b - 0x30) as u64
        } else if 0x61 <= b && b <= 0x66 {
            (b - 0x61 + 10) as u64
        } else if 0x41 <= b && b <= 0x46 {
            (b - 0x41 + 10) as u64
        } else {
            proof {
                lemma_hex_value_fails(digits, i - start + 1);
            }
            return None;
        };
        if value > (u64::MAX - d) / 16 {
            proof {
                if hex_value(digits) is Some {
                    lemma_hex_value_grows(digits, i - start + 1);
                }
            }
            return None;
        }
        value = value * 16 + d;
        i += 1;
    }
    assert(digits.take(i - start) =~= digits);
    Some(value)
}

impl Id {
    /// The identifier that a text in hexadecimal stands for, if it stands
    /// for one.
    pub fn from_hex(text: &str) -> (r: Option<Id>)
        ensures
            match r {
                Some(id) => hex_number(text.spec_bytes()) == Some(id.0),
                None => hex_number(text.spec_bytes()) is None,
            },
    {
        match parse_hex(text) {
            Some(n) => Some(Id(n)),
            None => None,
        }
    }

    /// The identifier in hexadecimal.
    pub fn to_hex(&self) -> (r: String)
        ensures
            r@ == hex_text(self.0 as nat),
    {
        let mut out = String::new();
        write_hex(self.0, &mut out);
        out
    }

    pub fn inner(&self) -> (r: u64)
        ensures
            r == self.0,
    {
        self.0
    }

    pub fn as_int(&self) -> (r: u64)
        ensures
            r == self.0,
    {
        self.0
    }
}

impl From<u64> for Id {
    fn from(value: u64) -> (id: Id) {
        Id(value)
    }
}

impl vstd::std_specs::convert::FromSpecImpl<u64> for Id {
    open spec fn obeys_from_spec() -> bool {
        true
    }

    open spec fn from_spec(value: u64) -> Id {
        Id(value)
    }
}

} // verus!
