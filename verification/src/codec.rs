//! The layout of the stored records. All integers are big-endian; a list is a
//! 16-bit count followed by its 64-bit items; a string is either prefixed by
//! its 16-bit length or runs to the end of the record.
//!
//! For each record a `spec` function says what bytes stand for a value, and
//! another what value a byte string stands for, if any.

use vstd::prelude::*;
use vstd::utf8::*;
use vstd::string::*;
use crate::bytes::{be16, be16_value, be64, be64_value, copy_range, lemma_be64_round_trip,
    put_bytes, put_u16, put_u64, read_u16, read_u64};
use crate::error::Error;
use crate::models::{Dir, DirView, File, FileView, Group, GroupView};

verus! {

/// The longest list and the longest prefixed string that a record can hold.
pub const MAX_COUNT: usize = 0xffff;

// ---------------------------------------------------------------------
// Lists of identifiers
// ---------------------------------------------------------------------

/// The items of `ids`, eight bytes each, without a count.
pub open spec fn ids_bytes(ids: Seq<u64>) -> Seq<u8>
    decreases ids.len(),
{
    if ids.len() == 0 {
        Seq::empty()
    } else {
        ids_bytes(ids.drop_last()) + be64(ids.last())
    }
}

/// A list as it is stored: its count, then its items.
pub open spec fn id_list_bytes(ids: Seq<u64>) -> Seq<u8>
    recommends
        ids.len() <= MAX_COUNT,
{
    be16(ids.len() as u16) + ids_bytes(ids)
}

/// The `n` identifiers that lie in `b` from `at` on.
pub open spec fn ids_at(b: Seq<u8>, at: int, n: int) -> Seq<u64> {
    Seq::new(n as nat, |i: int| be64_value(b.subrange(at + 8 * i, at + 8 * i + 8)))
}

/// The number of items that the count at `at` declares.
pub open spec fn count_at(b: Seq<u8>, at: int) -> int {
    be16_value(b.subrange(at, at + 2)) as int
}

/// The list stored in `b` at `at`, unless its count or its items run past
/// the end of `b`.
pub open spec fn id_list_at(b: Seq<u8>, at: int) -> Option<Seq<u64>> {
    if at < 0 || b.len() < at + 2 {
        None
    } else if b.len() < at + 2 + 8 * count_at(b, at) {
        None
    } else {
        Some(ids_at(b, at + 2, count_at(b, at)))
    }
}

/// Every item takes eight bytes.
pub proof fn lemma_ids_bytes_len(ids: Seq<u64>)
    ensures
        ids_bytes(ids).len() == 8 * ids.len(),
    decreases ids.len(),
{
    if ids.len() > 0 {
        lemma_ids_bytes_len(ids.drop_last());
    }
}

/// The `i`-th group of eight bytes is the `i`-th item.
pub proof fn lemma_ids_bytes_item(ids: Seq<u64>, i: int)
    requires
        0 <= i < ids.len(),
    ensures
        ids_bytes(ids).len() == 8 * ids.len(),
        ids_bytes(ids).subrange(8 * i, 8 * i + 8) == be64(ids[i]),
    decreases ids.len(),
{
    lemma_ids_bytes_len(ids);
    lemma_ids_bytes_len(ids.drop_last());
    if i == ids.len() - 1 {
        assert(ids_bytes(ids).subrange(8 * i, 8 * i + 8) =~= be64(ids[i]));
    } else {
        lemma_ids_bytes_item(ids.drop_last(), i);
        assert(ids_bytes(ids).subrange(8 * i, 8 * i + 8) =~= ids_bytes(ids.drop_last()).subrange(
            8 * i,
            8 * i + 8,
        ));
    }
}

/// A stored list is read back as it was written, whatever stands before and
/// after it.
pub proof fn lemma_id_list_round_trip(pre: Seq<u8>, ids: Seq<u64>, post: Seq<u8>)
    requires
        ids.len() <= MAX_COUNT,
    ensures
        id_list_bytes(ids).len() == 2 + 8 * ids.len(),
        count_at(pre + id_list_bytes(ids) + post, pre.len() as int) == ids.len(),
        id_list_at(pre + id_list_bytes(ids) + post, pre.len() as int) == Some(ids),
{
    let b = pre + id_list_bytes(ids) + post;
    let at = pre.len() as int;
    lemma_ids_bytes_len(ids);
    assert(b.subrange(at, at + 2) =~= be16(ids.len() as u16));
    assert(count_at(b, at) == ids.len());
    let got = ids_at(b, at + 2, ids.len() as int);
    assert forall|i: int| 0 <= i < ids.len() implies got[i] == ids[i] by {
        lemma_ids_bytes_item(ids, i);
        assert(b.subrange(at + 2 + 8 * i, at + 2 + 8 * i + 8) =~= ids_bytes(ids).subrange(
            8 * i,
            8 * i + 8,
        ));
        lemma_be64_round_trip(ids[i]);
    }
    assert(got =~= ids);
}

/// Appends the list to `buf`; a list longer than `MAX_COUNT` is refused and
/// `buf` left as it was.
pub fn serialize_id_list(list: &[u64], buf: &mut Vec<u8>) -> (r: Result<(), Error>)
    ensures
        match r {
            Ok(_) => list@.len() <= MAX_COUNT && final(buf)@ == old(buf)@ + id_list_bytes(list@),
            Err(e) => list@.len() > MAX_COUNT && e is BadCall && final(buf)@ == old(buf)@,
        },
{
    if list.len() > MAX_COUNT {
        return Err(Error::BadCall);
    }
    put_u16(buf, list.len() as u16);
    let mut i: usize = 0;
    while i < list.len()
        invariant
            i <= list@.len() <= MAX_COUNT,
            buf@ == old(buf)@ + be16(list@.len() as u16) + ids_bytes(list@.take(i as int)),
        decreases list@.len() - i,
    {
        put_u64(buf, list[i]);
        proof {
            let next = list@.take(i + 1);
            assert(next.drop_last() =~= list@.take(i as int));
            assert(next.last() == list@[i as int]);
        }
        i += 1;
        assert(buf@ =~= old(buf)@ + be16(list@.len() as u16) + ids_bytes(list@.take(i as int)));
    }
    assert(list@.take(i as int) =~= list@);
    assert(buf@ =~= old(buf)@ + id_list_bytes(list@));
    Ok(())
}

/// Reads the list stored in `bytes` at `at`.
pub fn parse_id_list_at(bytes: &[u8], at: usize) -> (r: Result<Vec<u64>, Error>)
    ensures
        match r {
            Ok(ids) => id_list_at(bytes@, at as int) == Some(ids@),
            Err(e) => id_list_at(bytes@, at as int) is None && e is EncodingError,
        },
{
    if bytes.len() < 2 || at > bytes.len() - 2 {
        return Err(Error::EncodingError);
    }
    let n: usize = read_u16(bytes, at) as usize;
    assert(bytes@.len() == bytes.len());
    if (bytes.len() - at - 2) / 8 < n {
        return Err(Error::EncodingError);
    }
    let mut ids: Vec<u64> = Vec::new();
    let mut i: usize = 0;
    while i < n
        invariant
            i <= n,
            n == count_at(bytes@, at as int),
            at + 2 + 8 * n <= bytes@.len() <= usize::MAX,
            ids@ == ids_at(bytes@, at + 2, i as int),
        decreases n - i,
    {
        ids.push(read_u64(bytes, at + 2 + 8 * i));
        i += 1;
        assert(ids@ =~= ids_at(bytes@, at + 2, i as int));
    }
    Ok(ids)
}

/// Reads the list that a record starts with.
pub fn parse_id_list(bytes: &[u8]) -> (r: Result<Vec<u64>, Error>)
    ensures
        match r {
            Ok(ids) => id_list_at(bytes@, 0) == Some(ids@),
            Err(e) => id_list_at(bytes@, 0) is None && e is EncodingError,
        },
{
    parse_id_list_at(bytes, 0)
}

/// The place of the first `x` in `ids`, or the length of `ids` if there is
/// none.
pub open spec fn first_index(ids: Seq<u64>, x: u64) -> int
    decreases ids.len(),
{
    if ids.len() == 0 {
        0
    } else if ids[0] == x {
        0
    } else {
        1 + first_index(ids.skip(1), x)
    }
}

/// What `first_index` finds: the first place of `x`, if there is one.
pub proof fn lemma_first_index(ids: Seq<u64>, x: u64)
    ensures
        0 <= first_index(ids, x) <= ids.len(),
        first_index(ids, x) < ids.len() ==> ids[first_index(ids, x)] == x,
        forall|j: int| 0 <= j < first_index(ids, x) ==> ids[j] != x,
        first_index(ids, x) < ids.len() <==> ids.contains(x),
    decreases ids.len(),
{
    if ids.len() > 0 && ids[0] != x {
        let rest = ids.skip(1);
        lemma_first_index(rest, x);
        let k = first_index(rest, x);
        assert forall|j: int| 0 <= j < 1 + k implies ids[j] != x by {
            if j > 0 {
                assert(rest[j - 1] == ids[j]);
            }
        }
        if k < rest.len() {
            assert(rest[k] == ids[k + 1]);
        }
        if ids.contains(x) {
            let w = choose|w: int| 0 <= w < ids.len() && ids[w] == x;
            assert(rest[w - 1] == x);
        }
    }
}

/// An index at which `x` stands with no `x` before it is the first index.
pub proof fn lemma_first_index_is(ids: Seq<u64>, x: u64, i: int)
    requires
        0 <= i < ids.len(),
        ids[i] == x,
        forall|j: int| 0 <= j < i ==> ids[j] != x,
    ensures
        first_index(ids, x) == i,
{
    lemma_first_index(ids, x);
}

/// The record `b` with `id` added at the end of the list that starts at `at`.
pub open spec fn list_push(b: Seq<u8>, at: int, id: u64) -> Seq<u8> {
    let n = count_at(b, at);
    b.subrange(0, at) + be16((n + 1) as u16) + b.subrange(at + 2, at + 2 + 8 * n) + be64(id)
        + b.skip(at + 2 + 8 * n)
}

/// The record `b` without the `i`-th item of the list that starts at `at`.
pub open spec fn list_remove(b: Seq<u8>, at: int, i: int) -> Seq<u8> {
    let n = count_at(b, at);
    b.subrange(0, at) + be16((n - 1) as u16) + b.subrange(at + 2, at + 2 + 8 * i) + b.skip(
        at + 2 + 8 * (i + 1),
    )
}

/// Two records that agree from some place on hold the same list there.
pub proof fn lemma_id_list_at_suffix(b1: Seq<u8>, at1: int, b2: Seq<u8>, at2: int)
    requires
        0 <= at1 <= b1.len(),
        0 <= at2 <= b2.len(),
        b1.skip(at1) == b2.skip(at2),
    ensures
        id_list_at(b1, at1) == id_list_at(b2, at2),
        b1.len() >= at1 + 2 ==> count_at(b1, at1) == count_at(b2, at2),
{
    let t = b1.skip(at1);
    assert(b1.skip(at1).len() == b1.len() - at1);
    assert(b2.skip(at2).len() == b2.len() - at2);
    assert(t.len() == b1.len() - at1 && t.len() == b2.len() - at2);
    if b1.len() >= at1 + 2 {
        assert(b1.subrange(at1, at1 + 2) =~= t.subrange(0, 2));
        assert(b2.subrange(at2, at2 + 2) =~= t.subrange(0, 2));
        let n = count_at(b1, at1);
        if b1.len() >= at1 + 2 + 8 * n {
            let l1 = ids_at(b1, at1 + 2, n);
            let l2 = ids_at(b2, at2 + 2, n);
            assert forall|i: int| 0 <= i < n implies #[trigger] l1[i] == l2[i] by {
                assert(b1.subrange(at1 + 2 + 8 * i, at1 + 2 + 8 * i + 8) =~= t.subrange(
                    2 + 8 * i,
                    2 + 8 * i + 8,
                ));
                assert(b2.subrange(at2 + 2 + 8 * i, at2 + 2 + 8 * i + 8) =~= t.subrange(
                    2 + 8 * i,
                    2 + 8 * i + 8,
                ));
            }
            assert(l1 =~= l2);
        }
    }
}

/// What `list_push` does to a record: the list gains `id` at its end, what
/// stands before the list stays, and what stands after it moves on by eight
/// bytes.
pub proof fn lemma_list_push(b: Seq<u8>, at: int, id: u64)
    requires
        id_list_at(b, at) is Some,
        count_at(b, at) < MAX_COUNT,
    ensures
        list_push(b, at, id).len() == b.len() + 8,
        count_at(list_push(b, at, id), at) == count_at(b, at) + 1,
        id_list_at(list_push(b, at, id), at) == Some((id_list_at(b, at)->0).push(id)),
        list_push(b, at, id).subrange(0, at) == b.subrange(0, at),
        list_push(b, at, id).skip(at + 2 + 8 * (count_at(b, at) + 1)) == b.skip(
            at + 2 + 8 * count_at(b, at),
        ),
{
    let n = count_at(b, at);
    let out = list_push(b, at, id);
    let ids = id_list_at(b, at)->0;
    assert(out.subrange(at, at + 2) =~= be16((n + 1) as u16));
    assert(count_at(out, at) == n + 1);
    assert(out.subrange(0, at) =~= b.subrange(0, at));
    assert(out.skip(at + 2 + 8 * (n + 1)) =~= b.skip(at + 2 + 8 * n));
    let got = ids_at(out, at + 2, n + 1);
    assert forall|i: int| 0 <= i < n + 1 implies #[trigger] got[i] == ids.push(id)[i] by {
        if i < n {
            assert(out.subrange(at + 2 + 8 * i, at + 2 + 8 * i + 8) =~= b.subrange(
                at + 2 + 8 * i,
                at + 2 + 8 * i + 8,
            ));
        } else {
            assert(out.subrange(at + 2 + 8 * i, at + 2 + 8 * i + 8) =~= be64(id));
            lemma_be64_round_trip(id);
        }
    }
    assert(got =~= ids.push(id));
}

/// What `list_remove` does to a record: the list loses its `i`-th item, what
/// stands before the list stays, and what stands after it moves back by
/// eight bytes.
pub proof fn lemma_list_remove(b: Seq<u8>, at: int, i: int)
    requires
        id_list_at(b, at) is Some,
        0 <= i < count_at(b, at),
    ensures
        list_remove(b, at, i).len() == b.len() - 8,
        count_at(list_remove(b, at, i), at) == count_at(b, at) - 1,
        id_list_at(list_remove(b, at, i), at) == Some((id_list_at(b, at)->0).remove(i)),
        list_remove(b, at, i).subrange(0, at) == b.subrange(0, at),
        list_remove(b, at, i).skip(at + 2 + 8 * (count_at(b, at) - 1)) == b.skip(
            at + 2 + 8 * count_at(b, at),
        ),
{
    let n = count_at(b, at);
    let out = list_remove(b, at, i);
    let ids = id_list_at(b, at)->0;
    assert(out.subrange(at, at + 2) =~= be16((n - 1) as u16));
    assert(count_at(out, at) == n - 1);
    assert(out.subrange(0, at) =~= b.subrange(0, at));
    assert(out.skip(at + 2 + 8 * (n - 1)) =~= b.skip(at + 2 + 8 * n));
    let got = ids_at(out, at + 2, n - 1);
    assert forall|j: int| 0 <= j < n - 1 implies #[trigger] got[j] == ids.remove(i)[j] by {
        if j < i {
            assert(out.subrange(at + 2 + 8 * j, at + 2 + 8 * j + 8) =~= b.subrange(
                at + 2 + 8 * j,
                at + 2 + 8 * j + 8,
            ));
        } else {
            assert(out.subrange(at + 2 + 8 * j, at + 2 + 8 * j + 8) =~= b.subrange(
                at + 2 + 8 * (j + 1),
                at + 2 + 8 * (j + 1) + 8,
            ));
        }
    }
    assert(got =~= ids.remove(i));
}

/// Adds `id` at the end of the list stored in `bytes` at `at`.
pub fn push_to_list(bytes: &[u8], at: usize, id: u64) -> (r: Result<Vec<u8>, Error>)
    ensures
        match r {
            Ok(out) => id_list_at(bytes@, at as int) is Some && count_at(bytes@, at as int)
                < MAX_COUNT && out@ == list_push(bytes@, at as int, id),
            Err(e) => if id_list_at(bytes@, at as int) is None {
                e is EncodingError
            } else {
                count_at(bytes@, at as int) >= MAX_COUNT && e is BadCall
            },
        },
{
    if bytes.len() < 2 || at > bytes.len() - 2 {
        return Err(Error::EncodingError);
    }
    let n: usize = read_u16(bytes, at) as usize;
    assert(bytes@.len() == bytes.len());
    if (bytes.len() - at - 2) / 8 < n {
        return Err(Error::EncodingError);
    }
    if n >= MAX_COUNT {
        return Err(Error::BadCall);
    }
    let mut out: Vec<u8> = copy_range(bytes, 0, at);
    put_u16(&mut out, (n + 1) as u16);
    put_bytes(&mut out, vstd::slice::slice_subrange(bytes, at + 2, at + 2 + 8 * n));
    put_u64(&mut out, id);
    put_bytes(&mut out, vstd::slice::slice_subrange(bytes, at + 2 + 8 * n, bytes.len()));
    assert(out@ =~= list_push(bytes@, at as int, id));
    Ok(out)
}

/// Takes the first `id` out of the list stored in `bytes` at `at`.
pub fn remove_from_list(bytes: &[u8], at: usize, id: u64) -> (r: Result<Vec<u8>, Error>)
    ensures
        match r {
            Ok(out) => {
                &&& id_list_at(bytes@, at as int) is Some
                &&& (id_list_at(bytes@, at as int)->0).contains(id)
                &&& out@ == list_remove(
                    bytes@,
                    at as int,
                    first_index(id_list_at(bytes@, at as int)->0, id),
                )
            },
            Err(e) => if id_list_at(bytes@, at as int) is None {
                e is EncodingError
            } else {
                !(id_list_at(bytes@, at as int)->0).contains(id) && e is InconsistentDbState
            },
        },
{
    let ids = match parse_id_list_at(bytes, at) {
        Ok(ids) => ids,
        Err(e) => {
            return Err(e);
        },
    };
    let n: usize = ids.len();
    assert(bytes@.len() == bytes.len());
    let mut i: usize = 0;
    while i < n
        invariant
            i <= n == ids@.len(),
            id_list_at(bytes@, at as int) == Some(ids@),
            bytes@.len() == bytes.len(),
            forall|j: int| 0 <= j < i ==> ids@[j] != id,
        decreases n - i,
    {
        if ids[i] == id {
            proof {
                lemma_first_index_is(ids@, id, i as int);
            }
            let mut out: Vec<u8> = copy_range(bytes, 0, at);
            put_u16(&mut out, (n - 1) as u16);
            put_bytes(&mut out, vstd::slice::slice_subrange(bytes, at + 2, at + 2 + 8 * i));
            put_bytes(
                &mut out,
                vstd::slice::slice_subrange(bytes, at + 2 + 8 * (i + 1), bytes.len()),
            );
            assert(out@ =~= list_remove(bytes@, at as int, i as int));
            return Ok(out);
        }
        i += 1;
    }
    Err(Error::InconsistentDbState)
}

// ---------------------------------------------------------------------
// Strings
// ---------------------------------------------------------------------

/// `String::from_utf8`: the text that the bytes spell in UTF-8, or `None`
/// when they are not valid UTF-8.
#[verifier::external_body]
pub(crate) fn string_from_utf8(bytes: Vec<u8>) -> (r: Option<String>)
    ensures
        match r {
            Some(s) => valid_utf8(bytes@) && s@ == decode_utf8(bytes@),
            None => !valid_utf8(bytes@),
        },
{
    match String::from_utf8(bytes) {
        Ok(s) => Some(s),
        Err(_) => None,
    }
}

/// The text that `b` spells, if it is valid UTF-8.
pub open spec fn text_of(b: Seq<u8>) -> Option<Seq<char>> {
    if valid_utf8(b) {
        Some(decode_utf8(b))
    } else {
        None
    }
}

/// A string as it is stored with a length prefix.
pub open spec fn str_bytes(s: Seq<char>) -> Seq<u8>
    recommends
        encode_utf8(s).len() <= MAX_COUNT,
{
    be16(encode_utf8(s).len() as u16) + encode_utf8(s)
}

/// The prefixed string stored in `b` at `at`, unless it runs past the end of
/// `b` or is not valid text.
pub open spec fn str_at(b: Seq<u8>, at: int) -> Option<Seq<char>> {
    if at < 0 || b.len() < at + 2 {
        None
    } else if b.len() < at + 2 + count_at(b, at) {
        None
    } else {
        text_of(b.subrange(at + 2, at + 2 + count_at(b, at)))
    }
}

/// A stored text is read back as it was written.
pub proof fn lemma_text_round_trip(s: Seq<char>)
    ensures
        text_of(encode_utf8(s)) == Some(s),
{
    encode_utf8_valid_utf8(s);
    encode_utf8_decode_utf8(s);
}

/// A stored prefixed string is read back as it was written, whatever stands
/// before and after it.
pub proof fn lemma_str_round_trip(pre: Seq<u8>, s: Seq<char>, post: Seq<u8>)
    requires
        encode_utf8(s).len() <= MAX_COUNT,
    ensures
        str_bytes(s).len() == 2 + encode_utf8(s).len(),
        count_at(pre + str_bytes(s) + post, pre.len() as int) == encode_utf8(s).len(),
        str_at(pre + str_bytes(s) + post, pre.len() as int) == Some(s),
{
    let b = pre + str_bytes(s) + post;
    let at = pre.len() as int;
    let n = encode_utf8(s).len() as int;
    assert(b.subrange(at, at + 2) =~= be16(n as u16));
    assert(b.subrange(at + 2, at + 2 + n) =~= encode_utf8(s));
    lemma_text_round_trip(s);
}

/// Appends the string with its length prefix to `buf`; a string of more than
/// `MAX_COUNT` bytes is refused and `buf` left as it was.
pub fn string_to_bytes(string: &str, buf: &mut Vec<u8>) -> (r: Result<(), Error>)
    ensures
        match r {
            Ok(_) => encode_utf8(string@).len() <= MAX_COUNT && final(buf)@ == old(buf)@
                + str_bytes(string@),
            Err(e) => encode_utf8(string@).len() > MAX_COUNT && e is BadCall && final(buf)@ == old(buf)@,
        },
{
    let text = string.as_bytes();
    if text.len() > MAX_COUNT {
        return Err(Error::BadCall);
    }
    put_u16(buf, text.len() as u16);
    put_bytes(buf, text);
    assert(buf@ =~= old(buf)@ + str_bytes(string@));
    Ok(())
}

/// Reads the bytes of `bytes` from `from` up to `to` as text.
pub fn parse_text(bytes: &[u8], from: usize, to: usize) -> (r: Result<String, Error>)
    requires
        from <= to <= bytes@.len(),
    ensures
        match r {
            Ok(s) => text_of(bytes@.subrange(from as int, to as int)) == Some(s@),
            Err(e) => text_of(bytes@.subrange(from as int, to as int)) is None && e
                is EncodingError,
        },
{
    match string_from_utf8(copy_range(bytes, from, to)) {
        Some(s) => Ok(s),
        None => Err(Error::EncodingError),
    }
}

/// Reads the prefixed string stored in `bytes` at `at`; with it comes the
/// number of bytes that it takes up, prefix included.
pub fn parse_db_string_at(bytes: &[u8], at: usize) -> (r: Result<(String, usize), Error>)
    ensures
        match r {
            Ok((s, used)) => str_at(bytes@, at as int) == Some(s@) && used == 2 + count_at(
                bytes@,
                at as int,
            ),
            Err(e) => str_at(bytes@, at as int) is None && e is EncodingError,
        },
{
    if bytes.len() < 2 || at > bytes.len() - 2 {
        return Err(Error::EncodingError);
    }
    let n: usize = read_u16(bytes, at) as usize;
    if bytes.len() - at - 2 < n {
        return Err(Error::EncodingError);
    }
    match parse_text(bytes, at + 2, at + 2 + n) {
        Ok(s) => Ok((s, n + 2)),
        Err(e) => Err(e),
    }
}

/// Reads the prefixed string that `bytes` starts with.
pub fn parse_db_string(bytes: &[u8]) -> (r: Result<(String, usize), Error>)
    ensures
        match r {
            Ok((s, used)) => str_at(bytes@, 0) == Some(s@) && used == 2 + count_at(bytes@, 0),
            Err(e) => str_at(bytes@, 0) is None && e is EncodingError,
        },
{
    parse_db_string_at(bytes, 0)
}

// ---------------------------------------------------------------------
// Permission records
// ---------------------------------------------------------------------

/// A permission record: the groups that may read, then those that may write.
pub open spec fn perm_bytes(read: Seq<u64>, write: Seq<u64>) -> Seq<u8>
    recommends
        read.len() <= MAX_COUNT,
        write.len() <= MAX_COUNT,
{
    id_list_bytes(read) + id_list_bytes(write)
}

/// The groups that a permission record lets read.
pub open spec fn read_groups_of(b: Seq<u8>) -> Option<Seq<u64>> {
    id_list_at(b, 0)
}

/// The groups that a permission record lets write.
pub open spec fn write_groups_of(b: Seq<u8>) -> Option<Seq<u64>> {
    if id_list_at(b, 0) is None {
        None
    } else {
        id_list_at(b, 2 + 8 * count_at(b, 0))
    }
}

/// Whether `b` is a permission record.
pub open spec fn is_perm_record(b: Seq<u8>) -> bool {
    read_groups_of(b) is Some && write_groups_of(b) is Some
}

/// A permission record is read back as it was written.
pub proof fn lemma_permissions_round_trip(read: Seq<u64>, write: Seq<u64>)
    requires
        read.len() <= MAX_COUNT,
        write.len() <= MAX_COUNT,
    ensures
        read_groups_of(perm_bytes(read, write)) == Some(read),
        write_groups_of(perm_bytes(read, write)) == Some(write),
{
    let b = perm_bytes(read, write);
    lemma_id_list_round_trip(Seq::empty(), read, id_list_bytes(write));
    assert(Seq::<u8>::empty() + id_list_bytes(read) + id_list_bytes(write) =~= b);
    lemma_id_list_round_trip(id_list_bytes(read), write, Seq::empty());
    assert(id_list_bytes(read) + id_list_bytes(write) + Seq::<u8>::empty() =~= b);
}

/// The permission record of the two lists; `BadCall` if one of them is
/// longer than `MAX_COUNT`.
pub fn encode_permissions(read: &[u64], write: &[u64]) -> (r: Result<Vec<u8>, Error>)
    ensures
        match r {
            Ok(b) => read@.len() <= MAX_COUNT && write@.len() <= MAX_COUNT && b@ == perm_bytes(
                read@,
                write@,
            ),
            Err(e) => (read@.len() > MAX_COUNT || write@.len() > MAX_COUNT) && e is BadCall,
        },
{
    let mut buf: Vec<u8> = Vec::new();
    match serialize_id_list(read, &mut buf) {
        Ok(_) => {},
        Err(e) => {
            return Err(e);
        },
    }
    match serialize_id_list(write, &mut buf) {
        Ok(_) => {},
        Err(e) => {
            return Err(e);
        },
    }
    assert(buf@ =~= perm_bytes(read@, write@));
    Ok(buf)
}

/// The permission record of a node that no group may read or write.
pub fn empty_permissions() -> (b: Vec<u8>)
    ensures
        b@ == perm_bytes(Seq::empty(), Seq::empty()),
{
    let mut buf: Vec<u8> = Vec::new();
    put_u16(&mut buf, 0);
    put_u16(&mut buf, 0);
    assert(ids_bytes(Seq::<u64>::empty()) =~= Seq::<u8>::empty());
    assert(buf@ =~= perm_bytes(Seq::empty(), Seq::empty()));
    buf
}

/// The groups that the permission record lets read.
pub fn parse_read_group_ids(bytes: &[u8]) -> (r: Result<Vec<u64>, Error>)
    ensures
        match r {
            Ok(ids) => read_groups_of(bytes@) == Some(ids@),
            Err(e) => read_groups_of(bytes@) is None && e is EncodingError,
        },
{
    parse_id_list_at(bytes, 0)
}

/// The groups that the permission record lets write.
pub fn parse_write_group_ids(bytes: &[u8]) -> (r: Result<Vec<u64>, Error>)
    ensures
        match r {
            Ok(ids) => write_groups_of(bytes@) == Some(ids@),
            Err(e) => write_groups_of(bytes@) is None && e is EncodingError,
        },
{
    if bytes.len() < 2 {
        return Err(Error::EncodingError);
    }
    let n: usize = read_u16(bytes, 0) as usize;
    if (bytes.len() - 2) / 8 < n {
        return Err(Error::EncodingError);
    }
    parse_id_list_at(bytes, 2 + 8 * n)
}

// ---------------------------------------------------------------------
// File records
// ---------------------------------------------------------------------

/// Whether the strings of a file are short enough to be stored.
pub open spec fn file_storable(f: FileView) -> bool {
    encode_utf8(f.name).len() <= MAX_COUNT && encode_utf8(f.media_type).len() <= MAX_COUNT
}

/// A file record: parent, owner, name, media type. The identifier is the
/// key, and the permissions have a record of their own.
pub open spec fn file_bytes(f: FileView) -> Seq<u8>
    recommends
        file_storable(f),
{
    be64(f.parent_id) + be64(f.owner_id) + str_bytes(f.name) + str_bytes(f.media_type)
}

/// The file that the record `b` under the key of `id` stands for, with no
/// permissions yet.
pub open spec fn parse_file(id: u64, b: Seq<u8>) -> Option<FileView> {
    if b.len() < 16 || str_at(b, 16) is None {
        None
    } else if str_at(b, 18 + count_at(b, 16)) is None {
        None
    } else {
        Some(
            FileView {
                id,
                parent_id: be64_value(b.subrange(0, 8)),
                owner_id: be64_value(b.subrange(8, 16)),
                read_group_ids: Seq::empty(),
                write_group_ids: Seq::empty(),
                name: str_at(b, 16)->0,
                media_type: str_at(b, 18 + count_at(b, 16))->0,
            },
        )
    }
}

/// The file that a file record and a permission record stand for together.
pub open spec fn file_of_entries(id: u64, record: Seq<u8>, perms: Seq<u8>) -> Option<FileView> {
    if parse_file(id, record) is None || !is_perm_record(perms) {
        None
    } else {
        Some(
            FileView {
                read_group_ids: read_groups_of(perms)->0,
                write_group_ids: write_groups_of(perms)->0,
                ..parse_file(id, record)->0
            },
        )
    }
}

/// A file without its permissions is read back from its record as it was
/// written.
pub proof fn lemma_file_record_round_trip(f: FileView)
    requires
        file_storable(f),
    ensures
        parse_file(f.id, file_bytes(f)) == Some(
            FileView { read_group_ids: Seq::empty(), write_group_ids: Seq::empty(), ..f },
        ),
{
    let b = file_bytes(f);
    let head = be64(f.parent_id) + be64(f.owner_id);
    let name = str_bytes(f.name);
    let media_type = str_bytes(f.media_type);
    assert(head.len() == 16);
    assert(b =~= head + name + media_type);
    lemma_str_round_trip(head, f.name, media_type);
    assert(str_at(b, 16) == Some(f.name));
    assert(count_at(b, 16) == encode_utf8(f.name).len());
    assert((head + name).len() == 18 + count_at(b, 16));
    lemma_str_round_trip(head + name, f.media_type, Seq::empty());
    assert(head + name + media_type + Seq::<u8>::empty() =~= b);
    assert(str_at(b, 18 + count_at(b, 16)) == Some(f.media_type));
    lemma_head_round_trip(f.parent_id, f.owner_id, name + media_type);
    assert(head + (name + media_type) =~= b);
}

/// The two identifiers at the head of a record are read back as they were
/// written.
pub proof fn lemma_head_round_trip(parent_id: u64, owner_id: u64, rest: Seq<u8>)
    ensures
        be64_value((be64(parent_id) + be64(owner_id) + rest).subrange(0, 8)) == parent_id,
        be64_value((be64(parent_id) + be64(owner_id) + rest).subrange(8, 16)) == owner_id,
{
    let b = be64(parent_id) + be64(owner_id) + rest;
    assert(b.subrange(0, 8) =~= be64(parent_id));
    assert(b.subrange(8, 16) =~= be64(owner_id));
    lemma_be64_round_trip(parent_id);
    lemma_be64_round_trip(owner_id);
}

/// A file is read back from its two records as it was written.
pub proof fn lemma_file_round_trip(f: FileView)
    requires
        file_storable(f),
        f.read_group_ids.len() <= MAX_COUNT,
        f.write_group_ids.len() <= MAX_COUNT,
    ensures
        file_of_entries(f.id, file_bytes(f), perm_bytes(f.read_group_ids, f.write_group_ids))
            == Some(f),
{
    lemma_file_record_round_trip(f);
    lemma_permissions_round_trip(f.read_group_ids, f.write_group_ids);
}

/// The record of a file; `BadCall` if its name or media type is too long.
pub fn encode_file(parent_id: u64, owner_id: u64, name: &str, media_type: &str) -> (r: Result<
    Vec<u8>,
    Error,
>)
    ensures
        match r {
            Ok(b) => {
                &&& encode_utf8(name@).len() <= MAX_COUNT
                &&& encode_utf8(media_type@).len() <= MAX_COUNT
                &&& b@ == be64(parent_id) + be64(owner_id) + str_bytes(name@) + str_bytes(
                    media_type@,
                )
            },
            Err(e) => (encode_utf8(name@).len() > MAX_COUNT || encode_utf8(media_type@).len()
                > MAX_COUNT) && e is BadCall,
        },
{
    let mut buf: Vec<u8> = Vec::new();
    put_u64(&mut buf, parent_id);
    put_u64(&mut buf, owner_id);
    match string_to_bytes(name, &mut buf) {
        Ok(_) => {},
        Err(e) => {
            return Err(e);
        },
    }
    match string_to_bytes(media_type, &mut buf) {
        Ok(_) => {},
        Err(e) => {
            return Err(e);
        },
    }
    assert(buf@ =~= be64(parent_id) + be64(owner_id) + str_bytes(name@) + str_bytes(media_type@));
    Ok(buf)
}

/// Reads a file record; the file comes without permissions.
pub fn decode_file(id: u64, bytes: &[u8]) -> (r: Result<File, Error>)
    ensures
        match r {
            Ok(f) => parse_file(id, bytes@) == Some(f@),
            Err(e) => parse_file(id, bytes@) is None && e is EncodingError,
        },
{
    if bytes.len() < 16 {
        return Err(Error::EncodingError);
    }
    let (name, used) = match parse_db_string_at(bytes, 16) {
        Ok(p) => p,
        Err(e) => {
            return Err(e);
        },
    };
    let (media_type, _) = match parse_db_string_at(bytes, 16 + used) {
        Ok(p) => p,
        Err(e) => {
            return Err(e);
        },
    };
    Ok(
        File {
            id,
            parent_id: read_u64(bytes, 0),
            owner_id: read_u64(bytes, 8),
            read_group_ids: Vec::new(),
            write_group_ids: Vec::new(),
            name,
            media_type,
        },
    )
}

// ---------------------------------------------------------------------
// Directory records
// ---------------------------------------------------------------------

/// A directory record: parent, owner, the list of children, and the name in
/// the bytes that remain.
pub open spec fn dir_bytes(parent_id: u64, owner_id: u64, child_ids: Seq<u64>, name: Seq<char>) ->
    Seq<u8>
    recommends
        child_ids.len() <= MAX_COUNT,
{
    be64(parent_id) + be64(owner_id) + id_list_bytes(child_ids) + encode_utf8(name)
}

/// Where the name starts in the directory record `b`.
pub open spec fn dir_name_start(b: Seq<u8>) -> int {
    18 + 8 * count_at(b, 16)
}

/// The directory that the record `b` under the key of `id` stands for, with
/// no permissions yet.
pub open spec fn parse_dir(id: u64, b: Seq<u8>) -> Option<DirView> {
    if b.len() < 16 || id_list_at(b, 16) is None {
        None
    } else if text_of(b.skip(dir_name_start(b))) is None {
        None
    } else {
        Some(
            DirView {
                id,
                parent_id: be64_value(b.subrange(0, 8)),
                owner_id: be64_value(b.subrange(8, 16)),
                read_group_ids: Seq::empty(),
                write_group_ids: Seq::empty(),
                child_ids: id_list_at(b, 16)->0,
                name: text_of(b.skip(dir_name_start(b)))->0,
            },
        )
    }
}

/// The directory that a directory record and a permission record stand for
/// together.
pub open spec fn dir_of_entries(id: u64, record: Seq<u8>, perms: Seq<u8>) -> Option<DirView> {
    if parse_dir(id, record) is None || !is_perm_record(perms) {
        None
    } else {
        Some(
            DirView {
                read_group_ids: read_groups_of(perms)->0,
                write_group_ids: write_groups_of(perms)->0,
                ..parse_dir(id, record)->0
            },
        )
    }
}

/// A directory without its permissions is read back from its record as it
/// was written.
pub proof fn lemma_dir_record_round_trip(d: DirView)
    requires
        d.child_ids.len() <= MAX_COUNT,
    ensures
        dir_name_start(dir_bytes(d.parent_id, d.owner_id, d.child_ids, d.name)) == 18 + 8
            * d.child_ids.len(),
        parse_dir(d.id, dir_bytes(d.parent_id, d.owner_id, d.child_ids, d.name)) == Some(
            DirView { read_group_ids: Seq::empty(), write_group_ids: Seq::empty(), ..d },
        ),
{
    let b = dir_bytes(d.parent_id, d.owner_id, d.child_ids, d.name);
    let head = be64(d.parent_id) + be64(d.owner_id);
    let list = id_list_bytes(d.child_ids);
    let name = encode_utf8(d.name);
    assert(head.len() == 16);
    assert(b =~= head + list + name);
    lemma_id_list_round_trip(head, d.child_ids, name);
    assert(count_at(b, 16) == d.child_ids.len());
    assert(id_list_at(b, 16) == Some(d.child_ids));
    assert(list.len() == 2 + 8 * d.child_ids.len());
    assert(dir_name_start(b) == 18 + 8 * d.child_ids.len());
    assert(b.skip(dir_name_start(b)) =~= name);
    lemma_text_round_trip(d.name);
    lemma_head_round_trip(d.parent_id, d.owner_id, list + name);
    assert(head + (list + name) =~= b);
}

/// A directory is read back from its two records as it was written.
pub proof fn lemma_dir_round_trip(d: DirView)
    requires
        d.child_ids.len() <= MAX_COUNT,
        d.read_group_ids.len() <= MAX_COUNT,
        d.write_group_ids.len() <= MAX_COUNT,
    ensures
        dir_of_entries(
            d.id,
            dir_bytes(d.parent_id, d.owner_id, d.child_ids, d.name),
            perm_bytes(d.read_group_ids, d.write_group_ids),
        ) == Some(d),
{
    lemma_dir_record_round_trip(d);
    lemma_permissions_round_trip(d.read_group_ids, d.write_group_ids);
}

/// The record of a directory; `BadCall` if it has more than `MAX_COUNT`
/// children.
pub fn encode_dir(parent_id: u64, owner_id: u64, child_ids: &[u64], name: &str) -> (r: Result<
    Vec<u8>,
    Error,
>)
    ensures
        match r {
            Ok(b) => child_ids@.len() <= MAX_COUNT && b@ == dir_bytes(
                parent_id,
                owner_id,
                child_ids@,
                name@,
            ),
            Err(e) => child_ids@.len() > MAX_COUNT && e is BadCall,
        },
{
    let mut buf: Vec<u8> = Vec::new();
    put_u64(&mut buf, parent_id);
    put_u64(&mut buf, owner_id);
    match serialize_id_list(child_ids, &mut buf) {
        Ok(_) => {},
        Err(e) => {
            return Err(e);
        },
    }
    put_bytes(&mut buf, name.as_bytes());
    assert(buf@ =~= dir_bytes(parent_id, owner_id, child_ids@, name@));
    Ok(buf)
}

/// Reads a directory record; the directory comes without permissions.
pub fn entry_to_dir_incomplete(id: u64, bytes: &[u8]) -> (r: Result<Dir, Error>)
    ensures
        match r {
            Ok(d) => parse_dir(id, bytes@) == Some(d@),
            Err(e) => parse_dir(id, bytes@) is None && e is EncodingError,
        },
{
    if bytes.len() < 16 {
        return Err(Error::EncodingError);
    }
    let child_ids = match parse_id_list_at(bytes, 16) {
        Ok(ids) => ids,
        Err(e) => {
            return Err(e);
        },
    };
    let start: usize = 18 + 8 * child_ids.len();
    assert(bytes@.skip(start as int) =~= bytes@.subrange(start as int, bytes@.len() as int));
    let name = match parse_text(bytes, start, bytes.len()) {
        Ok(s) => s,
        Err(e) => {
            return Err(e);
        },
    };
    Ok(
        Dir {
            id,
            parent_id: read_u64(bytes, 0),
            owner_id: read_u64(bytes, 8),
            read_group_ids: Vec::new(),
            write_group_ids: Vec::new(),
            child_ids,
            name,
        },
    )
}

// ---------------------------------------------------------------------
// Group records
// ---------------------------------------------------------------------

/// A group record: the members, the admins, and the name in the bytes that
/// remain.
pub open spec fn group_bytes(member_ids: Seq<u64>, admin_ids: Seq<u64>, name: Seq<char>) -> Seq<
    u8,
>
    recommends
        member_ids.len() <= MAX_COUNT,
        admin_ids.len() <= MAX_COUNT,
{
    id_list_bytes(member_ids) + id_list_bytes(admin_ids) + encode_utf8(name)
}

/// Where the list of admins starts in the group record `b`.
pub open spec fn group_admins_start(b: Seq<u8>) -> int {
    2 + 8 * count_at(b, 0)
}

/// Where the name starts in the group record `b`.
pub open spec fn group_name_start(b: Seq<u8>) -> int {
    group_admins_start(b) + 2 + 8 * count_at(b, group_admins_start(b))
}

/// The group that the record `b` under the key of `id` stands for.
pub open spec fn parse_group(id: u64, b: Seq<u8>) -> Option<GroupView> {
    if id_list_at(b, 0) is None || id_list_at(b, group_admins_start(b)) is None {
        None
    } else if text_of(b.skip(group_name_start(b))) is None {
        None
    } else {
        Some(
            GroupView {
                id,
                name: text_of(b.skip(group_name_start(b)))->0,
                member_ids: id_list_at(b, 0)->0,
                admin_ids: id_list_at(b, group_admins_start(b))->0,
            },
        )
    }
}

/// A group is read back from its record as it was written.
pub proof fn lemma_group_round_trip(g: GroupView)
    requires
        g.member_ids.len() <= MAX_COUNT,
        g.admin_ids.len() <= MAX_COUNT,
    ensures
        parse_group(g.id, group_bytes(g.member_ids, g.admin_ids, g.name)) == Some(g),
{
    let b = group_bytes(g.member_ids, g.admin_ids, g.name);
    let members = id_list_bytes(g.member_ids);
    let admins = id_list_bytes(g.admin_ids);
    lemma_id_list_round_trip(Seq::empty(), g.member_ids, admins + encode_utf8(g.name));
    assert(Seq::<u8>::empty() + members + (admins + encode_utf8(g.name)) =~= b);
    lemma_id_list_round_trip(members, g.admin_ids, encode_utf8(g.name));
    assert(members + admins + encode_utf8(g.name) =~= b);
    assert(b.skip(group_name_start(b)) =~= encode_utf8(g.name));
    lemma_text_round_trip(g.name);
}

/// The record of a group; `BadCall` if it has more than `MAX_COUNT` members
/// or admins.
pub fn encode_group(member_ids: &[u64], admin_ids: &[u64], name: &str) -> (r: Result<
    Vec<u8>,
    Error,
>)
    ensures
        match r {
            Ok(b) => member_ids@.len() <= MAX_COUNT && admin_ids@.len() <= MAX_COUNT && b@
                == group_bytes(member_ids@, admin_ids@, name@),
            Err(e) => (member_ids@.len() > MAX_COUNT || admin_ids@.len() > MAX_COUNT) && e
                is BadCall,
        },
{
    let mut buf: Vec<u8> = Vec::new();
    match serialize_id_list(member_ids, &mut buf) {
        Ok(_) => {},
        Err(e) => {
            return Err(e);
        },
    }
    match serialize_id_list(admin_ids, &mut buf) {
        Ok(_) => {},
        Err(e) => {
            return Err(e);
        },
    }
    put_bytes(&mut buf, name.as_bytes());
    assert(buf@ =~= group_bytes(member_ids@, admin_ids@, name@));
    Ok(buf)
}

/// Reads a group record.
pub fn decode_group(id: u64, bytes: &[u8]) -> (r: Result<Group, Error>)
    ensures
        match r {
            Ok(g) => parse_group(id, bytes@) == Some(g@),
            Err(e) => parse_group(id, bytes@) is None && e is EncodingError,
        },
{
    let member_ids = match parse_id_list_at(bytes, 0) {
        Ok(ids) => ids,
        Err(e) => {
            return Err(e);
        },
    };
    let admins_start: usize = 2 + 8 * member_ids.len();
    let admin_ids = match parse_id_list_at(bytes, admins_start) {
        Ok(ids) => ids,
        Err(e) => {
            return Err(e);
        },
    };
    let start: usize = admins_start + 2 + 8 * admin_ids.len();
    assert(bytes@.skip(start as int) =~= bytes@.subrange(start as int, bytes@.len() as int));
    let name = match parse_text(bytes, start, bytes.len()) {
        Ok(s) => s,
        Err(e) => {
            return Err(e);
        },
    };
    Ok(Group { id, name, member_ids, admin_ids })
}

} // verus!
