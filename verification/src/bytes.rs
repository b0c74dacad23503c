//! Big-endian integers, as they are laid out in keys and records.

use vstd::prelude::*;

verus! {

/// The two bytes of `x`, most significant first.
pub open spec fn be16(x: u16) -> Seq<u8> {
    seq![(x / 256) as u8, (x % 256) as u8]
}

/// The number that the first two bytes of `b` spell, most significant first.
pub open spec fn be16_value(b: Seq<u8>) -> u16
    recommends
        b.len() >= 2,
{
    (b[0] as int * 256 + b[1] as int) as u16
}

/// The eight bytes of `x`, most significant first.
pub open spec fn be64(x: u64) -> Seq<u8> {
    let q1 = x / 256;
    let q2 = q1 / 256;
    let q3 = q2 / 256;
    let q4 = q3 / 256;
    let q5 = q4 / 256;
    let q6 = q5 / 256;
    let q7 = q6 / 256;
    seq![
        (q7 % 256) as u8,
        (q6 % 256) as u8,
        (q5 % 256) as u8,
        (q4 % 256) as u8,
        (q3 % 256) as u8,
        (q2 % 256) as u8,
        (q1 % 256) as u8,
        (x % 256) as u8,
    ]
}

/// The number that the first eight bytes of `b` spell, most significant first.
pub open spec fn be64_value(b: Seq<u8>) -> u64
    recommends
        b.len() >= 8,
{
    (((((((b[0] as int * 256 + b[1] as int) * 256 + b[2] as int) * 256 + b[3] as int) * 256
        + b[4] as int) * 256 + b[5] as int) * 256 + b[6] as int) * 256 + b[7] as int) as u64
}

/// Reading back what `be64` wrote gives the number again.
pub proof fn lemma_be64_round_trip(x: u64)
    ensures
        be64(x).len() == 8,
        be64_value(be64(x)) == x,
{
    let q1 = x / 256;
    let q2 = q1 / 256;
    let q3 = q2 / 256;
    let q4 = q3 / 256;
    let q5 = q4 / 256;
    let q6 = q5 / 256;
    let q7 = q6 / 256;
    assert(q7 < 256);
    let v1 = q7 as int * 256 + (q6 % 256) as int;
    assert(v1 == q6);
    let v2 = v1 * 256 + (q5 % 256) as int;
    assert(v2 == q5);
    let v3 = v2 * 256 + (q4 % 256) as int;
    assert(v3 == q4);
    let v4 = v3 * 256 + (q3 % 256) as int;
    assert(v4 == q3);
    let v5 = v4 * 256 + (q2 % 256) as int;
    assert(v5 == q2);
    let v6 = v5 * 256 + (q1 % 256) as int;
    assert(v6 == q1);
    let v7 = v6 * 256 + (x % 256) as int;
    assert(v7 == x);
}

/// Different numbers have different encodings.
pub proof fn lemma_be64_injective(x: u64, y: u64)
    requires
        be64(x) == be64(y),
    ensures
        x == y,
{
    lemma_be64_round_trip(x);
    lemma_be64_round_trip(y);
}

/// Appends the two bytes of `x` to `buf`.
pub fn put_u16(buf: &mut Vec<u8>, x: u16)
    ensures
        final(buf)@ == old(buf)@ + be16(x),
{
    buf.push((x / 256) as u8);
    buf.push((x % 256) as u8);
    assert(buf@ =~= old(buf)@ + be16(x));
}

/// Appends the eight bytes of `x` to `buf`.
pub fn put_u64(buf: &mut Vec<u8>, x: u64)
    ensures
        final(buf)@ == old(buf)@ + be64(x),
{
    let q1: u64 = x / 256;
    let q2: u64 = q1 / 256;
    let q3: u64 = q2 / 256;
    let q4: u64 = q3 / 256;
    let q5: u64 = q4 / 256;
    let q6: u64 = q5 / 256;
    let q7: u64 = q6 / 256;
    buf.push((q7 % 256) as u8);
    buf.push((q6 % 256) as u8);
    buf.push((q5 % 256) as u8);
    buf.push((q4 % 256) as u8);
    buf.push((q3 % 256) as u8);
    buf.push((q2 % 256) as u8);
    buf.push((q1 % 256) as u8);
    buf.push((x % 256) as u8);
    assert(buf@ =~= old(buf)@ + be64(x));
}

/// Appends `src` to `buf`.
pub fn put_bytes(buf: &mut Vec<u8>, src: &[u8])
    ensures
        final(buf)@ == old(buf)@ + src@,
{
    let mut i: usize = 0;
    while i < src.len()
        invariant
            i <= src@.len(),
            buf@ == old(buf)@ + src@.take(i as int),
        decreases src@.len() - i,
    {
        buf.push(src[i]);
        i += 1;
        assert(buf@ =~= old(buf)@ + src@.take(i as int));
    }
    assert(src@.take(i as int) =~= src@);
}

/// The bytes of `b` from `from` up to `to`, as a vector of their own.
pub fn copy_range(b: &[u8], from: usize, to: usize) -> (out: Vec<u8>)
    requires
        from <= to <= b@.len(),
    ensures
        out@ == b@.subrange(from as int, to as int),
{
    let mut out: Vec<u8> = Vec::new();
    let mut i: usize = from;
    while i < to
        invariant
            from <= i <= to <= b@.len(),
            out@ == b@.subrange(from as int, i as int),
        decreases to - i,
    {
        out.push(b[i]);
        i += 1;
        assert(out@ =~= b@.subrange(from as int, i as int));
    }
    out
}

/// Whether two byte strings are the same.
pub fn same_bytes(a: &[u8], b: &[u8]) -> (r: bool)
    ensures
        r == (a@ == b@),
{
    if a.len() != b.len() {
        return false;
    }
    let mut i: usize = 0;
    while i < a.len()
        invariant
            i <= a@.len() == b@.len(),
            forall|j: int| 0 <= j < i ==> a@[j] == b@[j],
        decreases a@.len() - i,
    {
        if a[i] != b[i] {
            return false;
        }
        i += 1;
    }
    assert(a@ =~= b@);
    true
}

/// The key under which the record of node, user, group or session `id` is kept.
pub fn id_key(id: u64) -> (key: Vec<u8>)
    ensures
        key@ == be64(id),
{
    let mut key: Vec<u8> = Vec::new();
    put_u64(&mut key, id);
    assert(key@ =~= be64(id));
    key
}

/// Reads the two bytes at `at` as a number.
pub fn read_u16(b: &[u8], at: usize) -> (x: u16)
    requires
        at + 2 <= b@.len(),
    ensures
        x == be16_value(b@.subrange(at as int, at + 2)),
{
    let hi: u16 = b[at] as u16;
    let lo: u16 = b[at + 1] as u16;
    hi * 256 + lo
}

/// Reads the eight bytes at `at` as a number.
pub fn read_u64(b: &[u8], at: usize) -> (x: u64)
    requires
        at + 8 <= b@.len(),
    ensures
        x == be64_value(b@.subrange(at as int, at + 8)),
{
    let mut x: u64 = b[at] as u64;
    x = x * 256 + b[at + 1] as u64;
    x = x * 256 + b[at + 2] as u64;
    x = x * 256 + b[at + 3] as u64;
    x = x * 256 + b[at + 4] as u64;
    x = x * 256 + b[at + 5] as u64;
    x = x * 256 + b[at + 6] as u64;
    x = x * 256 + b[at + 7] as u64;
    x
}

} // verus!
