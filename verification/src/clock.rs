//! The time of day, as the engine needs it for sessions.

use vstd::prelude::*;

verus! {

/// `chrono::Utc::now` and `DateTime::timestamp`: the present second, counted
/// from 1970 in UTC. Which one it is, is not known.
#[verifier::external_body]
pub(crate) fn now_timestamp() -> i64 {
    chrono::Utc::now().timestamp()
}

/// A count of seconds as the 64 bits that stand for it in two's complement.
pub open spec fn stamp_bits(t: i64) -> u64 {
    if t >= 0 {
        t as u64
    } else {
        (t + 0x1_0000_0000_0000_0000) as u64
    }
}

/// The count of seconds that 64 bits stand for in two's complement.
pub open spec fn stamp_of(bits: u64) -> i64 {
    if bits < 0x8000_0000_0000_0000 {
        bits as i64
    } else {
        (bits - 0x1_0000_0000_0000_0000) as i64
    }
}

/// The bits of a count stand for that count.
pub proof fn lemma_stamp_round_trip(t: i64)
    ensures
        stamp_of(stamp_bits(t)) == t,
{
}

/// The bits of a count of seconds.
pub fn stamp_to_bits(t: i64) -> (bits: u64)
    ensures
        bits == stamp_bits(t),
{
    if t >= 0 {
        t as u64
    } else {
        ((t + 1 + i64::MAX) as u64) + 0x8000_0000_0000_0000
    }
}

/// The count of seconds that the bits stand for.
pub fn stamp_from_bits(bits: u64) -> (t: i64)
    ensures
        t == stamp_of(bits),
{
    if bits < 0x8000_0000_0000_0000 {
        bits as i64
    } else {
        ((bits - 0x8000_0000_0000_0000) as i64) + i64::MIN
    }
}

} // verus!
