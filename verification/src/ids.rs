//! Where new identifiers come from.

use vstd::prelude::*;
use rand::RngCore;

verus! {

/// How many proposals for a new identifier are tried before the engine
/// gives up.
pub const MAX_TRIES: usize = 1000;

/// `RngCore::next_u64` on `rand::thread_rng()`: some number; which one is
/// not known.
#[verifier::external_body]
pub(crate) fn random_u64() -> u64 {
    rand::thread_rng().next_u64()
}

/// Whether `candidate` can be used as a new identifier: it is not zero, and
/// the check finds it not in use.
pub open spec fn accepted<F: Fn(u64) -> bool>(existing_check: F, candidate: u64) -> bool {
    candidate != 0 && call_ensures(existing_check, (candidate,), false)
}

/// Whether `candidate` cannot be used as a new identifier: it is zero, or
/// the check finds it in use.
pub open spec fn refused<F: Fn(u64) -> bool>(existing_check: F, candidate: u64) -> bool {
    candidate == 0 || call_ensures(existing_check, (candidate,), true)
}

/// Whether `r` is what comes of the draws, taken one after the other: every
/// draw but the last is refused; the last is the identifier that is
/// returned, or it is the last of `MAX_TRIES` draws and refused too.
pub open spec fn drawn<F: Fn(u64) -> bool>(existing_check: F, draws: Seq<u64>, r: Option<u64>) ->
    bool {
    &&& 0 < draws.len() <= MAX_TRIES
    &&& forall|i: int| 0 <= i < draws.len() - 1 ==> refused(existing_check, #[trigger] draws[i])
    &&& match r {
        Some(id) => draws.last() == id && accepted(existing_check, id),
        None => draws.len() == MAX_TRIES && refused(existing_check, draws.last()),
    }
}

/// Judges one proposed identifier: it is handed back if it is not zero and
/// the check finds it not in use. The check is not asked about zero.
pub fn try_candidate<F: Fn(u64) -> bool>(candidate: u64, existing_check: &F) -> (r: Option<u64>)
    requires
        call_requires(*existing_check, (candidate,)),
    ensures
        match r {
            Some(id) => id == candidate && accepted(*existing_check, candidate),
            None => refused(*existing_check, candidate),
        },
{
    if candidate == 0 {
        return None;
    }
    if existing_check(candidate) {
        None
    } else {
        Some(candidate)
    }
}

/// Draws random identifiers until one is not zero and, by `existing_check`,
/// not in use, and returns it; `None` after `MAX_TRIES` draws in vain.
///
/// Which identifiers are drawn is not known; whatever they are, the result
/// is what `drawn` says of them.
///
/// An identifier that was free when it was checked may be taken when it is
/// used. The operations that store something under a new identifier
/// therefore check once more, in the transaction that stores it.
pub fn allocate<F: Fn(u64) -> bool>(existing_check: F) -> (r: Option<u64>)
    requires
        forall|id: u64| call_requires(existing_check, (id,)),
    ensures
        r matches Some(id) ==> accepted(existing_check, id),
        exists|draws: Seq<u64>| #[trigger] drawn(existing_check, draws, r),
{
    let ghost mut draws: Seq<u64> = Seq::empty();
    let mut tries: usize = 0;
    while tries < MAX_TRIES
        invariant
            forall|id: u64| call_requires(existing_check, (id,)),
            tries <= MAX_TRIES,
            draws.len() == tries,
            forall|i: int| 0 <= i < draws.len() ==> refused(existing_check, #[trigger] draws[i]),
        decreases MAX_TRIES - tries,
    {
        let candidate = random_u64();
        proof {
            draws = draws.push(candidate);
        }
        match try_candidate(candidate, &existing_check) {
            Some(id) => {
                assert(drawn(existing_check, draws, Some(id)));
                return Some(id);
            },
            None => {},
        }
        tries += 1;
    }
    assert(drawn(existing_check, draws, None::<u64>));
    None
}

} // verus!
