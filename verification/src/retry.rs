//! When a request is worth repeating, and how long to wait before that.

use vstd::arithmetic::power2::{lemma_pow2, lemma_pow2_unfold, pow2};
use vstd::prelude::*;

verus! {

/// The status codes after which a request is repeated: 429 (too many requests)
/// and the server errors.
pub open spec fn is_busy(status: u16) -> bool {
    status == 429 || 500 <= status < 600
}

/// The status codes of success.
pub open spec fn is_success(status: u16) -> bool {
    200 <= status < 300
}

/// The delay that follows `delay`: twice as long, up to `cap`.
pub open spec fn doubled(delay: nat, cap: nat) -> nat {
    if 2 * delay <= cap {
        2 * delay
    } else {
        cap
    }
}

/// The delay after `failures` failed attempts.
pub open spec fn backoff(first: nat, cap: nat, failures: nat) -> nat
    decreases failures,
{
    if failures == 0 {
        first
    } else {
        doubled(backoff(first, cap, (failures - 1) as nat), cap)
    }
}

pub fn busy(status: u16) -> (yes: bool)
    ensures
        yes == is_busy(status),
{
    status == 429 || (500 <= status && status < 600)
}

pub fn success(status: u16) -> (yes: bool)
    ensures
        yes == is_success(status),
{
    200 <= status && status < 300
}

/// The delay that follows `delay`.
pub fn next_delay(delay: u64, cap: u64) -> (next: u64)
    ensures
        next == doubled(delay as nat, cap as nat),
{
    if delay <= cap / 2 {
        2 * delay
    } else {
        cap
    }
}

/// The backoff is exponential: after `failures` failures the delay is the first
/// one doubled that many times, or the cap where that is less.
pub proof fn law_backoff_is_exponential(first: nat, cap: nat, failures: nat)
    requires
        first <= cap,
    ensures
        backoff(first, cap, failures) == if first * pow2(failures) <= cap {
            first * pow2(failures)
        } else {
            cap
        },
    decreases failures,
{
    if failures == 0 {
        assert(pow2(0) == 1) by {
            lemma_pow2(0);
            reveal(vstd::arithmetic::power::pow);
        }
        assert(first * 1 == first);
    } else {
        let fewer = (failures - 1) as nat;
        law_backoff_is_exponential(first, cap, fewer);
        lemma_pow2_unfold(failures);
        assert(first * pow2(failures) == 2 * (first * pow2(fewer))) by (nonlinear_arith)
            requires
                pow2(failures) == 2 * pow2(fewer),
        ;
    }
}

/// A longer run of failures never shortens the delay, and no delay exceeds the
/// cap.
pub proof fn law_backoff_grows_up_to_the_cap(first: nat, cap: nat, failures: nat)
    requires
        first <= cap,
    ensures
        backoff(first, cap, failures) <= backoff(first, cap, failures + 1) <= cap,
        first <= backoff(first, cap, failures),
    decreases failures,
{
    if failures > 0 {
        law_backoff_grows_up_to_the_cap(first, cap, (failures - 1) as nat);
    }
}

/// A request is repeated after 429 and after every server error, and after no
/// other status code; the codes of success are those from 200 up to 299.
pub proof fn law_status_codes(status: u16)
    ensures
        is_busy(status) <==> status == 429 || status / 100 == 5,
        is_success(status) <==> status / 100 == 2,
        !(is_busy(status) && is_success(status)),
{
}

/// The delay doubles, but never beyond the cap.
pub proof fn law_delay_doubles_up_to_the_cap(delay: nat, cap: nat)
    ensures
        doubled(delay, cap) <= cap,
        doubled(delay, cap) <= delay + delay,
        doubled(delay, cap) == cap || doubled(delay, cap) == delay + delay,
{
}

} // verus!
