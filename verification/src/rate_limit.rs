//! The rate limit that all workers share.

use vstd::prelude::*;

verus! {

pub const NANOS_PER_SEC: u128 = 1_000_000_000;

/// A pause that the rate limit asks for.
pub struct Pause {
    /// How long the pause is, in nanoseconds.
    pub nanos: u128,
    /// What the status line says, in seconds.
    pub shown_secs: u128,
}

/// Until when all workers hold back. Moments are nanoseconds on one clock.
pub struct RateState {
    pub blocked_until: Option<u128>,
}

impl Default for RateState {
    fn default() -> (state: Self)
        ensures
            state.blocked_until is None,
    {
        RateState { blocked_until: None }
    }
}

/// The later of a moment that may not be set and another one.
pub open spec fn later(moment: Option<u128>, other: u128) -> u128 {
    match moment {
        Some(m) => if other > m {
            other
        } else {
            m
        },
        None => other,
    }
}

/// The end of a block of `wait_secs` seconds from the moment `now` on.
pub open spec fn block_end(now: u128, wait_secs: u64) -> u128 {
    (now + wait_secs * NANOS_PER_SEC) as u128
}

/// How many nanoseconds a worker holds back at the moment `now`.
pub open spec fn held_back(blocked_until: Option<u128>, now: u128) -> nat {
    match blocked_until {
        Some(until) => if until > now {
            (until - now) as nat
        } else {
            0
        },
        None => 0,
    }
}

impl RateState {
    /// The pause that a worker makes before a request at the moment `now`: up
    /// to the end of the block, where that is still to come. It is announced
    /// in whole seconds, and one more.
    pub fn pause(&self, now: u128) -> (pause: Option<Pause>)
        ensures
            pause is Some <==> held_back(self.blocked_until, now) > 0,
            pause matches Some(p) ==> p.nanos == held_back(self.blocked_until, now) && p.shown_secs
                == held_back(self.blocked_until, now) / NANOS_PER_SEC as nat + 1,
            pause is Some <==> self.blocked_until is Some && self.blocked_until->0 > now,
            pause matches Some(p) ==> now + p.nanos == self.blocked_until->0 && (p.shown_secs - 1)
                * 1_000_000_000 <= p.nanos < p.shown_secs * 1_000_000_000,
    {
        match self.blocked_until {
            Some(until) => {
                if until > now {
                    let nanos: u128 = until - now;
                    Some(Pause { nanos, shown_secs: nanos / NANOS_PER_SEC + 1 })
                } else {
                    None
                }
            },
            None => None,
        }
    }

    /// Blocks all workers for `wait_secs` seconds from the moment `now` on,
    /// unless they are blocked for longer already.
    pub fn block_for(&mut self, now: u128, wait_secs: u64)
        requires
            now + wait_secs * NANOS_PER_SEC <= u128::MAX,
        ensures
            final(self).blocked_until == Some(
                later(old(self).blocked_until, block_end(now, wait_secs)),
            ),
            final(self).blocked_until matches Some(until) && until >= now + wait_secs
                * 1_000_000_000 && (old(self).blocked_until matches Some(b) ==> until >= b) && (
            until == now + wait_secs * 1_000_000_000 || old(self).blocked_until == Some(until)),
    {
        let proposed: u128 = now + wait_secs as u128 * NANOS_PER_SEC;
        let extend = match self.blocked_until {
            Some(current) => proposed > current,
            None => true,
        };
        if extend {
            self.blocked_until = Some(proposed);
        }
    }
}

/// A busy server that asks at the moment `now` for a wait of `wait_secs` seconds
/// is left alone for that long: up to then every worker holds back, at whatever
/// moment it looks, and an earlier block is never ended sooner.
pub proof fn law_block_is_honoured(
    before: Option<u128>,
    now: u128,
    wait_secs: u64,
    moment: u128,
)
    requires
        now + wait_secs * NANOS_PER_SEC <= u128::MAX,
    ensures
        ({
            let after = Some(later(before, block_end(now, wait_secs)));
            &&& moment + held_back(after, moment) >= now + wait_secs * NANOS_PER_SEC
            &&& held_back(after, moment) >= held_back(before, moment)
        }),
{
}

/// The order in which two workers block does not matter.
pub proof fn law_blocks_commute(before: Option<u128>, a: u128, b: u128)
    ensures
        later(Some(later(before, a)), b) == later(Some(later(before, b)), a),
{
}

/// Workers hold back for no longer than they were asked to: at the moment `moment`
/// a worker waits for the end of the block of `wait_secs` seconds or of the one
/// before, whichever is later, and not at all once both are over.
pub proof fn law_block_holds_back_no_longer(
    before: Option<u128>,
    now: u128,
    wait_secs: u64,
    moment: u128,
)
    requires
        now + wait_secs * 1_000_000_000 <= u128::MAX,
    ensures
        ({
            let held = held_back(Some(later(before, block_end(now, wait_secs))), moment);
            let end = now + wait_secs * 1_000_000_000;
            &&& moment + held >= end
            &&& before matches Some(b) ==> moment + held >= b
            &&& held == 0 || moment + held == end || before == Some((moment + held) as u128)
        }),
{
}

/// Without a block nobody holds back.
pub proof fn law_no_block_holds_nobody_back(moment: u128)
    ensures
        held_back(None, moment) == 0,
{
}

} // verus!
