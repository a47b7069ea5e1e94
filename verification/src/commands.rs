//! Control commands of the engine, and the outcome of parking and restoring a
//! session.

use crate::engine_state::InFlight;
use crate::policy::{clamp_repeat_window, clear_work_slot, cleared, is_idle, REPEAT_WINDOW_MAX};
use crate::policy::all_idle;
use crate::scheduler::{greatest, least, PendingWork};
use crate::serve_contract::{CacheDomain, DomainView};
use vstd::prelude::*;
use vstd::string::StringExecFns;

verus! {

/// The request that starts in a slot. `prefix_hit` says that `reused` tokens
/// come from the prefix cache; a cold turn publishes from there on.
pub fn request_in_flight(
    session: u64,
    max_tokens: usize,
    repeat_window: usize,
    cold: bool,
    reused: usize,
    prefix_hit: bool,
    constrained: bool,
) -> (r: InFlight)
    ensures
        r == (InFlight {
            session,
            produced: 0,
            max_tokens: greatest(max_tokens as int, 1) as usize,
            repeat_window_req: least(repeat_window as int, REPEAT_WINDOW_MAX as int) as usize,
            reused_tokens: if cold && prefix_hit {
                reused
            } else {
                0
            },
            last_published_boundary: if cold {
                reused
            } else {
                0
            },
            constrained,
        }),
{
    InFlight {
        session,
        produced: 0,
        max_tokens: if max_tokens >= 1 {
            max_tokens
        } else {
            1
        },
        repeat_window_req: clamp_repeat_window(repeat_window),
        reused_tokens: if cold && prefix_hit {
            reused
        } else {
            0
        },
        last_published_boundary: if cold {
            reused
        } else {
            0
        },
        constrained,
    }
}

/// The first slot that serves `session`.
pub open spec fn serving_slot(slots: Seq<Option<InFlight>>, session: u64, s: int) -> bool {
    &&& 0 <= s < slots.len()
    &&& slots[s] is Some
    &&& slots[s]->Some_0.session == session
    &&& forall|j: int|
        0 <= j < s ==> !((#[trigger] slots[j]) is Some && slots[j]->Some_0.session == session)
}

/// Takes a session's request out of its slot, if it has one, and clears the
/// slot's work. Closing is never ignored: an idle session is closed as well, so
/// the caller forgets and closes it whatever this returns.
pub fn cancel_session(
    slots: &mut Vec<Option<InFlight>>,
    work: &mut Vec<PendingWork>,
    session: u64,
) -> (r: Option<usize>)
    requires
        old(slots)@.len() == old(work)@.len(),
    ensures
        match r {
            Some(s) => {
                &&& serving_slot(old(slots)@, session, s as int)
                &&& final(slots)@ == old(slots)@.update(s as int, None)
                &&& final(work)@ == old(work)@.update(s as int, final(work)@[s as int])
                &&& cleared(old(work)@[s as int], final(work)@[s as int])
            },
            None => {
                &&& forall|j: int|
                    0 <= j < old(slots)@.len() ==> !((#[trigger] old(slots)@[j]) is Some && old(
                        slots,
                    )@[j]->Some_0.session == session)
                &&& final(slots)@ == old(slots)@
                &&& final(work)@ == old(work)@
            },
        },
{
    let mut s: usize = 0;
    while s < slots.len()
        invariant
            s <= slots@.len(),
            slots@.len() == work@.len(),
            slots@ == old(slots)@,
            work@ == old(work)@,
            forall|j: int|
                0 <= j < s ==> !((#[trigger] slots@[j]) is Some && slots@[j]->Some_0.session
                    == session),
        decreases slots@.len() - s,
    {
        let here: bool = match &slots[s] {
            Some(f) => f.session == session,
            None => false,
        };
        if here {
            slots[s] = None;
            let w = &mut work[s];
            clear_work_slot(w);
            return Some(s);
        }
        s = s + 1;
    }
    None
}

/// Whether everything may be dropped: not while a request is in flight or
/// waiting.
pub fn check_reset(slots: &[Option<InFlight>], queued: usize) -> (r: Result<(), String>)
    ensures
        match r {
            Ok(_) => all_idle(slots@) && queued == 0,
            Err(e) => if !all_idle(slots@) {
                e@ == "reset rejected: requests in flight"@
            } else {
                queued > 0 && e@ == "reset rejected: requests queued in the wait room"@
            },
        },
{
    if !is_idle(slots) {
        Err(String::from_str("reset rejected: requests in flight"))
    } else if queued > 0 {
        Err(String::from_str("reset rejected: requests queued in the wait room"))
    } else {
        Ok(())
    }
}

/// Moves a cache domain to a new allocation epoch, so that nothing cached under
/// the old one is found again.
pub fn bump_allocation_epoch(domain: &mut CacheDomain)
    requires
        old(domain).device.allocation_epoch < u64::MAX,
    ensures
        final(domain)@ == (DomainView {
            device: (
                old(domain)@.device.0,
                old(domain)@.device.1,
                (old(domain)@.device.2 + 1) as u64,
            ),
            ..old(domain)@
        }),
{
    domain.device.allocation_epoch = domain.device.allocation_epoch + 1;
}

/// A domain after a reset is none that was used before it.
pub proof fn law_reset_invalidates_the_domain(before: DomainView, after: DomainView)
    requires
        after == (DomainView {
            device: (before.device.0, before.device.1, (before.device.2 + 1) as u64),
            ..before
        }),
        before.device.2 < u64::MAX,
    ensures
        after != before,
{
}

/// What becomes of a session that is to leave its slot.
#[derive(Debug, Clone, Copy, PartialEq, Eq, Structural)]
pub enum EvictOutcome {
    /// It holds no slot: nothing was evicted.
    NothingToEvict,
    /// Its state is parked.
    Swapped,
    /// Its state is lost; its tokens survive, so it is prefilled again.
    Cold,
}

/// The outcome of capturing and parking a session's state. Anything that goes
/// wrong makes the session cold: slow, never wrong.
pub fn evict_outcome(holds_slot: bool, captured: bool, parked: bool) -> (r: EvictOutcome)
    ensures
        r == if !holds_slot {
            EvictOutcome::NothingToEvict
        } else if captured && parked {
            EvictOutcome::Swapped
        } else {
            EvictOutcome::Cold
        },
{
    if !holds_slot {
        EvictOutcome::NothingToEvict
    } else if captured && parked {
        EvictOutcome::Swapped
    } else {
        EvictOutcome::Cold
    }
}

/// Whether an eviction went well.
pub fn evicted_well(outcome: EvictOutcome) -> (r: bool)
    ensures
        r == (outcome == EvictOutcome::Swapped),
{
    outcome == EvictOutcome::Swapped
}

/// Whether a parked session is resident again; any failure leaves it cold.
pub fn restored_well(unparked: bool, restored: bool) -> (r: bool)
    ensures
        r == (unparked && restored),
{
    unparked && restored
}

/// A session's request is found wherever it runs: there is a slot to cancel exactly
/// where some slot serves the session, and it is one that does.
pub proof fn law_running_sessions_are_found(
    slots: Seq<Option<InFlight>>,
    session: u64,
    s: int,
)
    requires
        0 <= s < slots.len(),
        slots[s] is Some,
        slots[s]->Some_0.session == session,
    ensures
        exists|k: int| k <= s && #[trigger] serving_slot(slots, session, k),
    decreases s,
{
    if exists|j: int|
        0 <= j < s && (#[trigger] slots[j]) is Some && slots[j]->Some_0.session == session {
        let j = choose|j: int|
            0 <= j < s && (#[trigger] slots[j]) is Some && slots[j]->Some_0.session == session;
        law_running_sessions_are_found(slots, session, j);
        let k = choose|k: int| k <= j && #[trigger] serving_slot(slots, session, k);
        assert(serving_slot(slots, session, k));
    } else {
        assert(serving_slot(slots, session, s));
    }
}

} // verus!
