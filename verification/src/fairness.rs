//! Who may contribute rows to a step: grants of the fairness queue, the bounded
//! backfill for a starved request, and the scheduler's eligibility mask.

use crate::engine_state::InFlight;
use crate::scheduler::{
    is_runnable_decode, is_runnable_prefill, runnable_decode, runnable_prefill, PendingWork,
};
use std::collections::HashSet;
use vstd::prelude::*;

verus! {

broadcast use vstd::std_specs::hash::group_hash_axioms;

/// Rows granted to one request.
#[derive(Debug, Clone, Copy, PartialEq, Eq, Structural)]
pub enum Grant {
    Decode { id: u64 },
    Prefill { id: u64, rows: u64 },
    Verify { id: u64, rows: u64 },
}

/// The request a grant is for.
pub open spec fn grant_id(g: Grant) -> u64 {
    match g {
        Grant::Decode { id } => id,
        Grant::Prefill { id, rows: _ } => id,
        Grant::Verify { id, rows: _ } => id,
    }
}

impl Grant {
    /// The request this grant is for.
    pub fn id(&self) -> (r: u64)
        ensures
            r == grant_id(*self),
    {
        match self {
            Grant::Decode { id } => *id,
            Grant::Prefill { id, rows: _ } => *id,
            Grant::Verify { id, rows: _ } => *id,
        }
    }
}

/// What the fairness queue chose for one step.
#[derive(Debug)]
pub struct Selection {
    pub grants: Vec<Grant>,
    /// The oldest feasible request got nothing.
    pub starved_oldest: bool,
}

impl Default for Selection {
    /// Nothing granted, nobody starved.
    fn default() -> (s: Selection)
        ensures
            s.grants@.len() == 0,
            !s.starved_oldest,
    {
        Selection { grants: Vec::new(), starved_oldest: false }
    }
}

impl Selection {
    /// The requests with any grant.
    pub open spec fn granted(&self) -> Set<u64> {
        self.grants@.map_values(|g: Grant| grant_id(g)).to_set()
    }
}

/// The requests that received any grant this step.
pub fn eligible_ids_from_selection(sel: &Selection) -> (r: HashSet<u64>)
    ensures
        r@ == sel.granted(),
{
    let mut out: HashSet<u64> = HashSet::new();
    let mut i: usize = 0;
    let ghost ids = sel.grants@.map_values(|g: Grant| grant_id(g));
    assert(out@ =~= ids.take(0).to_set());
    while i < sel.grants.len()
        invariant
            i <= sel.grants@.len(),
            ids == sel.grants@.map_values(|g: Grant| grant_id(g)),
            out@ == ids.take(i as int).to_set(),
        decreases sel.grants@.len() - i,
    {
        out.insert(sel.grants[i].id());
        proof {
            let s = ids.take(i as int);
            assert(ids.take(i + 1) =~= s.push(ids[i as int]));
            lemma_to_set_push(s, ids[i as int]);
        }
        i = i + 1;
    }
    assert(ids.take(i as int) =~= ids);
    out
}

proof fn lemma_to_set_push(s: Seq<u64>, x: u64)
    ensures
        s.push(x).to_set() == s.to_set().insert(x),
{
    let t = s.push(x);
    assert(t[s.len() as int] == x);
    assert forall|y: u64| #[trigger] t.to_set().contains(y) == s.to_set().insert(x).contains(y) by {
        if s.contains(y) {
            let i = choose|i: int| 0 <= i < s.len() && s[i] == y;
            assert(t[i] == y);
        }
        if t.contains(y) && y != x {
            let i = choose|i: int| 0 <= i < t.len() && t[i] == y;
            assert(s[i] == y);
        }
    }
    assert(t.to_set() =~= s.to_set().insert(x));
}

/// Bounded backfill: when the oldest request is starved, only it stays
/// eligible, even without a grant of its own, so that it gets the budget.
pub fn apply_starved_backfill(sel: &Selection, oldest_id: u64) -> (r: HashSet<u64>)
    ensures
        r@ == if sel.starved_oldest {
            Set::empty().insert(oldest_id)
        } else {
            sel.granted()
        },
{
    if sel.starved_oldest {
        let mut out: HashSet<u64> = HashSet::new();
        out.insert(oldest_id);
        assert(out@ =~= Set::empty().insert(oldest_id));
        out
    } else {
        eligible_ids_from_selection(sel)
    }
}

/// The requests that may contribute rows: all that were granted some, or only
/// the oldest one in flight when it is starved.
pub open spec fn granted_to(sel: Selection, oldest: Option<u64>) -> Set<u64> {
    match oldest {
        Some(id) => if sel.starved_oldest {
            Set::empty().insert(id)
        } else {
            sel.granted()
        },
        None => sel.granted(),
    }
}

/// The requests that may contribute rows.
pub fn granted_ids(sel: &Selection, oldest: Option<u64>) -> (r: HashSet<u64>)
    ensures
        r@ == granted_to(*sel, oldest),
{
    match oldest {
        Some(id) => apply_starved_backfill(sel, id),
        None => eligible_ids_from_selection(sel),
    }
}

/// Slot `s` is in flight and known to the queue since tick `t`.
pub open spec fn tracked_at(
    slots: Seq<Option<InFlight>>,
    ticks: Seq<Option<u64>>,
    s: int,
    t: u64,
) -> bool {
    0 <= s < slots.len() && s < ticks.len() && slots[s] is Some && ticks[s] == Some(t)
}

/// `(t, id)` comes before `(u, other)`: by tick, then by id.
pub open spec fn older(t: u64, id: u64, u: u64, other: u64) -> bool {
    t < u || (t == u && id <= other)
}

/// `r` is the session of the oldest request in flight, by admission tick and
/// then by id; `None` when the queue knows none of them.
pub open spec fn is_oldest(
    slots: Seq<Option<InFlight>>,
    ticks: Seq<Option<u64>>,
    r: Option<u64>,
) -> bool {
    match r {
        Some(id) => exists|s: int, t: u64| #[trigger]
            tracked_at(slots, ticks, s, t) && slots[s]->Some_0.session == id && forall|
                j: int,
                u: u64,
            | #[trigger]
                tracked_at(slots, ticks, j, u) ==> older(t, id, u, slots[j]->Some_0.session),
        None => forall|j: int, u: u64| !#[trigger] tracked_at(slots, ticks, j, u),
    }
}

/// The session of the oldest request in flight. `ticks[s]` is the tick at which
/// the queue admitted slot `s`'s request, if it knows it.
pub fn oldest_active_session(slots: &[Option<InFlight>], ticks: &[Option<u64>]) -> (r: Option<u64>)
    ensures
        is_oldest(slots@, ticks@, r),
{
    let mut best: Option<(u64, u64)> = None;
    let ghost mut at: int = 0;
    let mut s: usize = 0;
    while s < slots.len() && s < ticks.len()
        invariant
            s <= slots@.len(),
            s <= ticks@.len(),
            match best {
                Some((t, id)) => {
                    &&& at < s
                    &&& tracked_at(slots@, ticks@, at, t)
                    &&& slots@[at]->Some_0.session == id
                    &&& forall|j: int, u: u64| #[trigger]
                        tracked_at(slots@, ticks@, j, u) && j < s ==> older(
                            t,
                            id,
                            u,
                            slots@[j]->Some_0.session,
                        )
                },
                None => forall|j: int, u: u64| #[trigger]
                    tracked_at(slots@, ticks@, j, u) ==> j >= s,
            },
        decreases slots@.len() - s,
    {
        match (&slots[s], ticks[s]) {
            (Some(f), Some(tick)) => {
                let better: bool = match best {
                    None => true,
                    Some((bt, bid)) => tick < bt || (tick == bt && f.session < bid),
                };
                assert(tracked_at(slots@, ticks@, s as int, tick));
                if better {
                    best = Some((tick, f.session));
                    proof {
                        at = s as int;
                    }
                }
            },
            _ => {},
        }
        s = s + 1;
    }
    match best {
        Some((_, id)) => Some(id),
        None => None,
    }
}

/// The slots in flight whose session is among `ids`.
pub open spec fn session_mask(slots: Seq<Option<InFlight>>, ids: Set<u64>) -> Seq<bool> {
    Seq::new(slots.len(), |s: int| slots[s] is Some && ids.contains(slots[s]->Some_0.session))
}

/// The scheduler's mask: a slot is eligible when it is in flight and its
/// session was granted.
pub fn eligibility_mask(slots: &[Option<InFlight>], ids: &HashSet<u64>) -> (r: Vec<bool>)
    ensures
        r@ == session_mask(slots@, ids@),
{
    let mut out: Vec<bool> = Vec::new();
    let mut s: usize = 0;
    while s < slots.len()
        invariant
            s <= slots@.len(),
            out@ =~= Seq::new(
                s as nat,
                |s: int| slots@[s] is Some && ids@.contains(slots@[s]->Some_0.session),
            ),
        decreases slots@.len() - s,
    {
        let ok: bool = match &slots[s] {
            Some(f) => ids.contains(&f.session),
            None => false,
        };
        out.push(ok);
        s = s + 1;
    }
    out
}

/// What one slot asks of a step.
#[derive(Debug, Clone, Copy, PartialEq, Eq, Structural)]
pub struct SlotNeeds {
    pub wants_decode: bool,
    /// Rows of the verify block when the slot has a draft.
    pub verify_rows: u64,
    /// Prompt tokens still to feed.
    pub uncached: u64,
}

/// What one slot asks of the fairness queue this step.
pub fn slot_needs(work: &PendingWork, drafted: bool, vl_sequential: bool, mtp_k: usize) -> (r:
    SlotNeeds)
    requires
        mtp_k < usize::MAX,
    ensures
        r.wants_decode == runnable_decode(*work, vl_sequential),
        r.verify_rows == if drafted {
            mtp_k + 1
        } else {
            0
        },
        r.uncached == if runnable_prefill(*work, vl_sequential) {
            work.remaining_prompt@.len() as int
        } else {
            0
        },
{
    SlotNeeds {
        wants_decode: is_runnable_decode(work, vl_sequential),
        verify_rows: if drafted {
            (mtp_k + 1) as u64
        } else {
            0
        },
        uncached: if is_runnable_prefill(work, vl_sequential) {
            work.remaining_prompt.len() as u64
        } else {
            0
        },
    }
}

/// A starved oldest request has the step to itself: no other session in flight
/// is eligible.
pub proof fn law_starved_oldest_runs_alone(
    slots: Seq<Option<InFlight>>,
    sel: Selection,
    oldest: u64,
    s: int,
)
    requires
        sel.starved_oldest,
        0 <= s < slots.len(),
    ensures
        session_mask(slots, granted_to(sel, Some(oldest)))[s] == (slots[s] is Some
            && slots[s]->Some_0.session == oldest),
{
}

/// A granted request may run: unless the oldest is starved, a slot is eligible
/// exactly where its session holds a grant of any sort.
pub proof fn law_granted_requests_are_eligible(
    slots: Seq<Option<InFlight>>,
    sel: Selection,
    oldest: Option<u64>,
    s: int,
)
    requires
        !sel.starved_oldest || oldest is None,
        0 <= s < slots.len(),
    ensures
        ({
            let mask = session_mask(slots, granted_to(sel, oldest));
            &&& mask.len() == slots.len()
            &&& mask[s] ==> slots[s] is Some && exists|i: int|
                0 <= i < sel.grants@.len() && match #[trigger] sel.grants@[i] {
                    Grant::Decode { id } => id == slots[s]->Some_0.session,
                    Grant::Prefill { id, .. } => id == slots[s]->Some_0.session,
                    Grant::Verify { id, .. } => id == slots[s]->Some_0.session,
                }
            &&& slots[s] is Some && (exists|i: int|
                0 <= i < sel.grants@.len() && match #[trigger] sel.grants@[i] {
                    Grant::Decode { id } => id == slots[s]->Some_0.session,
                    Grant::Prefill { id, .. } => id == slots[s]->Some_0.session,
                    Grant::Verify { id, .. } => id == slots[s]->Some_0.session,
                }) ==> mask[s]
        }),
{
    let ids = sel.grants@.map_values(|g: Grant| grant_id(g));
    let mask = session_mask(slots, granted_to(sel, oldest));
    if mask[s] {
        let id = slots[s]->Some_0.session;
        let i = choose|i: int| 0 <= i < ids.len() && ids[i] == id;
        assert(grant_id(sel.grants@[i]) == id);
    }
    if slots[s] is Some && exists|i: int|
        0 <= i < sel.grants@.len() && match #[trigger] sel.grants@[i] {
            Grant::Decode { id } => id == slots[s]->Some_0.session,
            Grant::Prefill { id, .. } => id == slots[s]->Some_0.session,
            Grant::Verify { id, .. } => id == slots[s]->Some_0.session,
        } {
        let i = choose|i: int|
            0 <= i < sel.grants@.len() && match #[trigger] sel.grants@[i] {
                Grant::Decode { id } => id == slots[s]->Some_0.session,
                Grant::Prefill { id, .. } => id == slots[s]->Some_0.session,
                Grant::Verify { id, .. } => id == slots[s]->Some_0.session,
            };
        assert(ids[i] == slots[s]->Some_0.session);
        assert(ids.contains(slots[s]->Some_0.session));
    }
}

/// The oldest request is the one that was admitted first: nobody in flight was
/// admitted before it, nor at the same tick under a smaller id, and there is one
/// whenever the queue knows some request in flight.
pub proof fn law_the_oldest_was_admitted_first(
    slots: Seq<Option<InFlight>>,
    ticks: Seq<Option<u64>>,
    r: Option<u64>,
    j: int,
)
    requires
        is_oldest(slots, ticks, r),
        0 <= j < slots.len(),
        j < ticks.len(),
        slots[j] is Some,
        ticks[j] is Some,
    ensures
        r is Some,
        exists|s: int|
            {
                &&& 0 <= s < slots.len()
                &&& s < ticks.len()
                &&& (#[trigger] slots[s]) is Some
                &&& slots[s]->Some_0.session == r->Some_0
                &&& ticks[s] is Some
                &&& ticks[s]->Some_0 < ticks[j]->Some_0 || (ticks[s] == ticks[j] && r->Some_0
                    <= slots[j]->Some_0.session)
            },
{
    assert(tracked_at(slots, ticks, j, ticks[j]->Some_0));
    let id = r->Some_0;
    let (s, t) = choose|s: int, t: u64| #[trigger]
        tracked_at(slots, ticks, s, t) && slots[s]->Some_0.session == id && forall|
            j: int,
            u: u64,
        | #[trigger]
            tracked_at(slots, ticks, j, u) ==> older(t, id, u, slots[j]->Some_0.session);
    assert(slots[s] is Some);
}

} // verus!
