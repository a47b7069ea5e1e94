//! Small decisions of the serving loop.

use crate::engine_state::InFlight;
use crate::scheduler::{greatest, least, PendingWork};
use vstd::prelude::*;

verus! {

/// Upper bound on a request's token-penalty window.
pub const REPEAT_WINDOW_MAX: usize = 2048;

/// Longest run of forced tokens that one step commits.
pub const JUMP_FORWARD_MAX_RUN: usize = 64;

/// Why a request is done.
#[derive(Debug, Clone, Copy, PartialEq, Eq, Structural)]
pub enum DoneReason {
    /// The model emitted a terminator.
    Eos,
    /// The request's token budget or the context is used up.
    MaxTokens,
    /// The client has gone away.
    ClientGone,
}

/// Whether a verify block of `mtp_k + 1` rows from `next_pos` on fits inside
/// the slot's token cap.
pub fn mtp_verify_fits_cap(next_pos: usize, mtp_k: usize, cap_tokens: usize) -> (r: bool)
    requires
        mtp_k < usize::MAX,
    ensures
        r == (next_pos + mtp_k + 1 <= cap_tokens),
{
    mtp_k + 1 <= cap_tokens.saturating_sub(next_pos)
}

/// Whether an admission consults the prefix cache: only when it is on, and
/// never for a request with images.
pub fn should_lookup_prefix(prefix_cache: bool, has_visual: bool) -> (r: bool)
    ensures
        r == (prefix_cache && !has_visual),
{
    prefix_cache && !has_visual
}

/// How many prompt tokens a resume plan saves. A boundary that covers the whole
/// prompt saves all of it.
pub fn reused_tokens_from_plan(boundary: usize, prompt_len: usize) -> (r: usize)
    ensures
        r == least(boundary as int, prompt_len as int),
{
    if boundary == 0 {
        0
    } else if boundary <= prompt_len {
        boundary
    } else {
        prompt_len
    }
}

/// Whether a request that finds no slot waits: only when every resident session
/// is generating and there is a waiting room.
pub fn should_wait_instead_of_reject(all_busy: bool, wait_enabled: bool) -> (r: bool)
    ensures
        r == (all_busy && wait_enabled),
{
    all_busy && wait_enabled
}

/// Whether the terminal token stays in the session's transcript: only when the
/// budget ran out, for then the client has seen it.
pub fn should_retain_terminal_tok(reason: DoneReason) -> (r: bool)
    ensures
        r == (reason == DoneReason::MaxTokens),
{
    reason == DoneReason::MaxTokens
}

/// Whether a request carries a token penalty that is not neutral.
pub fn request_penalized(
    repeat_window: usize,
    repeat_above_one: bool,
    presence_above_zero: bool,
    frequency_above_zero: bool,
) -> (r: bool)
    ensures
        r == (repeat_window > 0 && (repeat_above_one || presence_above_zero
            || frequency_above_zero)),
{
    repeat_window > 0 && (repeat_above_one || presence_above_zero || frequency_above_zero)
}

/// Whether a request may speculate. The verify accept is a bare greedy argmax,
/// so penalised, sampled, image and grammar-constrained requests decode plainly.
pub fn mtp_allowed(
    head_loaded: bool,
    mtp_k: usize,
    has_visual: bool,
    penalized: bool,
    sampled: bool,
    grammar_constrained: bool,
) -> (r: bool)
    ensures
        r == (head_loaded && mtp_k > 0 && !has_visual && !penalized && !sampled
            && !grammar_constrained),
{
    head_loaded && mtp_k > 0 && !has_visual && !penalized && !sampled && !grammar_constrained
}

/// The penalty window that a request may ask for.
pub fn clamp_repeat_window(requested: usize) -> (r: usize)
    ensures
        r == least(requested as int, REPEAT_WINDOW_MAX as int),
{
    if requested <= REPEAT_WINDOW_MAX {
        requested
    } else {
        REPEAT_WINDOW_MAX
    }
}

/// The penalty window of one step: the most recent tokens of the session, as
/// many as requested or as there are.
pub fn penalty_window(requested: usize, tokens: &[u32]) -> (r: Vec<u32>)
    ensures
        r@ == tokens@.skip(tokens@.len() - least(requested as int, tokens@.len() as int)),
{
    let n: usize = tokens.len();
    let effective: usize = if requested <= n {
        requested
    } else {
        n
    };
    let start: usize = n - effective;
    let mut out: Vec<u32> = Vec::new();
    let mut i: usize = start;
    while i < n
        invariant
            start <= i <= n,
            n == tokens@.len(),
            out@ =~= tokens@.subrange(start as int, i as int),
        decreases n - i,
    {
        out.push(tokens[i]);
        i = i + 1;
    }
    assert(out@ =~= tokens@.skip(start as int));
    out
}

/// How many tokens a verified burst may commit: what is left of the request's
/// budget and of the context, and at least one.
pub fn commit_budget(max_tokens: usize, produced: usize, cap_tokens: usize, session_len: usize) -> (r:
    usize)
    ensures
        r == greatest(
            least(max_tokens - produced, cap_tokens - session_len),
            1,
        ),
{
    let budget: usize = max_tokens.saturating_sub(produced);
    let room: usize = cap_tokens.saturating_sub(session_len);
    let m: usize = if budget <= room {
        budget
    } else {
        room
    };
    if m >= 1 {
        m
    } else {
        1
    }
}

/// What decides whether a slot may jump forward over forced tokens.
#[derive(Debug, Clone, Copy, PartialEq, Eq, Structural)]
pub struct JumpForward {
    pub enabled: bool,
    pub constrained: bool,
    pub greedy: bool,
    /// Prompt tokens are still to be fed.
    pub prefilling: bool,
    pub mtp_active: bool,
    pub max_tokens: usize,
    pub produced: usize,
    pub max_batch_tokens: usize,
}

impl JumpForward {
    /// The longest run that the budgets admit.
    pub open spec fn run_cap(self) -> int {
        least(
            least(
                greatest(self.max_tokens - self.produced, 0),
                self.max_batch_tokens as int,
            ),
            JUMP_FORWARD_MAX_RUN as int,
        )
    }

    /// The longest run of forced tokens to look for; `None` when the slot does
    /// not jump. Only a constrained, greedy slot whose logits are those of the
    /// next token jumps.
    pub fn max_run(&self) -> (r: Option<usize>)
        ensures
            match r {
                Some(n) => n == self.run_cap() && n > 0,
                None => true,
            },
            r is Some <==> self.enabled && self.constrained && self.greedy && !self.prefilling
                && !self.mtp_active && self.run_cap() > 0,
    {
        if !self.enabled || !self.constrained || !self.greedy || self.prefilling
            || self.mtp_active {
            return None;
        }
        let left: usize = self.max_tokens.saturating_sub(self.produced);
        let a: usize = if left <= self.max_batch_tokens {
            left
        } else {
            self.max_batch_tokens
        };
        let b: usize = if a <= JUMP_FORWARD_MAX_RUN {
            a
        } else {
            JUMP_FORWARD_MAX_RUN
        };
        if b == 0 {
            None
        } else {
            Some(b)
        }
    }
}

/// Slot work with nothing to do.
pub open spec fn idle_work(w: PendingWork) -> bool {
    &&& w.remaining_prompt@.len() == 0
    &&& !w.decoding
    &&& w.next_pos == 0
    &&& w.vl_prefill is None
    &&& !w.mtp_active
    &&& w.pos3_delta == 0
    &&& w.mtp_cycles == 0
    &&& w.mtp_committed == 0
    &&& w.mtp_retire_fails == 0
}

/// `after` is the slot's work `before`, cleared.
pub open spec fn cleared(before: PendingWork, after: PendingWork) -> bool {
    idle_work(after) && after.slot == before.slot
}

/// Clears a slot's work. The adaptive-retire counters go too: they belong to
/// the request, and must not be left behind for the slot's next occupant.
pub fn clear_work_slot(work: &mut PendingWork)
    ensures
        cleared(*old(work), *final(work)),
{
    work.remaining_prompt.clear();
    work.decoding = false;
    work.next_pos = 0;
    work.vl_prefill = None;
    work.mtp_active = false;
    work.pos3_delta = 0;
    work.mtp_cycles = 0;
    work.mtp_committed = 0;
    work.mtp_retire_fails = 0;
}

/// No request is in flight.
pub open spec fn all_idle(slots: Seq<Option<InFlight>>) -> bool {
    forall|s: int| 0 <= s < slots.len() ==> (#[trigger] slots[s]) is None
}

/// Whether no request is in flight.
pub fn is_idle(slots: &[Option<InFlight>]) -> (r: bool)
    ensures
        r == all_idle(slots@),
{
    let mut s: usize = 0;
    while s < slots.len()
        invariant
            s <= slots@.len(),
            forall|j: int| 0 <= j < s ==> (#[trigger] slots@[j]) is None,
        decreases slots@.len() - s,
    {
        if slots[s].is_some() {
            return false;
        }
        s = s + 1;
    }
    true
}

/// Number of requests in flight.
pub open spec fn active_count(slots: Seq<Option<InFlight>>) -> int
    decreases slots.len(),
{
    if slots.len() == 0 {
        0
    } else {
        active_count(slots.drop_last()) + if slots.last() is Some {
            1int
        } else {
            0
        }
    }
}

/// Number of requests in flight.
pub fn count_active(slots: &[Option<InFlight>]) -> (r: usize)
    ensures
        r == active_count(slots@),
        r <= slots@.len(),
{
    let mut n: usize = 0;
    let mut s: usize = 0;
    assert(slots@.take(0) =~= Seq::empty());
    while s < slots.len()
        invariant
            s <= slots@.len(),
            n <= s,
            n == active_count(slots@.take(s as int)),
        decreases slots@.len() - s,
    {
        assert(slots@.take(s + 1).drop_last() =~= slots@.take(s as int));
        if slots[s].is_some() {
            n = n + 1;
        }
        s = s + 1;
    }
    assert(slots@.take(s as int) =~= slots@);
    n
}

/// Whether some slot can take a waiting request.
pub fn has_free_slot(slots: &[Option<InFlight>]) -> (r: bool)
    ensures
        r == some_free(slots@),
{
    let mut s: usize = 0;
    while s < slots.len()
        invariant
            s <= slots@.len(),
            forall|j: int| 0 <= j < s ==> (#[trigger] slots@[j]) is Some,
        decreases slots@.len() - s,
    {
        if slots[s].is_none() {
            return true;
        }
        s = s + 1;
    }
    false
}

/// Some slot holds no request.
pub open spec fn some_free(slots: Seq<Option<InFlight>>) -> bool {
    exists|s: int| 0 <= s < slots.len() && (#[trigger] slots[s]) is None
}

/// Whether another waiter is retried: some slot is free, and the waiter before
/// it, if there was one, was placed. `active_before` is the number of requests
/// in flight before that waiter; `None` for the first of an iteration.
pub fn retries_waiter(slots: &[Option<InFlight>], active_before: Option<usize>) -> (r: bool)
    ensures
        r == (some_free(slots@) && match active_before {
            Some(n) => active_count(slots@) > n,
            None => true,
        }),
{
    if !has_free_slot(slots) {
        return false;
    }
    match active_before {
        Some(n) => count_active(slots) > n,
        None => true,
    }
}

/// What the serving loop does about its command channel.
#[derive(Debug, Clone, Copy, PartialEq, Eq, Structural)]
pub enum LoopGate {
    /// Nothing in flight and nothing queued: block for a command.
    Block,
    /// There is work: take the commands that are there and go on.
    Poll,
}

/// Whether the loop may block on its command channel.
pub fn loop_gate(slots: &[Option<InFlight>], queued: usize) -> (r: LoopGate)
    ensures
        r == if all_idle(slots@) && queued == 0 {
            LoopGate::Block
        } else {
            LoopGate::Poll
        },
{
    if is_idle(slots) && queued == 0 {
        LoopGate::Block
    } else {
        LoopGate::Poll
    }
}

/// What ends a request in flight without its doing: its slot and its session.
#[derive(Debug, Clone, Copy, PartialEq, Eq, Structural)]
pub struct FailedRequest {
    pub slot: usize,
    pub session: u64,
}

/// The requests in flight among the first `n` slots.
pub open spec fn active_requests(slots: Seq<Option<InFlight>>, n: int) -> Seq<FailedRequest>
    decreases n,
{
    if n <= 0 {
        Seq::empty()
    } else {
        match slots[n - 1] {
            Some(f) => active_requests(slots, n - 1).push(
                FailedRequest { slot: (n - 1) as usize, session: f.session },
            ),
            None => active_requests(slots, n - 1),
        }
    }
}

/// Takes every request out of its slot and clears its work, so that none of its
/// state can be reused. Returns what was taken, in slot order: each is to be
/// rejected, its session closed and its swap entry forgotten.
pub fn fail_all_active(slots: &mut Vec<Option<InFlight>>, work: &mut Vec<PendingWork>) -> (r: Vec<
    FailedRequest,
>)
    requires
        old(slots)@.len() == old(work)@.len(),
    ensures
        r@ == active_requests(old(slots)@, old(slots)@.len() as int),
        final(slots)@.len() == old(slots)@.len(),
        all_idle(final(slots)@),
        final(work)@.len() == old(work)@.len(),
        forall|s: int|
            0 <= s < old(work)@.len() ==> if old(slots)@[s] is Some {
                cleared(old(work)@[s], #[trigger] final(work)@[s])
            } else {
                final(work)@[s] == old(work)@[s]
            },
{
    let ghost slots0 = slots@;
    let ghost work0 = work@;
    let mut out: Vec<FailedRequest> = Vec::new();
    let mut s: usize = 0;
    let n: usize = slots.len();
    while s < n
        invariant
            s <= n,
            n == slots0.len(),
            slots@.len() == n,
            work@.len() == n,
            work0.len() == n,
            out@ == active_requests(slots0, s as int),
            forall|j: int| 0 <= j < s ==> (#[trigger] slots@[j]) is None,
            forall|j: int| s <= j < n ==> #[trigger] slots@[j] == slots0[j],
            forall|j: int| s <= j < n ==> #[trigger] work@[j] == work0[j],
            forall|j: int|
                0 <= j < s ==> if slots0[j] is Some {
                    cleared(work0[j], #[trigger] work@[j])
                } else {
                    work@[j] == work0[j]
                },
        decreases n - s,
    {
        let session: Option<u64> = match &slots[s] {
            Some(f) => Some(f.session),
            None => None,
        };
        match session {
            Some(id) => {
                out.push(FailedRequest { slot: s, session: id });
                slots[s] = None;
                clear_work_slot(&mut work[s]);
            },
            None => {},
        }
        s = s + 1;
    }
    out
}

/// The reason given to requests that are still there when the loop ends.
pub fn shutdown_reason(poison: Option<&str>) -> (r: String)
    ensures
        r@ == match poison {
            Some(p) => p@,
            None => "engine shutdown"@,
        },
{
    match poison {
        Some(p) => p.to_owned(),
        None => "engine shutdown".to_owned(),
    }
}

// ---- Laws of the slots' bookkeeping ----

/// A cleared slot keeps nothing of its request.
pub proof fn law_cleared_slots_keep_nothing(before: PendingWork, after: PendingWork)
    requires
        cleared(before, after),
    ensures
        after.remaining_prompt@.len() == 0,
        after.next_pos == 0,
        !after.decoding,
        after.vl_prefill is None,
        !after.mtp_active,
        after.pos3_delta == 0,
        after.mtp_cycles == 0,
        after.mtp_committed == 0,
        after.mtp_retire_fails == 0,
        after.slot == before.slot,
{
}

/// A forced run stays within every budget and is as long as they admit: what is
/// left of the request, the rows of a step, and the longest run.
pub proof fn law_forced_runs_use_their_budgets(j: JumpForward)
    ensures
        0 <= j.run_cap() <= j.max_batch_tokens,
        j.run_cap() <= JUMP_FORWARD_MAX_RUN,
        j.produced <= j.max_tokens ==> j.produced + j.run_cap() <= j.max_tokens,
        j.produced >= j.max_tokens ==> j.run_cap() == 0,
        j.run_cap() == j.max_batch_tokens || j.run_cap() == JUMP_FORWARD_MAX_RUN || j.run_cap()
            == j.max_tokens - j.produced || j.produced >= j.max_tokens,
{
}

/// Requests in flight are counted one by one: taking one more in makes one more,
/// and there are none exactly where every slot is free.
pub proof fn law_requests_are_counted(slots: Seq<Option<InFlight>>, s: int, f: InFlight)
    requires
        0 <= s < slots.len(),
        slots[s] is None,
    ensures
        active_count(slots.update(s, Some(f))) == active_count(slots) + 1,
        active_count(slots) == 0 <==> all_idle(slots),
        some_free(slots),
        !all_idle(slots.update(s, Some(f))),
    decreases slots.len(),
{
    let more = slots.update(s, Some(f));
    assert(more[s] is Some);
    if s == slots.len() - 1 {
        assert(more.drop_last() =~= slots.drop_last());
    } else {
        assert(more.drop_last() =~= slots.drop_last().update(s, Some(f)));
        law_requests_are_counted(slots.drop_last(), s, f);
    }
    lemma_count_is_zero(slots);
}

proof fn lemma_count_is_zero(slots: Seq<Option<InFlight>>)
    ensures
        0 <= active_count(slots),
        active_count(slots) == 0 <==> all_idle(slots),
    decreases slots.len(),
{
    if slots.len() > 0 {
        let init = slots.drop_last();
        lemma_count_is_zero(init);
        if all_idle(slots) {
            assert(slots[slots.len() - 1] is None);
            assert forall|s: int| 0 <= s < init.len() implies (#[trigger] init[s]) is None by {
                assert(slots[s] is None);
            }
        }
        if active_count(slots) == 0 {
            assert forall|s: int| 0 <= s < slots.len() implies (#[trigger] slots[s]) is None by {
                if s < init.len() {
                    assert(init[s] is None);
                }
            }
        }
    }
}

/// Every request in flight is failed once, under its own session, in slot order,
/// and nothing else is.
pub proof fn law_every_active_request_is_failed_once(
    slots: Seq<Option<InFlight>>,
    n: int,
    s: int,
    i: int,
    j: int,
)
    requires
        0 <= n <= slots.len(),
        n <= usize::MAX,
    ensures
        ({
            let r = active_requests(slots, n);
            &&& 0 <= s < n && slots[s] is Some ==> exists|x: int|
                0 <= x < r.len() && (#[trigger] r[x]).slot == s && r[x].session
                    == slots[s]->Some_0.session
            &&& 0 <= i < r.len() ==> r[i].slot < n && slots[r[i].slot as int] is Some
                && r[i].session == slots[r[i].slot as int]->Some_0.session
            &&& 0 <= i < j < r.len() ==> r[i].slot < r[j].slot
        }),
    decreases n,
{
    if n > 0 {
        law_every_active_request_is_failed_once(slots, n - 1, s, i, j);
        let before = active_requests(slots, n - 1);
        let r = active_requests(slots, n);
        if 0 <= s < n && slots[s] is Some {
            if s == n - 1 {
                assert(r[r.len() - 1].slot == s);
            } else {
                let x = choose|x: int|
                    0 <= x < before.len() && (#[trigger] before[x]).slot == s && before[x].session
                        == slots[s]->Some_0.session;
                assert(r[x] == before[x]);
            }
        }
        if 0 <= i < j < r.len() && j == before.len() {
            law_every_active_request_is_failed_once(slots, n - 1, s, i, i);
        }
    }
}

} // verus!
