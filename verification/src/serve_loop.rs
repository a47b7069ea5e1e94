//! One iteration of the serving loop: the draft phase over all slots, the plan
//! of the step, the isolation of slots that could not be provisioned, and which
//! stage comes after which.
//!
//! The loop's device work happens between these calls; their outcomes are
//! handed in.

use crate::engine_state::InFlight;
use crate::fairness::{
    eligibility_mask, granted_ids, granted_to, is_oldest, oldest_active_session, session_mask,
    Selection,
};
use crate::mtp::{draft_decided, draft_step, return_seed, seed_back, DraftStep};
use crate::policy::{all_idle, clear_work_slot, cleared, is_idle, FailedRequest};
use crate::scheduler::{
    law_rows_within_budget, lemma_take_bounds, needs_pos3, phase_fits, phases_of, row_phase_fits,
    PendingWork, Scheduler, StepInput,
};
use crate::slot_batch::{rows_sum, SlotBatch};
use crate::step::{
    after_drops, count_rows, count_verify_rows, decode_rows, draft_count, dropped, is_dropped,
    isolate_failed, law_shrunk_step_fits, prefill_rows, scheduler_budget, shrink_to_budget,
    slot_interval, without_block, write_interval, DroppedDraft, StepReservation,
};
use crate::step_rows::{
    failed_slot, inject_mtp_verify_tokens, is_merged, is_rebuilt, rows_of, MtpDraftOutput,
};
use crate::text::{append_decimal, decimal_text, join2, join3};
use vstd::prelude::*;

verus! {

// ---- Draft phase ----

/// Runs the draft phase over all slots and returns what each one is to do: a
/// slot that speculates and holds a seed drafts from it, or retires where its
/// verify block would pass the context cap.
pub fn draft_phase(
    slots: &[Option<InFlight>],
    work: &mut [PendingWork],
    head_loaded: bool,
    mtp_k: usize,
    cap_tokens: usize,
) -> (r: Vec<DraftStep>)
    requires
        mtp_k < usize::MAX,
        slots@.len() == old(work)@.len(),
    ensures
        r@.len() == slots@.len(),
        final(work)@.len() == old(work)@.len(),
        forall|s: int|
            0 <= s < slots@.len() ==> draft_decided(
                #[trigger] old(work)@[s],
                slots@[s] is Some,
                head_loaded,
                mtp_k,
                cap_tokens,
                r@[s],
                final(work)@[s],
            ),
{
    let ghost work0 = work@;
    let n: usize = slots.len();
    let mut out: Vec<DraftStep> = Vec::new();
    let mut s: usize = 0;
    while s < n
        invariant
            s <= n,
            n == slots@.len(),
            mtp_k < usize::MAX,
            work@.len() == n,
            work0.len() == n,
            out@.len() == s,
            forall|j: int| s <= j < n ==> #[trigger] work@[j] == work0[j],
            forall|j: int|
                0 <= j < s ==> draft_decided(
                    #[trigger] work0[j],
                    slots@[j] is Some,
                    head_loaded,
                    mtp_k,
                    cap_tokens,
                    out@[j],
                    work@[j],
                ),
        decreases n - s,
    {
        assert(work@[s as int] == work0[s as int]);
        let step: DraftStep = draft_step(
            &mut work[s],
            slots[s].is_some(),
            head_loaded,
            mtp_k,
            cap_tokens,
        );
        out.push(step);
        s = s + 1;
    }
    out
}

// ---- Step plan ----

/// Limits of a step.
#[derive(Debug, Clone, Copy, PartialEq, Eq, Structural)]
pub struct StepLimits {
    pub mtp_k: usize,
    pub max_batch_tokens: usize,
    pub prefill_min_tokens: usize,
}

/// A planned step.
#[derive(Debug)]
pub struct StepPlan {
    /// The slots that were allowed to contribute prompt and decode rows.
    pub eligible: Vec<bool>,
    /// Drafts that did not fit; their seeds are back with their slots.
    pub dropped: Vec<DroppedDraft>,
    /// The rows to run.
    pub batch: SlotBatch,
}

/// No row that the work can give overflows its position or its phase.
pub open spec fn work_fits(work: Seq<PendingWork>, vl_sequential: bool) -> bool {
    &&& forall|i: int|
        0 <= i < work.len() ==> (#[trigger] work[i]).next_pos + work[i].remaining_prompt@.len()
            <= usize::MAX
    &&& needs_pos3(work, vl_sequential) ==> forall|i: int, j: int|
        0 <= i < work.len() && 0 <= j < work[i].remaining_prompt@.len()
            ==> #[trigger] row_phase_fits(work[i], work[i].next_pos + j)
}

/// `d` is a verify block of a slot with work `w`: `mtp_k + 1` rows whose
/// positions, and phases where the step has them, do not overflow.
pub open spec fn draft_fits(w: PendingWork, d: MtpDraftOutput, mtp_k: usize, pos3: bool) -> bool {
    &&& w.mtp_active
    &&& w.decoding
    &&& d.verify_tokens@.len() == mtp_k + 1
    &&& d.cur_pos + mtp_k + 1 <= usize::MAX
    &&& pos3 ==> forall|i: int|
        0 <= i <= mtp_k ==> #[trigger] phase_fits(d.cur_pos + i, w.pos3_delta)
}

/// Rotary offsets of the slots.
pub open spec fn offsets_of(work: Seq<PendingWork>) -> Seq<i32> {
    Seq::new(work.len(), |s: int| work[s].pos3_delta)
}

/// Rows of the drafts' verify blocks.
pub open spec fn verify_rows(drafts: Seq<Option<MtpDraftOutput>>, mtp_k: usize) -> int {
    draft_count(drafts) * (mtp_k + 1)
}

/// Rows left for prompt and decode rows beside the drafts.
pub open spec fn left_beside(drafts: Seq<Option<MtpDraftOutput>>, limits: StepLimits) -> usize {
    let rows = verify_rows(drafts, limits.mtp_k);
    if rows <= limits.max_batch_tokens {
        (limits.max_batch_tokens - rows) as usize
    } else {
        0
    }
}

/// What a step with the allocation `m` and these drafts reserves.
pub open spec fn reserved(
    m: StepInput,
    drafts: Seq<Option<MtpDraftOutput>>,
    mtp_k: usize,
) -> StepReservation {
    let n = m.work.len() as int;
    let rows = Seq::new(m.work.len(), |i: int| m.take(i) as usize);
    StepReservation {
        prefill_rows: prefill_rows(m.work, rows, n) as u64,
        decode_rows: decode_rows(m.work, rows, n) as u64,
        verify_rows: verify_rows(drafts, mtp_k) as u64,
        forced_rows: 0,
    }
}

/// The drafts without the dropped ones.
pub open spec fn without_dropped(
    drafts: Seq<Option<MtpDraftOutput>>,
    gone: Seq<DroppedDraft>,
) -> Seq<Option<MtpDraftOutput>> {
    Seq::new(
        drafts.len(),
        |s: int|
            if is_dropped(gone, s) {
                None
            } else {
                drafts[s]
            },
    )
}

/// `batch` is the scheduler's step for `m` with the verify rows of the drafts.
pub open spec fn is_planned(
    m: StepInput,
    drafts: Seq<Option<MtpDraftOutput>>,
    batch: SlotBatch,
) -> bool {
    exists|b: SlotBatch| #[trigger]
        m.is_step(b) && if draft_count(drafts) > 0 {
            is_merged(
                b,
                drafts,
                m.work.len() as int,
                offsets_of(m.work),
                m.any_pos3(),
                batch,
            )
        } else {
            batch == b
        }
}

/// Slot `s` has become `after` in a step with the allocation `m`: its draft
/// went and left its seed, or it was advanced by its rows.
pub open spec fn slot_planned(
    m: StepInput,
    drafts: Seq<Option<MtpDraftOutput>>,
    gone: Seq<DroppedDraft>,
    s: int,
    after: PendingWork,
) -> bool {
    if is_dropped(gone, s) {
        seed_back(m.work[s], after, drafts[s]->Some_0.verify_tokens@[0])
    } else {
        m.slot_advanced(after, s)
    }
}

proof fn lemma_work_fits(m: StepInput)
    requires
        m.valid(),
        work_fits(m.work, m.vl_sequential),
        m.cursor < usize::MAX,
    ensures
        m.rows_fit(),
{
    assert forall|i: int| 0 <= i < m.work.len() implies (#[trigger] m.work[i]).next_pos + m.take(i)
        <= usize::MAX by {
        lemma_take_bounds(m, i);
    }
    if m.any_pos3() {
        assert forall|i: int, j: int|
            0 <= i < m.work.len() && 0 <= j < m.take(i) implies #[trigger] row_phase_fits(
            m.work[i],
            m.work[i].next_pos + j,
        ) by {
            lemma_take_bounds(m, i);
        }
    }
}

proof fn lemma_same_kinds(a: Seq<PendingWork>, b: Seq<PendingWork>, rows: Seq<usize>, n: int)
    requires
        n <= a.len(),
        n <= b.len(),
        forall|i: int|
            0 <= i < n ==> (#[trigger] a[i]).decoding == b[i].decoding && a[i].mtp_active
                == b[i].mtp_active,
    ensures
        prefill_rows(a, rows, n) == prefill_rows(b, rows, n),
        decode_rows(a, rows, n) == decode_rows(b, rows, n),
    decreases n,
{
    if n > 0 {
        lemma_same_kinds(a, b, rows, n - 1);
        assert(a[n - 1].decoding == b[n - 1].decoding);
    }
}

proof fn lemma_kinds_within(work: Seq<PendingWork>, rows: Seq<usize>, n: int)
    requires
        0 <= n <= rows.len(),
    ensures
        0 <= prefill_rows(work, rows, n),
        0 <= decode_rows(work, rows, n),
        prefill_rows(work, rows, n) + decode_rows(work, rows, n) <= rows_sum(rows.take(n)),
    decreases n,
{
    if n > 0 {
        lemma_kinds_within(work, rows, n - 1);
        assert(rows.take(n).drop_last() =~= rows.take(n - 1));
    } else {
        assert(rows.take(0) =~= Seq::empty());
    }
}

/// The first slot whose draft is kept when drafts go in slot order from `s` on.
spec fn drop_end(
    drafts: Seq<Option<MtpDraftOutput>>,
    r: StepReservation,
    block: int,
    max: int,
    s: int,
) -> int
    decreases drafts.len() - s,
{
    if s >= drafts.len() || r.total() <= max {
        s
    } else if drafts[s] is Some {
        drop_end(drafts, without_block(r, block), block, max, s + 1)
    } else {
        drop_end(drafts, r, block, max, s + 1)
    }
}

proof fn lemma_drop_end(
    drafts: Seq<Option<MtpDraftOutput>>,
    r: StepReservation,
    block: int,
    max: int,
    s: int,
)
    requires
        block > 0,
        0 <= s <= drafts.len() <= usize::MAX,
        r.verify_rows == (draft_count(drafts) - draft_count(drafts.take(s))) * block,
    ensures
        ({
            let t = drop_end(drafts, r, block, max, s);
            let d = dropped(drafts, r, block, max, s);
            &&& s <= t <= drafts.len()
            &&& after_drops(drafts, r, block, max, s).verify_rows == (draft_count(drafts)
                - draft_count(drafts.take(t))) * block
            &&& forall|i: int|
                0 <= i < d.len() ==> s <= (#[trigger] d[i]).slot < t && drafts[d[i].slot as int]
                    is Some && d[i].seed == drafts[d[i].slot as int]->Some_0.verify_tokens@[0]
            &&& forall|j: int|
                s <= j < t && (#[trigger] drafts[j]) is Some ==> is_dropped(d, j)
        }),
    decreases drafts.len() - s,
{
    if s < drafts.len() && r.total() > max {
        assert(drafts.take(s + 1).drop_last() =~= drafts.take(s));
        lemma_count_bounds(drafts, s + 1);
        let left = draft_count(drafts) - draft_count(drafts.take(s));
        let next = draft_count(drafts) - draft_count(drafts.take(s + 1));
        assert((left - 1) * block == left * block - block) by (nonlinear_arith);
        assert(next * block >= 0) by (nonlinear_arith)
            requires
                next >= 0,
                block > 0,
        ;
        let d = dropped(drafts, r, block, max, s);
        if drafts[s] is Some {
            let r1 = without_block(r, block);
            lemma_drop_end(drafts, r1, block, max, s + 1);
            let d1 = dropped(drafts, r1, block, max, s + 1);
            let head = DroppedDraft { slot: s as usize, seed: drafts[s]->Some_0.verify_tokens@[0] };
            assert(d =~= seq![head] + d1);
            let t = drop_end(drafts, r, block, max, s);
            assert forall|i: int| 0 <= i < d.len() implies s <= (#[trigger] d[i]).slot < t
                && drafts[d[i].slot as int] is Some && d[i].seed
                == drafts[d[i].slot as int]->Some_0.verify_tokens@[0] by {
                if i > 0 {
                    assert(d[i] == d1[i - 1]);
                }
            }
            assert forall|j: int| s <= j < t && (#[trigger] drafts[j]) is Some implies is_dropped(
                d,
                j,
            ) by {
                if j == s {
                    assert(d[0].slot == j);
                } else {
                    let i = choose|i: int| 0 <= i < d1.len() && (#[trigger] d1[i]).slot == j;
                    assert(d[i + 1].slot == j);
                }
            }
        } else {
            lemma_drop_end(drafts, r, block, max, s + 1);
        }
    }
}

proof fn lemma_count_bounds(drafts: Seq<Option<MtpDraftOutput>>, s: int)
    requires
        0 <= s <= drafts.len(),
    ensures
        0 <= draft_count(drafts.take(s)) <= draft_count(drafts),
    decreases drafts.len(),
{
    if s < drafts.len() {
        lemma_count_bounds(drafts.drop_last(), s);
        assert(drafts.drop_last().take(s) =~= drafts.take(s));
    } else {
        assert(drafts.take(s) =~= drafts);
        if s > 0 {
            lemma_count_bounds(drafts.drop_last(), s - 1);
        }
    }
}

/// Drafts of the first `t` slots taken away.
spec fn from_slot(drafts: Seq<Option<MtpDraftOutput>>, t: int) -> Seq<Option<MtpDraftOutput>> {
    Seq::new(
        drafts.len(),
        |j: int|
            if j < t {
                None
            } else {
                drafts[j]
            },
    )
}

proof fn lemma_from_slot(drafts: Seq<Option<MtpDraftOutput>>, t: int)
    requires
        0 <= t <= drafts.len(),
    ensures
        draft_count(from_slot(drafts, t)) == draft_count(drafts) - draft_count(drafts.take(t)),
    decreases drafts.len(),
{
    let f = from_slot(drafts, t);
    if drafts.len() == 0 {
        assert(drafts.take(t) =~= drafts);
    } else if t < drafts.len() {
        lemma_from_slot(drafts.drop_last(), t);
        assert(f.drop_last() =~= from_slot(drafts.drop_last(), t));
        assert(drafts.drop_last().take(t) =~= drafts.take(t));
    } else {
        lemma_from_slot(drafts.drop_last(), t - 1);
        assert(drafts.take(t) =~= drafts);
        assert(drafts.drop_last().take(t - 1) =~= drafts.drop_last());
        assert(f.drop_last() =~= from_slot(drafts.drop_last(), t - 1));
    }
}

proof fn lemma_merged_sum(
    m: Seq<usize>,
    drafts: Seq<Option<MtpDraftOutput>>,
    block: int,
    merged: Seq<usize>,
)
    requires
        m.len() == drafts.len(),
        merged.len() == drafts.len(),
        forall|s: int|
            0 <= s < drafts.len() ==> merged[s] == match #[trigger] drafts[s] {
                Some(d) => block,
                None => m[s] as int,
            },
    ensures
        0 <= rows_sum(m),
        rows_sum(merged) <= draft_count(drafts) * block + rows_sum(m),
    decreases m.len(),
{
    if m.len() > 0 {
        lemma_merged_sum(m.drop_last(), drafts.drop_last(), block, merged.drop_last());
        let c = draft_count(drafts.drop_last());
        assert((c + 1) * block == c * block + block) by (nonlinear_arith);
        assert(drafts.last() == drafts[drafts.len() - 1]);
    }
}

proof fn lemma_phases_len(m: StepInput, n: int)
    requires
        m.valid(),
        0 <= n <= m.work.len(),
    ensures
        m.flat_phases(n).len() == m.flat_tokens(n).len(),
    decreases n,
{
    if n > 0 {
        lemma_phases_len(m, n - 1);
        lemma_take_bounds(m, n - 1);
    }
}

/// Rotary offsets of the slots.
fn pos3_offsets(work: &[PendingWork]) -> (r: Vec<i32>)
    ensures
        r@ == offsets_of(work@),
{
    let mut out: Vec<i32> = Vec::new();
    let mut s: usize = 0;
    while s < work.len()
        invariant
            s <= work@.len(),
            out@ =~= offsets_of(work@).take(s as int),
        decreases work@.len() - s,
    {
        out.push(work[s].pos3_delta);
        s = s + 1;
    }
    assert(offsets_of(work@).take(s as int) =~= offsets_of(work@));
    out
}

/// Gives every dropped draft's seed back to its slot.
fn return_seeds(work: &mut [PendingWork], gone: &Vec<DroppedDraft>)
    requires
        forall|i: int| 0 <= i < gone@.len() ==> (#[trigger] gone@[i]).slot < old(work)@.len(),
    ensures
        final(work)@.len() == old(work)@.len(),
        forall|s: int|
            0 <= s < old(work)@.len() ==> if is_dropped(gone@, s) {
                exists|i: int|
                    0 <= i < gone@.len() && (#[trigger] gone@[i]).slot == s && seed_back(
                        old(work)@[s],
                        final(work)@[s],
                        gone@[i].seed,
                    )
            } else {
                #[trigger] final(work)@[s] == old(work)@[s]
            },
{
    let ghost work0 = work@;
    let mut k: usize = 0;
    while k < gone.len()
        invariant
            k <= gone@.len(),
            work@.len() == work0.len(),
            forall|i: int| 0 <= i < gone@.len() ==> (#[trigger] gone@[i]).slot < work0.len(),
            forall|s: int|
                0 <= s < work0.len() ==> (#[trigger] work@[s] == work0[s] || exists|i: int|
                    0 <= i < k && (#[trigger] gone@[i]).slot == s && seed_back(
                        work0[s],
                        work@[s],
                        gone@[i].seed,
                    )),
            forall|i: int|
                0 <= i < k ==> exists|j: int|
                    0 <= j < k && gone@[j].slot == (#[trigger] gone@[i]).slot && seed_back(
                        work0[gone@[i].slot as int],
                        work@[gone@[i].slot as int],
                        (#[trigger] gone@[j]).seed,
                    ),
            forall|s: int|
                0 <= s < work0.len() && !is_dropped(gone@, s) ==> #[trigger] work@[s] == work0[s],
        decreases gone@.len() - k,
    {
        let d: DroppedDraft = gone[k];
        let ghost before = work@;
        return_seed(&mut work[d.slot], d.seed);
        proof {
            assert(gone@[k as int].slot == d.slot);
            assert(is_dropped(gone@, d.slot as int));
            assert(seed_back(work0[d.slot as int], work@[d.slot as int], d.seed));
            assert forall|s: int| 0 <= s < work0.len() implies (#[trigger] work@[s] == work0[s]
                || exists|i: int|
                0 <= i < k + 1 && (#[trigger] gone@[i]).slot == s && seed_back(
                    work0[s],
                    work@[s],
                    gone@[i].seed,
                )) by {
                if s != d.slot {
                    assert(work@[s] == before[s]);
                }
            }
            assert forall|i: int| 0 <= i < k + 1 implies exists|j: int|
                0 <= j < k + 1 && gone@[j].slot == (#[trigger] gone@[i]).slot && seed_back(
                    work0[gone@[i].slot as int],
                    work@[gone@[i].slot as int],
                    (#[trigger] gone@[j]).seed,
                ) by {
                if gone@[i].slot != d.slot {
                    let j = choose|j: int|
                        0 <= j < k && gone@[j].slot == gone@[i].slot && seed_back(
                            work0[gone@[i].slot as int],
                            before[gone@[i].slot as int],
                            (#[trigger] gone@[j]).seed,
                        );
                    assert(work@[gone@[i].slot as int] == before[gone@[i].slot as int]);
                    assert(gone@[j].slot == gone@[i].slot);
                } else {
                    assert(gone@[k as int].slot == gone@[i].slot);
                }
            }
            assert forall|s: int| 0 <= s < work0.len() && !is_dropped(
                gone@,
                s,
            ) implies #[trigger] work@[s] == work0[s] by {
                assert(s != d.slot);
                assert(work@[s] == before[s]);
            }
        }
        k = k + 1;
    }
    proof {
        assert forall|s: int| 0 <= s < work0.len() implies if is_dropped(gone@, s) {
            exists|i: int|
                0 <= i < gone@.len() && (#[trigger] gone@[i]).slot == s && seed_back(
                    work0[s],
                    work@[s],
                    gone@[i].seed,
                )
        } else {
            #[trigger] work@[s] == work0[s]
        } by {
            if is_dropped(gone@, s) {
                let i = choose|i: int| 0 <= i < gone@.len() && (#[trigger] gone@[i]).slot == s;
                let j = choose|j: int|
                    0 <= j < k && gone@[j].slot == gone@[i].slot && seed_back(
                        work0[gone@[i].slot as int],
                        work@[gone@[i].slot as int],
                        (#[trigger] gone@[j]).seed,
                    );
                assert(gone@[j].slot == s);
            }
        }
    }
}

/// Plans one step. The grants of the fairness queue say who may contribute
/// prompt and decode rows, the scheduler how many; the drafts' verify rows are
/// set aside first. Drafts that do not fit are dropped, and the verify rows of
/// the others are merged in. The step never has more rows than its budget.
pub fn plan_step(
    slots: &[Option<InFlight>],
    work: &mut [PendingWork],
    sched: &mut Scheduler,
    drafts: &mut Vec<Option<MtpDraftOutput>>,
    sel: &Selection,
    ticks: &[Option<u64>],
    limits: StepLimits,
) -> (p: StepPlan)
    requires
        limits.mtp_k < usize::MAX,
        old(work)@.len() == slots@.len(),
        old(drafts)@.len() == slots@.len(),
        old(sched).prefill_cursor < usize::MAX,
        work_fits(old(work)@, old(sched).vl_sequential),
        verify_rows(old(drafts)@, limits.mtp_k) <= u64::MAX,
        forall|s: int|
            0 <= s < slots@.len() ==> ((#[trigger] old(drafts)@[s]) is Some ==> draft_fits(
                old(work)@[s],
                old(drafts)@[s]->Some_0,
                limits.mtp_k,
                needs_pos3(old(work)@, old(sched).vl_sequential),
            )),
    ensures
        exists|oldest: Option<u64>| #[trigger]
            is_oldest(slots@, ticks@, oldest) && p.eligible@ == session_mask(
                slots@,
                granted_to(*sel, oldest),
            ),
        ({
            let m = old(sched).step_input(
                old(work)@,
                left_beside(old(drafts)@, limits),
                limits.prefill_min_tokens,
                p.eligible@,
            );
            &&& p.dropped@ == dropped(
                old(drafts)@,
                reserved(m, old(drafts)@, limits.mtp_k),
                limits.mtp_k + 1,
                limits.max_batch_tokens as int,
                0,
            )
            &&& final(drafts)@ == without_dropped(old(drafts)@, p.dropped@)
            &&& is_planned(m, final(drafts)@, p.batch)
            &&& final(work)@.len() == old(work)@.len()
            &&& forall|s: int|
                0 <= s < slots@.len() ==> slot_planned(
                    m,
                    old(drafts)@,
                    p.dropped@,
                    s,
                    #[trigger] final(work)@[s],
                )
            &&& final(sched).prefill_cursor == m.next_cursor()
        }),
        final(sched).chunk_size == old(sched).chunk_size,
        final(sched).vl_sequential == old(sched).vl_sequential,
        p.batch.wf(),
        p.batch.m_per_slot@.len() == slots@.len(),
        p.batch.tokens@.len() <= limits.max_batch_tokens,
{
    let ghost work0 = work@;
    let ghost drafts0 = drafts@;
    let ghost k = limits.mtp_k;
    let ghost max = limits.max_batch_tokens as int;
    let ghost n = slots@.len();
    let rows: u64 = count_verify_rows(drafts, limits.mtp_k);
    let budget: usize = scheduler_budget(limits.max_batch_tokens, rows);
    assert(budget == left_beside(drafts0, limits));
    let oldest: Option<u64> = oldest_active_session(slots, ticks);
    let ids = granted_ids(sel, oldest);
    let eligible: Vec<bool> = eligibility_mask(slots, &ids);
    let ghost m = sched.step_input(work0, budget, limits.prefill_min_tokens, eligible@);
    proof {
        lemma_work_fits(m);
    }
    let with_pos3: bool = sched.any_pos3(work);
    let deltas: Vec<i32> = pos3_offsets(work);
    let scheduled: SlotBatch = sched.next_batch_eligible(
        work,
        budget,
        limits.prefill_min_tokens,
        &eligible,
    );
    let ghost work1 = work@;
    proof {
        law_rows_within_budget(m, scheduled);
        assert forall|i: int| 0 <= i < n implies (#[trigger] work1[i]).decoding
            == work0[i].decoding && work1[i].mtp_active == work0[i].mtp_active by {
            assert(m.slot_advanced(work1[i], i));
        }
        lemma_same_kinds(work1, work0, scheduled.m_per_slot@, n as int);
        lemma_kinds_within(work0, scheduled.m_per_slot@, n as int);
        assert(scheduled.m_per_slot@.take(n as int) =~= scheduled.m_per_slot@);
    }
    let counts: (u64, u64) = count_rows(work, &scheduled);
    let mut reservation = StepReservation {
        prefill_rows: counts.0,
        decode_rows: counts.1,
        verify_rows: rows,
        forced_rows: 0,
    };
    let ghost res0 = reservation;
    assert(res0 == reserved(m, drafts0, k));
    let gone: Vec<DroppedDraft> = shrink_to_budget(
        &mut reservation,
        drafts,
        limits.mtp_k,
        limits.max_batch_tokens as u64,
    );
    proof {
        assert(drafts0.take(0) =~= Seq::empty());
        assert(drafts.len() == drafts@.len());
        lemma_drop_end(drafts0, res0, k + 1, max, 0);
        assert(drafts@ =~= without_dropped(drafts0, gone@));
        let t = drop_end(drafts0, res0, k + 1, max, 0);
        assert forall|j: int| 0 <= j < n implies #[trigger] drafts@[j] == from_slot(
            drafts0,
            t,
        )[j] by {
            if j < t {
                if drafts0[j] is Some {
                    assert(is_dropped(gone@, j));
                }
            } else if is_dropped(gone@, j) {
                let i = choose|i: int| 0 <= i < gone@.len() && (#[trigger] gone@[i]).slot == j;
                assert(gone@[i].slot < t);
            }
        }
        assert(drafts@ =~= from_slot(drafts0, t));
        lemma_from_slot(drafts0, t);
        law_shrunk_step_fits(drafts0, res0, k + 1, max);
    }
    return_seeds(work, &gone);
    proof {
        assert forall|s: int| 0 <= s < n implies slot_planned(
            m,
            drafts0,
            gone@,
            s,
            #[trigger] work@[s],
        ) by {
            assert(m.slot_advanced(work1[s], s));
            if is_dropped(gone@, s) {
                let i = choose|i: int| 0 <= i < gone@.len() && (#[trigger] gone@[i]).slot == s
                    && seed_back(work1[s], work@[s], gone@[i].seed);
                assert(drafts0[s] is Some);
                assert(m.take(s) == 0);
            }
        }
    }
    let mut any: bool = false;
    let mut s: usize = 0;
    assert(drafts@.take(0) =~= Seq::empty());
    while s < drafts.len()
        invariant
            s <= drafts@.len(),
            any == (draft_count(drafts@.take(s as int)) > 0),
            draft_count(drafts@.take(s as int)) >= 0,
        decreases drafts@.len() - s,
    {
        assert(drafts@.take(s + 1).drop_last() =~= drafts@.take(s as int));
        if drafts[s].is_some() {
            any = true;
        }
        s = s + 1;
    }
    assert(drafts@.take(s as int) =~= drafts@);
    proof {
        lemma_phases_len(m, n as int);
        if m.any_pos3() {
            assert(phases_of(scheduled.pos3@).len() == scheduled.tokens@.len());
        }
    }
    let batch: SlotBatch = if any {
        inject_mtp_verify_tokens(&scheduled, drafts, slots.len(), &deltas, with_pos3)
    } else {
        scheduled
    };
    proof {
        if any {
            lemma_merged_sum(scheduled.m_per_slot@, drafts@, k + 1, batch.m_per_slot@);
        }
        assert(m.is_step(scheduled));
        assert(is_planned(m, drafts@, batch));
    }
    StepPlan { eligible, dropped: gone, batch }
}

// ---- Failed slots ----

/// Takes the request out of slot `s` and clears the slot's work, so that none
/// of its state can be reused. Returns the session of the request, which is to
/// be rejected and closed.
pub fn fail_slot(slots: &mut [Option<InFlight>], work: &mut [PendingWork], s: usize) -> (r: Option<
    u64,
>)
    requires
        s < old(slots)@.len(),
        old(slots)@.len() == old(work)@.len(),
    ensures
        r == match old(slots)@[s as int] {
            Some(f) => Some(f.session),
            None => None,
        },
        final(slots)@ == old(slots)@.update(s as int, None),
        final(work)@.len() == old(work)@.len(),
        cleared(old(work)@[s as int], final(work)@[s as int]),
        forall|j: int|
            0 <= j < old(work)@.len() && j != s ==> #[trigger] final(work)@[j] == old(work)@[j],
{
    let session: Option<u64> = match &slots[s] {
        Some(f) => Some(f.session),
        None => None,
    };
    slots[s] = None;
    clear_work_slot(&mut work[s]);
    session
}

/// The positions that every slot writes in this step.
pub fn write_intervals(batch: &SlotBatch) -> (r: Vec<Option<(usize, usize)>>)
    requires
        batch.wf(),
        forall|i: int| 0 <= i < batch.positions@.len() ==> 0 <= #[trigger] batch.positions@[i],
    ensures
        r@.len() == batch.m_per_slot@.len(),
        forall|s: int|
            0 <= s < r@.len() ==> #[trigger] r@[s] == slot_interval(*batch, s),
{
    let mut out: Vec<Option<(usize, usize)>> = Vec::new();
    let mut s: usize = 0;
    while s < batch.m_per_slot.len()
        invariant
            s <= batch.m_per_slot@.len(),
            out@.len() == s,
            batch.wf(),
            forall|i: int| 0 <= i < batch.positions@.len() ==> 0 <= #[trigger] batch.positions@[i],
            forall|j: int| 0 <= j < s ==> #[trigger] out@[j] == slot_interval(*batch, j),
        decreases batch.m_per_slot@.len() - s,
    {
        out.push(write_interval(batch, s));
        s = s + 1;
    }
    out
}

/// The requests in flight in the slots of `failed`, in that order.
pub open spec fn failed_requests(slots: Seq<Option<InFlight>>, failed: Seq<usize>) -> Seq<
    FailedRequest,
>
    decreases failed.len(),
{
    if failed.len() == 0 {
        Seq::empty()
    } else {
        let s = failed.last();
        let before = failed_requests(slots, failed.drop_last());
        match slots[s as int] {
            Some(f) => if failed_slot(failed.drop_last(), s as int) {
                before
            } else {
                before.push(FailedRequest { slot: s, session: f.session })
            },
            None => before,
        }
    }
}

/// Fails the slots that could not be provisioned, and only those: their
/// requests leave, their work is cleared, and their rows and drafts go from the
/// step. Returns the requests to reject.
pub fn fail_unprovisioned(
    slots: &mut [Option<InFlight>],
    work: &mut [PendingWork],
    batch: &mut SlotBatch,
    drafts: &mut Vec<Option<MtpDraftOutput>>,
    failed: &[usize],
) -> (r: Vec<FailedRequest>)
    requires
        old(batch).wf(),
        old(slots)@.len() == old(work)@.len(),
        old(drafts)@.len() == old(slots)@.len(),
        old(batch).m_per_slot@.len() == old(slots)@.len(),
        forall|k: int| 0 <= k < failed@.len() ==> #[trigger] failed@[k] < old(slots)@.len(),
    ensures
        r@ == failed_requests(old(slots)@, failed@),
        final(slots)@.len() == old(slots)@.len(),
        final(work)@.len() == old(work)@.len(),
        forall|s: int|
            0 <= s < old(slots)@.len() ==> if failed_slot(failed@, s) {
                (#[trigger] final(slots)@[s]) is None
            } else {
                final(slots)@[s] == old(slots)@[s]
            },
        forall|s: int|
            0 <= s < old(work)@.len() ==> if failed_slot(failed@, s) {
                cleared(old(work)@[s], #[trigger] final(work)@[s])
            } else {
                final(work)@[s] == old(work)@[s]
            },
        final(batch).wf(),
        is_rebuilt(*old(batch), failed@, *final(batch)),
        final(drafts)@ == Seq::new(
            old(drafts)@.len(),
            |s: int|
                if failed_slot(failed@, s) {
                    None
                } else {
                    old(drafts)@[s]
                },
        ),
{
    let ghost slots0 = slots@;
    let ghost work0 = work@;
    let ghost n = slots0.len();
    let mut out: Vec<FailedRequest> = Vec::new();
    let mut k: usize = 0;
    assert(failed@.take(0) =~= Seq::empty());
    while k < failed.len()
        invariant
            k <= failed@.len(),
            n == slots0.len(),
            slots@.len() == n,
            work@.len() == n,
            work0.len() == n,
            forall|k: int| 0 <= k < failed@.len() ==> #[trigger] failed@[k] < n,
            out@ == failed_requests(slots0, failed@.take(k as int)),
            forall|s: int|
                0 <= s < n ==> if failed_slot(failed@.take(k as int), s) {
                    (#[trigger] slots@[s]) is None
                } else {
                    slots@[s] == slots0[s]
                },
            forall|s: int|
                0 <= s < n ==> if failed_slot(failed@.take(k as int), s) {
                    cleared(work0[s], #[trigger] work@[s])
                } else {
                    work@[s] == work0[s]
                },
        decreases failed@.len() - k,
    {
        let s: usize = failed[k];
        let ghost slots1 = slots@;
        let ghost work1 = work@;
        let session: Option<u64> = fail_slot(slots, work, s);
        match session {
            Some(id) => out.push(FailedRequest { slot: s, session: id }),
            None => {},
        }
        proof {
            let a = failed@.take(k as int);
            let b = failed@.take(k + 1);
            assert(b.drop_last() =~= a);
            assert(b[k as int] == s);
            assert(failed_slot(b, s as int));
            assert forall|j: int| 0 <= j < n implies failed_slot(b, j) == (failed_slot(a, j) || j
                == s) by {
                if failed_slot(a, j) {
                    let i = choose|i: int| 0 <= i < a.len() && #[trigger] a[i] == j;
                    assert(b[i] == j);
                }
                if failed_slot(b, j) && j != s {
                    let i = choose|i: int| 0 <= i < b.len() && #[trigger] b[i] == j;
                    assert(a[i] == j);
                }
            }
            assert forall|j: int| 0 <= j < n implies if failed_slot(b, j) {
                (#[trigger] slots@[j]) is None
            } else {
                slots@[j] == slots0[j]
            } by {
                assert(slots1[j] == slots1[j]);
            }
            assert forall|j: int| 0 <= j < n implies if failed_slot(b, j) {
                cleared(work0[j], #[trigger] work@[j])
            } else {
                work@[j] == work0[j]
            } by {
                if j != s {
                    assert(work@[j] == work1[j]);
                }
            }
        }
        k = k + 1;
    }
    assert(failed@.take(k as int) =~= failed@);
    isolate_failed(batch, drafts, failed);
    out
}

/// The reason given to a request whose slot could not be provisioned.
pub fn unprovisioned_text() -> (r: &'static str)
    ensures
        r@ == "COW reservation failed for this slot"@,
{
    "COW reservation failed for this slot"
}

/// The reason given to a request that waited too long.
pub fn queue_timeout_text() -> (r: &'static str)
    ensures
        r@ == "serve queue timeout: request waited beyond the configured deadline"@,
{
    "serve queue timeout: request waited beyond the configured deadline"
}

// ---- Stages ----

/// Stages of one iteration, in their order.
#[derive(Debug, Clone, Copy, PartialEq, Eq, Structural)]
pub enum Stage {
    /// Take commands, expire waiters, retry the waiters that are ready.
    Commands,
    /// Run the sequential image slots.
    Images,
    /// Draft for the speculating slots.
    Draft,
    /// Run one vision-tower layer per encoding slot.
    Vision,
    /// Plan the step.
    Plan,
    /// Upload the external-embedding bases.
    Upload,
    /// Plan the copies of shared cache pages.
    Provision,
    /// Run the forward.
    Forward,
    /// Publish completed prompt pages.
    Publish,
    Synchronize,
    /// Upload the penalty windows.
    Penalties,
    /// Mask the scores of constrained slots.
    Masks,
    /// Plan the forced runs of constrained slots.
    JumpForward,
    Sample,
    ReadBack,
    /// Commit the tokens.
    Commit,
}

/// How a stage went.
#[derive(Debug)]
pub enum StageOutcome {
    Done,
    /// Nothing is left to do in this iteration.
    Nothing,
    /// No command can come any more and no request is in flight.
    Closed,
    /// The stage failed as a whole.
    Failed(String),
}

/// What the loop does next.
#[derive(Debug)]
pub enum LoopStep {
    Go(Stage),
    /// Start the next iteration.
    Again,
    /// Reject every request in flight with this reason, then start the next
    /// iteration.
    RejectAll(String),
    /// Reject every request in flight with this reason and stop for good.
    Poison(String),
    /// Drain and stop.
    Stop,
}

impl Stage {
    /// The stage that follows in the same iteration.
    pub open spec fn following(self) -> Option<Stage> {
        match self {
            Stage::Commands => Some(Stage::Images),
            Stage::Images => Some(Stage::Draft),
            Stage::Draft => Some(Stage::Vision),
            Stage::Vision => Some(Stage::Plan),
            Stage::Plan => Some(Stage::Upload),
            Stage::Upload => Some(Stage::Provision),
            Stage::Provision => Some(Stage::Forward),
            Stage::Forward => Some(Stage::Publish),
            Stage::Publish => Some(Stage::Synchronize),
            Stage::Synchronize => Some(Stage::Penalties),
            Stage::Penalties => Some(Stage::Masks),
            Stage::Masks => Some(Stage::JumpForward),
            Stage::JumpForward => Some(Stage::Sample),
            Stage::Sample => Some(Stage::ReadBack),
            Stage::ReadBack => Some(Stage::Commit),
            Stage::Commit => None,
        }
    }

    fn next(&self) -> (r: Option<Stage>)
        ensures
            r == self.following(),
    {
        match self {
            Stage::Commands => Some(Stage::Images),
            Stage::Images => Some(Stage::Draft),
            Stage::Draft => Some(Stage::Vision),
            Stage::Vision => Some(Stage::Plan),
            Stage::Plan => Some(Stage::Upload),
            Stage::Upload => Some(Stage::Provision),
            Stage::Provision => Some(Stage::Forward),
            Stage::Forward => Some(Stage::Publish),
            Stage::Publish => Some(Stage::Synchronize),
            Stage::Synchronize => Some(Stage::Penalties),
            Stage::Penalties => Some(Stage::Masks),
            Stage::Masks => Some(Stage::JumpForward),
            Stage::JumpForward => Some(Stage::Sample),
            Stage::Sample => Some(Stage::ReadBack),
            Stage::ReadBack => Some(Stage::Commit),
            Stage::Commit => None,
        }
    }
}

/// What follows a stage that went like this. A failed forward closes every
/// request and its state, so the loop goes on; any other device failure leaves
/// state that nobody can vouch for, so the loop ends.
pub open spec fn loop_next(stage: Stage, outcome: StageOutcome) -> LoopStep {
    match outcome {
        StageOutcome::Done => match stage.following() {
            Some(next) => LoopStep::Go(next),
            None => LoopStep::Again,
        },
        StageOutcome::Nothing => LoopStep::Again,
        StageOutcome::Closed => LoopStep::Stop,
        StageOutcome::Failed(reason) => if stage == Stage::Forward {
            LoopStep::RejectAll(reason)
        } else {
            LoopStep::Poison(reason)
        },
    }
}

/// Decides what follows a stage.
pub fn after_stage(stage: Stage, outcome: StageOutcome) -> (r: LoopStep)
    ensures
        r == loop_next(stage, outcome),
{
    match outcome {
        StageOutcome::Done => match stage.next() {
            Some(next) => LoopStep::Go(next),
            None => LoopStep::Again,
        },
        StageOutcome::Nothing => LoopStep::Again,
        StageOutcome::Closed => LoopStep::Stop,
        StageOutcome::Failed(reason) => if stage == Stage::Forward {
            LoopStep::RejectAll(reason)
        } else {
            LoopStep::Poison(reason)
        },
    }
}

/// Outcome of the command stage. Once the commands have been drained, the loop
/// ends if no more can come and nothing was in flight at that point; otherwise
/// it goes on if the retries left something in flight.
pub fn commands_outcome(drained_idle: bool, disconnected: bool, slots: &[Option<InFlight>]) -> (r:
    StageOutcome)
    ensures
        r == if disconnected && drained_idle {
            StageOutcome::Closed
        } else if all_idle(slots@) {
            StageOutcome::Nothing
        } else {
            StageOutcome::Done
        },
{
    if disconnected && drained_idle {
        StageOutcome::Closed
    } else if is_idle(slots) {
        StageOutcome::Nothing
    } else {
        StageOutcome::Done
    }
}

/// Outcome of a stage that leaves these rows to run.
pub fn rows_outcome(batch: &SlotBatch) -> (r: StageOutcome)
    ensures
        r == if batch.tokens@.len() == 0 {
            StageOutcome::Nothing
        } else {
            StageOutcome::Done
        },
{
    if batch.is_empty() {
        StageOutcome::Nothing
    } else {
        StageOutcome::Done
    }
}

/// A device operation whose failure ends the loop.
#[derive(Debug, Clone, Copy, PartialEq, Eq, Structural)]
pub enum DeviceFault {
    Upload,
    Synchronize,
    RepeatWindow,
    MaskRead { slot: usize },
    MaskWrite { slot: usize },
    Sample,
    ReadBack,
}

/// The reason that a device fault with this detail gives.
pub open spec fn fault_reason(fault: DeviceFault, detail: Seq<char>) -> Seq<char> {
    match fault {
        DeviceFault::Upload => "vl ext ptr upload failed: "@ + detail,
        DeviceFault::Synchronize => "device synchronize failed: "@ + detail,
        DeviceFault::RepeatWindow => "repeat window upload failed: "@ + detail,
        DeviceFault::MaskRead { slot } => "grammar mask D2H failed for slot "@ + decimal_text(
            slot as int,
        ) + ": "@ + detail,
        DeviceFault::MaskWrite { slot } => "grammar mask H2D failed for slot "@ + decimal_text(
            slot as int,
        ) + ": "@ + detail,
        DeviceFault::Sample => "sample failed: "@ + detail,
        DeviceFault::ReadBack => "DtoH failed: "@ + detail,
    }
}

/// The reason that a device fault gives.
pub fn fault_text(fault: DeviceFault, detail: &str) -> (r: String)
    ensures
        r@ == fault_reason(fault, detail@),
{
    match fault {
        DeviceFault::Upload => join2("vl ext ptr upload failed: ", detail),
        DeviceFault::Synchronize => join2("device synchronize failed: ", detail),
        DeviceFault::RepeatWindow => join2("repeat window upload failed: ", detail),
        DeviceFault::MaskRead { slot } => {
            let mut t: String = "grammar mask D2H failed for slot ".to_owned();
            append_decimal(&mut t, slot as u64);
            join3(t.as_str(), ": ", detail)
        },
        DeviceFault::MaskWrite { slot } => {
            let mut t: String = "grammar mask H2D failed for slot ".to_owned();
            append_decimal(&mut t, slot as u64);
            join3(t.as_str(), ": ", detail)
        },
        DeviceFault::Sample => join2("sample failed: ", detail),
        DeviceFault::ReadBack => join2("DtoH failed: ", detail),
    }
}

/// Pages are published only after a forward that succeeded, and tokens are
/// committed only after they were sampled and read back.
pub proof fn law_effects_follow_their_cause(stage: Stage, outcome: StageOutcome)
    ensures
        loop_next(stage, outcome) == LoopStep::Go(Stage::Publish) ==> stage == Stage::Forward
            && outcome is Done,
        loop_next(stage, outcome) == LoopStep::Go(Stage::Commit) ==> stage == Stage::ReadBack
            && outcome is Done,
{
}

/// A failed forward never ends the loop, and nothing but a failure poisons it.
pub proof fn law_only_device_failures_poison(stage: Stage, outcome: StageOutcome)
    ensures
        loop_next(stage, outcome) is Poison <==> outcome is Failed && stage != Stage::Forward,
        outcome is Failed && stage == Stage::Forward ==> loop_next(stage, outcome) is RejectAll,
{
}

// ---- Laws of the loop ----

/// The stages run in one line from the commands to the commit, and each is
/// reached: every stage but the first follows exactly one other, only the commit
/// is last, and an iteration's inputs come before what uses them.
pub proof fn law_every_stage_has_its_turn(s: Stage, t: Stage)
    ensures
        s.following() is None <==> s == Stage::Commit,
        s != Stage::Commands ==> exists|p: Stage| (#[trigger] p.following()) == Some(s),
        s.following() == t.following() ==> s == t,
        s.following() != Some(Stage::Commands),
        stage_turn(s) >= 0,
        s.following() is Some ==> stage_turn(s.following()->Some_0) == stage_turn(s) + 1,
        stage_turn(Stage::Commands) == 0,
        stage_turn(Stage::Draft) < stage_turn(Stage::Plan) < stage_turn(Stage::Provision)
            < stage_turn(Stage::Forward) < stage_turn(Stage::Synchronize),
        stage_turn(Stage::Images) < stage_turn(Stage::Draft),
        stage_turn(Stage::Vision) < stage_turn(Stage::Plan) < stage_turn(Stage::Upload)
            < stage_turn(Stage::Forward),
        stage_turn(Stage::Penalties) < stage_turn(Stage::Sample),
        stage_turn(Stage::Masks) < stage_turn(Stage::JumpForward) < stage_turn(Stage::Sample)
            < stage_turn(Stage::ReadBack) < stage_turn(Stage::Commit),
{
    if s != Stage::Commands {
        let p = stage_before(s);
        assert(p.following() == Some(s));
    }
}

/// How many stages come before.
pub open spec fn stage_turn(s: Stage) -> int {
    match s {
        Stage::Commands => 0,
        Stage::Images => 1,
        Stage::Draft => 2,
        Stage::Vision => 3,
        Stage::Plan => 4,
        Stage::Upload => 5,
        Stage::Provision => 6,
        Stage::Forward => 7,
        Stage::Publish => 8,
        Stage::Synchronize => 9,
        Stage::Penalties => 10,
        Stage::Masks => 11,
        Stage::JumpForward => 12,
        Stage::Sample => 13,
        Stage::ReadBack => 14,
        Stage::Commit => 15,
    }
}

spec fn stage_before(s: Stage) -> Stage {
    match s {
        Stage::Commands => Stage::Commit,
        Stage::Images => Stage::Commands,
        Stage::Draft => Stage::Images,
        Stage::Vision => Stage::Draft,
        Stage::Plan => Stage::Vision,
        Stage::Upload => Stage::Plan,
        Stage::Provision => Stage::Upload,
        Stage::Forward => Stage::Provision,
        Stage::Publish => Stage::Forward,
        Stage::Synchronize => Stage::Publish,
        Stage::Penalties => Stage::Synchronize,
        Stage::Masks => Stage::Penalties,
        Stage::JumpForward => Stage::Masks,
        Stage::Sample => Stage::JumpForward,
        Stage::ReadBack => Stage::Sample,
        Stage::Commit => Stage::ReadBack,
    }
}

/// The loop goes on after every outcome but two: it stops where no command can
/// come and it is poisoned by a failure outside the forward. A failure's reason
/// is handed on as it is.
pub proof fn law_the_loop_goes_on(stage: Stage, outcome: StageOutcome)
    ensures
        loop_next(stage, outcome) is Stop <==> outcome is Closed,
        outcome is Nothing ==> loop_next(stage, outcome) is Again,
        outcome is Done && stage == Stage::Commit ==> loop_next(stage, outcome) is Again,
        outcome is Done && stage != Stage::Commit ==> loop_next(stage, outcome) is Go,
        match loop_next(stage, outcome) {
            LoopStep::RejectAll(reason) => stage == Stage::Forward && outcome
                == StageOutcome::Failed(reason),
            LoopStep::Poison(reason) => stage != Stage::Forward && outcome
                == StageOutcome::Failed(reason),
            _ => !(outcome is Failed),
        },
{
}

/// Verify rows and the rows left beside them fill the budget: what drafts do not
/// need is left for prompt and decode rows, to the last row.
pub proof fn law_rows_beside_drafts_fill_the_budget(
    drafts: Seq<Option<MtpDraftOutput>>,
    limits: StepLimits,
)
    requires
        draft_count(drafts) >= 0,
    ensures
        draft_count(drafts) * (limits.mtp_k + 1) <= limits.max_batch_tokens ==> left_beside(
            drafts,
            limits,
        ) + draft_count(drafts) * (limits.mtp_k + 1) == limits.max_batch_tokens,
        draft_count(drafts) * (limits.mtp_k + 1) > limits.max_batch_tokens ==> left_beside(
            drafts,
            limits,
        ) == 0,
{
    let n = draft_count(drafts);
    let k = limits.mtp_k as int;
    assert(n * (k + 1) >= 0) by (nonlinear_arith)
        requires
            n >= 0,
            k >= 0,
    ;
}

proof fn lemma_failed_requests(slots: Seq<Option<InFlight>>, failed: Seq<usize>, s: int)
    requires
        forall|k: int| 0 <= k < failed.len() ==> #[trigger] failed[k] < slots.len(),
    ensures
        ({
            let r = failed_requests(slots, failed);
            &&& forall|i: int|
                0 <= i < r.len() ==> {
                    &&& failed_slot(failed, (#[trigger] r[i]).slot as int)
                    &&& r[i].slot < slots.len()
                    &&& slots[r[i].slot as int] is Some
                    &&& r[i].session == slots[r[i].slot as int]->Some_0.session
                }
            &&& forall|i: int, j: int|
                0 <= i < j < r.len() ==> (#[trigger] r[i]).slot != (#[trigger] r[j]).slot
            &&& failed_slot(failed, s) && slots[s] is Some ==> exists|i: int|
                0 <= i < r.len() && (#[trigger] r[i]).slot == s
        }),
    decreases failed.len(),
{
    if failed.len() > 0 {
        let init = failed.drop_last();
        let last = failed.last();
        assert forall|k: int| 0 <= k < init.len() implies #[trigger] init[k] < slots.len() by {
            assert(failed[k] < slots.len());
        }
        lemma_failed_requests(slots, init, s);
        let before = failed_requests(slots, init);
        let r = failed_requests(slots, failed);
        assert(failed[failed.len() - 1] == last);
        assert forall|x: int| failed_slot(init, x) implies failed_slot(failed, x) by {
            let k = choose|k: int| 0 <= k < init.len() && #[trigger] init[k] == x;
            assert(failed[k] == x);
        }
        assert(failed_slot(failed, last as int));
        if failed_slot(failed, s) && slots[s] is Some {
            if s == last && !failed_slot(init, s) {
                assert(r[r.len() - 1].slot == s);
            } else {
                assert(failed_slot(init, s)) by {
                    let k = choose|k: int| 0 <= k < failed.len() && #[trigger] failed[k] == s;
                    if k < init.len() {
                        assert(init[k] == s);
                    }
                }
                let i = choose|i: int| 0 <= i < before.len() && (#[trigger] before[i]).slot == s;
                assert(r[i] == before[i]);
            }
        }
        assert forall|i: int| 0 <= i < r.len() implies {
            &&& failed_slot(failed, (#[trigger] r[i]).slot as int)
            &&& r[i].slot < slots.len()
            &&& slots[r[i].slot as int] is Some
            &&& r[i].session == slots[r[i].slot as int]->Some_0.session
        } by {
            if i < before.len() {
                assert(r[i] == before[i]);
            }
        }
        assert forall|i: int, j: int| 0 <= i < j < r.len() implies (#[trigger] r[i]).slot != (
        #[trigger] r[j]).slot by {
            assert(r[i] == before[i]);
            if j < before.len() {
                assert(r[j] == before[j]);
            }
        }
    }
}

/// Whoever could not be provisioned is told, once: each request in a failed slot is
/// rejected under its own session, and nobody else's is.
pub proof fn law_failed_requests_are_told_once(
    slots: Seq<Option<InFlight>>,
    failed: Seq<usize>,
    s: usize,
    i: int,
    j: int,
)
    requires
        forall|k: int| 0 <= k < failed.len() ==> #[trigger] failed[k] < slots.len(),
        s < slots.len(),
    ensures
        ({
            let r = failed_requests(slots, failed);
            &&& failed.contains(s) && slots[s as int] is Some ==> exists|x: int|
                0 <= x < r.len() && (#[trigger] r[x]).slot == s && r[x].session
                    == slots[s as int]->Some_0.session
            &&& 0 <= i < r.len() ==> failed.contains(r[i].slot) && r[i].slot < slots.len()
                && slots[r[i].slot as int] is Some && r[i].session
                == slots[r[i].slot as int]->Some_0.session
            &&& 0 <= i < j < r.len() ==> r[i].slot != r[j].slot
        }),
{
    lemma_failed_requests(slots, failed, s as int);
    let r = failed_requests(slots, failed);
    if failed.contains(s) && slots[s as int] is Some {
        let k = choose|k: int| 0 <= k < failed.len() && failed[k] == s;
        assert(failed[k] == s as int);
        assert(failed_slot(failed, s as int));
    }
    if 0 <= i < r.len() {
        let x = r[i];
        assert(failed_slot(failed, x.slot as int));
        let k = choose|k: int| 0 <= k < failed.len() && #[trigger] failed[k] == x.slot as int;
        assert(failed[k] == x.slot);
    }
}

/// A slot's dropped draft leaves only its own place: every other draft stays.
pub proof fn law_other_drafts_stay(
    drafts: Seq<Option<MtpDraftOutput>>,
    gone: Seq<DroppedDraft>,
    s: int,
)
    requires
        0 <= s < drafts.len(),
    ensures
        without_dropped(drafts, gone).len() == drafts.len(),
        (exists|i: int| 0 <= i < gone.len() && (#[trigger] gone[i]).slot == s) ==> without_dropped(
            drafts,
            gone,
        )[s] is None,
        (forall|i: int| 0 <= i < gone.len() ==> (#[trigger] gone[i]).slot != s) ==> without_dropped(
            drafts,
            gone,
        )[s] == drafts[s],
{
}

/// A planned step serves every slot in one way: a slot whose draft stays has
/// exactly its verify rows, and any other the rows that the scheduler gave it.
pub proof fn law_planned_steps_serve_every_slot(
    m: StepInput,
    drafts: Seq<Option<MtpDraftOutput>>,
    batch: SlotBatch,
    s: int,
)
    requires
        is_planned(m, drafts, batch),
        drafts.len() == m.work.len(),
        0 <= s < m.work.len(),
    ensures
        drafts[s] is Some ==> batch.m_per_slot@[s] == drafts[s]->Some_0.verify_tokens@.len(),
        drafts[s] is None ==> exists|b: SlotBatch| #[trigger]
            m.is_step(b) && batch.m_per_slot@[s] == b.m_per_slot@[s],
{
    let b = choose|b: SlotBatch| #[trigger]
        m.is_step(b) && if draft_count(drafts) > 0 {
            is_merged(
                b,
                drafts,
                m.work.len() as int,
                offsets_of(m.work),
                m.any_pos3(),
                batch,
            )
        } else {
            batch == b
        };
    lemma_no_drafts(drafts);
    assert(m.is_step(b));
    if draft_count(drafts) > 0 {
        assert(batch.m_per_slot@[s] == match drafts[s] {
            Some(d) => d.verify_tokens.len(),
            None => rows_of(b.m_per_slot@, s) as usize,
        });
    }
}

proof fn lemma_no_drafts(drafts: Seq<Option<MtpDraftOutput>>)
    ensures
        draft_count(drafts) >= 0,
        draft_count(drafts) == 0 ==> forall|s: int|
            0 <= s < drafts.len() ==> (#[trigger] drafts[s]) is None,
    decreases drafts.len(),
{
    if drafts.len() > 0 {
        let init = drafts.drop_last();
        lemma_no_drafts(init);
        if draft_count(drafts) == 0 {
            assert forall|s: int| 0 <= s < drafts.len() implies (#[trigger] drafts[s]) is None by {
                if s < init.len() {
                    assert(init[s] is None);
                }
            }
        }
    }
}

/// A slot whose draft was dropped has its seed back as the one token to feed, at
/// the place where it was.
pub proof fn law_dropped_drafts_give_their_seed_back(
    m: StepInput,
    drafts: Seq<Option<MtpDraftOutput>>,
    gone: Seq<DroppedDraft>,
    i: int,
    after: PendingWork,
)
    requires
        0 <= i < gone.len(),
        gone[i].slot < drafts.len(),
        slot_planned(m, drafts, gone, gone[i].slot as int, after),
    ensures
        after.remaining_prompt@.len() == 1,
        after.remaining_prompt@[0] == drafts[gone[i].slot as int]->Some_0.verify_tokens@[0],
        after.next_pos == m.work[gone[i].slot as int].next_pos,
        after.decoding == m.work[gone[i].slot as int].decoding,
        after.mtp_active == m.work[gone[i].slot as int].mtp_active,
{
    assert(is_dropped(gone, gone[i].slot as int));
}

/// A step reserves what it runs: verify rows for every draft, and the rows of every
/// slot as prompt or decode rows, unless the slot speculates.
pub proof fn law_steps_reserve_what_they_run(
    m: StepInput,
    drafts: Seq<Option<MtpDraftOutput>>,
    mtp_k: usize,
    b: SlotBatch,
)
    requires
        m.valid(),
        m.is_step(b),
        draft_count(drafts) * (mtp_k + 1) <= u64::MAX,
        b.tokens@.len() <= u64::MAX,
        forall|s: int|
            0 <= s < m.work.len() ==> !((#[trigger] m.work[s]).decoding && m.work[s].mtp_active),
    ensures
        reserved(m, drafts, mtp_k).verify_rows == draft_count(drafts) * (mtp_k + 1),
        reserved(m, drafts, mtp_k).prefill_rows + reserved(m, drafts, mtp_k).decode_rows
            == b.tokens@.len(),
        reserved(m, drafts, mtp_k).forced_rows == 0,
{
    let n = m.work.len() as int;
    let rows = Seq::new(m.work.len(), |i: int| m.take(i) as usize);
    assert(rows == b.m_per_slot@);
    crate::step::law_rows_are_prompt_or_decode(m.work, rows, n);
    assert(rows.take(n) =~= rows);
    lemma_row_counts(m.work, rows, n);
    lemma_no_drafts(drafts);
    let c = draft_count(drafts);
    let k = mtp_k as int;
    assert(c * (k + 1) >= 0) by (nonlinear_arith)
        requires
            c >= 0,
            k >= 0,
    ;
}

proof fn lemma_row_counts(work: Seq<PendingWork>, m: Seq<usize>, n: int)
    requires
        0 <= n <= m.len(),
    ensures
        0 <= prefill_rows(work, m, n),
        0 <= decode_rows(work, m, n),
    decreases n,
{
    if n > 0 {
        lemma_row_counts(work, m, n - 1);
    }
}

/// A device fault is told with the reason that the device gave, and with its slot
/// where it has one.
pub proof fn law_faults_tell_their_reason(fault: DeviceFault, detail: Seq<char>)
    ensures
        fault_reason(fault, detail).len() > detail.len(),
        fault_reason(fault, detail).skip(fault_reason(fault, detail).len() - detail.len())
            == detail,
{
    reveal_strlit("vl ext ptr upload failed: ");
    reveal_strlit("device synchronize failed: ");
    reveal_strlit("repeat window upload failed: ");
    reveal_strlit("grammar mask D2H failed for slot ");
    reveal_strlit("grammar mask H2D failed for slot ");
    reveal_strlit("sample failed: ");
    reveal_strlit("DtoH failed: ");
    let t = fault_reason(fault, detail);
    assert(t.skip(t.len() - detail.len()) =~= detail);
}

} // verus!
