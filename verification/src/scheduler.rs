//! Decides what goes into each step's [`SlotBatch`].
//!
//! Deliberately minimal: decode lanes first, then chunked prefill by rotation,
//! no preemption or priorities. The property that matters is that a long prompt
//! is cut to `chunk_size` tokens per step, so it cannot block the other slots
//! for its whole duration.

use crate::slot_batch::{low_i32, rows_sum, wrap_i32, SlotBatch, SlotId};
use vstd::prelude::*;

verus! {

/// Step builder with its prefill rotation.
pub struct Scheduler {
    /// Most prompt tokens one slot feeds through a step.
    pub chunk_size: usize,
    /// Serve image slots on the sequential per-token path instead of the
    /// batched one.
    pub vl_sequential: bool,
    /// Rotation cursor for the prefill quantum. Each step the first prefilling
    /// slot in rotation order gets the minimum prefill quantum before extra
    /// budget is handed out; advancing the cursor across ticks gives the
    /// quantum to another prefilling slot.
    pub prefill_cursor: usize,
}

/// One slot's outstanding work as seen by the scheduler.
pub struct PendingWork {
    pub slot: SlotId,
    /// Prompt tokens not yet fed through prefill, drained front to back.
    pub remaining_prompt: Vec<u32>,
    /// Next absolute position this slot will occupy.
    pub next_pos: usize,
    /// Once prefill is complete, the slot decodes one token per step.
    pub decoding: bool,
    /// Image state of the slot's request, if it has any.
    pub vl_prefill: Option<VlPrefill>,
    /// Whether the slot speculates. While it prefills, its chunks flow through
    /// the batch; once it decodes, the draft and verify cycle owns it.
    pub mtp_active: bool,
    /// Decode cycles spent speculating in the current retire window.
    pub mtp_cycles: usize,
    /// Tokens committed across those cycles.
    pub mtp_committed: usize,
    /// Consecutive retire windows whose mean advance fell below the line.
    pub mtp_retire_fails: usize,
    /// Rotary phase offset for a text continuation of an image conversation
    /// (0 for pure text). Every row of the slot takes its phase from
    /// `pos + pos3_delta`.
    pub pos3_delta: i32,
}

/// Visual and rotary data for one slot's image request.
///
/// `patches` and `embeddings` hold the bit patterns of 32-bit floats.
pub struct VlPrefill {
    /// Vision-tower patches; consumed once by the vision forward.
    pub patches: Vec<u32>,
    pub grid_h: usize,
    pub grid_w: usize,
    /// Visual token count after merging.
    pub n_visual_tokens: usize,
    /// Filled by the vision forward (`n_visual_tokens * dim` entries).
    pub embeddings: Vec<u32>,
    /// Model hidden size (embedding stride).
    pub dim: usize,
    /// Index into `embeddings` of the next visual token to splice.
    pub visual_idx: usize,
    /// Prompt token id that carries one visual embedding per occurrence.
    pub image_pad_id: u32,
    /// Rotary phases for every prompt token, offset by `base`.
    pub mrope_positions: Vec<[i32; 3]>,
    /// Offset of decode phases past the prompt.
    pub rope_delta: i32,
    /// Base sequence position of this request's prefill.
    pub base: usize,
}

/// Whether position `pos` has its phases in the request's own table.
pub open spec fn in_phase_table(vl: VlPrefill, pos: int) -> bool {
    vl.base <= pos < vl.base + vl.mrope_positions@.len()
}

/// Whether the shifted phase of position `pos` is a 32-bit word.
pub open spec fn phase_fits(pos: int, delta: i32) -> bool {
    i32::MIN <= low_i32(pos) + delta <= i32::MAX
}

/// The phase triple of `pos` shifted by `delta` on all three axes.
pub open spec fn shifted_phase(pos: int, delta: i32) -> Seq<i32> {
    let p = (low_i32(pos) + delta) as i32;
    seq![p, p, p]
}

impl VlPrefill {
    /// The phases of `pos`: the request's table while in range, the shifted
    /// position beyond it.
    pub open spec fn phase(&self, pos: int) -> Seq<i32> {
        if in_phase_table(*self, pos) {
            self.mrope_positions@[pos - self.base]@
        } else {
            shifted_phase(pos, self.rope_delta)
        }
    }

    /// Absolute rotary phases for position `pos`.
    pub fn pos3(&self, pos: usize) -> (r: [i32; 3])
        requires
            in_phase_table(*self, pos as int) || phase_fits(pos as int, self.rope_delta),
        ensures
            r@ == self.phase(pos as int),
    {
        if pos >= self.base && pos - self.base < self.mrope_positions.len() {
            self.mrope_positions[pos - self.base]
        } else {
            let p: i32 = wrap_i32(pos) + self.rope_delta;
            let r: [i32; 3] = [p, p, p];
            assert(r@ =~= seq![p, p, p]);
            r
        }
    }
}

// ---- Runnable predicates ----

/// A sequential image slot or a decoding speculative slot: owned elsewhere,
/// never batched here.
pub open spec fn skipped(w: PendingWork, vl_sequential: bool) -> bool {
    (w.vl_prefill is Some && vl_sequential) || (w.mtp_active && w.decoding)
}

/// A batched image slot whose embeddings have not landed yet.
pub open spec fn waiting_for_vision(w: PendingWork) -> bool {
    w.vl_prefill is Some && w.vl_prefill->Some_0.embeddings@.len() == 0
        && w.vl_prefill->Some_0.n_visual_tokens > 0
}

/// A decoding slot that contributes one ordinary decode row.
pub open spec fn runnable_decode(w: PendingWork, vl_sequential: bool) -> bool {
    &&& !skipped(w, vl_sequential)
    &&& !waiting_for_vision(w)
    &&& w.decoding
    &&& w.remaining_prompt@.len() > 0
}

/// A prefilling slot with prompt tokens left to feed.
pub open spec fn runnable_prefill(w: PendingWork, vl_sequential: bool) -> bool {
    &&& !skipped(w, vl_sequential)
    &&& !waiting_for_vision(w)
    &&& !w.decoding
    &&& w.remaining_prompt@.len() > 0
}

/// Sequential image slot or decoding speculative slot.
pub fn skip_entirely(w: &PendingWork, vl_sequential: bool) -> (r: bool)
    ensures
        r == skipped(*w, vl_sequential),
{
    (w.vl_prefill.is_some() && vl_sequential) || (w.mtp_active && w.decoding)
}

/// Batched image slot whose vision-tower embeddings have not landed yet.
pub fn vl_waiting(w: &PendingWork) -> (r: bool)
    ensures
        r == waiting_for_vision(*w),
{
    match &w.vl_prefill {
        Some(vl) => vl.embeddings.len() == 0 && vl.n_visual_tokens > 0,
        None => false,
    }
}

/// Whether the slot contributes one ordinary decode row this step.
pub fn is_runnable_decode(w: &PendingWork, vl_sequential: bool) -> (r: bool)
    ensures
        r == runnable_decode(*w, vl_sequential),
{
    if skip_entirely(w, vl_sequential) || vl_waiting(w) {
        return false;
    }
    w.decoding && w.remaining_prompt.len() > 0
}

/// Whether the slot has prompt tokens to feed through prefill this step.
pub fn is_runnable_prefill(w: &PendingWork, vl_sequential: bool) -> (r: bool)
    ensures
        r == runnable_prefill(*w, vl_sequential),
{
    if skip_entirely(w, vl_sequential) || vl_waiting(w) {
        return false;
    }
    !w.decoding && w.remaining_prompt.len() > 0
}

// ---- Row allocation ----

/// What one step's allocation depends on.
pub struct StepInput {
    pub work: Seq<PendingWork>,
    pub eligible: Seq<bool>,
    pub vl_sequential: bool,
    /// Most prompt rows of a slot.
    pub chunk: int,
    /// Position of the prefill rotation.
    pub cursor: int,
    /// Rows the step may carry.
    pub budget: int,
    /// Least prompt rows of the slot at the head of the rotation.
    pub quantum: int,
}

pub open spec fn least(a: int, b: int) -> int {
    if a <= b {
        a
    } else {
        b
    }
}

pub open spec fn greatest(a: int, b: int) -> int {
    if a >= b {
        a
    } else {
        b
    }
}

/// Position in the rotation of the `x`-th of `n` lanes when it starts at lane
/// `start`.
pub open spec fn turn_of(x: int, start: int, n: int) -> int {
    if x >= start {
        x - start
    } else {
        x + n - start
    }
}

/// The lane that is at turn `k` of a rotation over `n` lanes from `start`.
pub open spec fn lane_at(k: int, start: int, n: int) -> int {
    if start + k < n {
        start + k
    } else {
        start + k - n
    }
}

impl StepInput {
    /// Slot `i` may take one decode row.
    pub open spec fn decode_lane(self, i: int) -> bool {
        &&& 0 <= i < self.work.len()
        &&& i < self.eligible.len() && self.eligible[i]
        &&& runnable_decode(self.work[i], self.vl_sequential)
    }

    /// Slot `i` may take prompt rows.
    pub open spec fn prefill_lane(self, i: int) -> bool {
        &&& 0 <= i < self.work.len()
        &&& i < self.eligible.len() && self.eligible[i]
        &&& runnable_prefill(self.work[i], self.vl_sequential)
    }

    /// Decode lanes among the first `i` slots.
    pub open spec fn decode_before(self, i: int) -> int
        decreases i,
    {
        if i <= 0 {
            0
        } else {
            self.decode_before(i - 1) + if self.decode_lane(i - 1) {
                1int
            } else {
                0
            }
        }
    }

    /// The prefill lanes among the first `i` slots, in slot order.
    pub open spec fn prefill_lanes(self, i: int) -> Seq<int>
        decreases i,
    {
        if i <= 0 {
            Seq::empty()
        } else if self.prefill_lane(i - 1) {
            self.prefill_lanes(i - 1).push(i - 1)
        } else {
            self.prefill_lanes(i - 1)
        }
    }

    /// Prefill lanes of the whole step.
    pub open spec fn lanes(self) -> Seq<int> {
        self.prefill_lanes(self.work.len() as int)
    }

    /// Rows that decode takes: one per lane, up to the budget.
    pub open spec fn decode_rows(self) -> int {
        least(self.decode_before(self.work.len() as int), self.budget)
    }

    /// Rows left for prefill.
    pub open spec fn prefill_budget(self) -> int {
        self.budget - self.decode_rows()
    }

    /// Lane at which the rotation starts.
    pub open spec fn start(self) -> int {
        self.cursor % (self.lanes().len() as int)
    }

    /// Slot at turn `k` of the rotation.
    pub open spec fn slot_at(self, k: int) -> int {
        self.lanes()[lane_at(k, self.start(), self.lanes().len() as int)]
    }

    /// Rows that the slot at turn `k` would take if the budget were endless:
    /// its prompt, cut to a chunk; the head's cut is at least the quantum.
    pub open spec fn wanted(self, k: int) -> int {
        let prompt = self.work[self.slot_at(k)].remaining_prompt@.len() as int;
        if k == 0 {
            least(greatest(self.chunk, self.quantum), prompt)
        } else {
            least(self.chunk, prompt)
        }
    }

    /// Rows taken by the first `k` turns of the rotation.
    pub open spec fn spent(self, k: int) -> int
        decreases k,
    {
        if k <= 0 {
            0
        } else {
            self.spent(k - 1) + least(
                self.wanted(k - 1),
                self.prefill_budget() - self.spent(k - 1),
            )
        }
    }

    /// Turn of the prefill lane `i`.
    pub open spec fn turn(self, i: int) -> int {
        turn_of(
            self.prefill_lanes(i).len() as int,
            self.start(),
            self.lanes().len() as int,
        )
    }

    /// Rows of slot `i`.
    pub open spec fn take(self, i: int) -> int {
        if self.decode_lane(i) {
            if self.decode_before(i) < self.budget {
                1
            } else {
                0
            }
        } else if self.prefill_lane(i) {
            let k = self.turn(i);
            least(self.wanted(k), self.prefill_budget() - self.spent(k))
        } else {
            0
        }
    }

    /// The rotation cursor after the step: one further whenever some prompt
    /// rows could be handed out.
    pub open spec fn next_cursor(self) -> int {
        if self.prefill_budget() > 0 && self.lanes().len() > 0 {
            (self.cursor + 1) % (self.lanes().len() as int)
        } else {
            self.cursor
        }
    }

    /// The numbers are those of machine words.
    pub open spec fn valid(self) -> bool {
        &&& self.chunk >= 0
        &&& self.cursor >= 0
        &&& self.budget >= 0
        &&& self.quantum >= 0
    }
}

// ---- Rows of a step ----

/// Rotary phases of the row at absolute position `pos` of slot work `w`.
pub open spec fn row_phase(w: PendingWork, pos: int) -> Seq<i32> {
    match w.vl_prefill {
        Some(vl) => vl.phase(pos),
        None => shifted_phase(pos, w.pos3_delta),
    }
}

/// Whether the phase of the row at `pos` can be computed without overflow.
pub open spec fn row_phase_fits(w: PendingWork, pos: int) -> bool {
    match w.vl_prefill {
        Some(vl) => in_phase_table(vl, pos) || phase_fits(pos, vl.rope_delta),
        None => phase_fits(pos, w.pos3_delta),
    }
}

/// Index of the next visual token once the first `j` of `toks` are spliced:
/// each image pad takes one, as long as there are any.
pub open spec fn visual_after(vl: VlPrefill, toks: Seq<u32>, j: int) -> int
    decreases j,
{
    if j <= 0 {
        vl.visual_idx as int
    } else {
        let v = visual_after(vl, toks, j - 1);
        if toks[j - 1] == vl.image_pad_id && v < vl.n_visual_tokens {
            v + 1
        } else {
            v
        }
    }
}

/// External-embedding index of the `j`-th row that `w` feeds: the next visual
/// token at an image pad, -1 everywhere else.
pub open spec fn row_ext(w: PendingWork, j: int) -> i32 {
    match w.vl_prefill {
        Some(vl) => {
            let v = visual_after(vl, w.remaining_prompt@, j);
            if w.remaining_prompt@[j] == vl.image_pad_id && v < vl.n_visual_tokens {
                low_i32(v)
            } else {
                -1i32
            }
        },
        None => -1i32,
    }
}

/// `after` is `before` once `take` of its tokens have gone into a step: they
/// leave the front of the prompt, the position and the visual index advance,
/// and nothing else changes.
pub open spec fn advanced(before: PendingWork, after: PendingWork, take: int) -> bool {
    &&& after.remaining_prompt@ == before.remaining_prompt@.skip(take)
    &&& after.next_pos == before.next_pos + take
    &&& after.slot == before.slot
    &&& after.decoding == before.decoding
    &&& after.mtp_active == before.mtp_active
    &&& after.mtp_cycles == before.mtp_cycles
    &&& after.mtp_committed == before.mtp_committed
    &&& after.mtp_retire_fails == before.mtp_retire_fails
    &&& after.pos3_delta == before.pos3_delta
    &&& match (before.vl_prefill, after.vl_prefill) {
        (Some(b), Some(a)) => {
            &&& a.visual_idx == visual_after(b, before.remaining_prompt@, take)
            &&& a == (VlPrefill { visual_idx: a.visual_idx, ..b })
        },
        (None, None) => true,
        _ => false,
    }
}

/// Some slot is a batched image slot or carries a phase offset.
pub open spec fn needs_pos3(work: Seq<PendingWork>, vl_sequential: bool) -> bool {
    exists|i: int|
        0 <= i < work.len() && (((#[trigger] work[i]).vl_prefill is Some && !vl_sequential)
            || work[i].pos3_delta != 0)
}

impl StepInput {
    /// The step runs three-axis phases: some slot is a batched image slot or
    /// carries a phase offset.
    pub open spec fn any_pos3(self) -> bool {
        needs_pos3(self.work, self.vl_sequential)
    }

    /// No taken row's position or phase overflows, nor does the cursor.
    pub open spec fn rows_fit(self) -> bool {
        &&& forall|i: int|
            0 <= i < self.work.len() ==> (#[trigger] self.work[i]).next_pos + self.take(i)
                <= usize::MAX
        &&& self.any_pos3() ==> forall|i: int, j: int|
            0 <= i < self.work.len() && 0 <= j < self.take(i) ==> #[trigger] row_phase_fits(
                self.work[i],
                self.work[i].next_pos + j,
            )
        &&& self.prefill_budget() > 0 && self.lanes().len() > 0 ==> self.cursor < usize::MAX
    }

    /// Token rows of the first `n` slots.
    pub open spec fn flat_tokens(self, n: int) -> Seq<u32>
        decreases n,
    {
        if n <= 0 {
            Seq::empty()
        } else {
            self.flat_tokens(n - 1) + self.work[n - 1].remaining_prompt@.take(self.take(n - 1))
        }
    }

    /// Positions of the rows of the first `n` slots.
    pub open spec fn flat_positions(self, n: int) -> Seq<i32>
        decreases n,
    {
        if n <= 0 {
            Seq::empty()
        } else {
            self.flat_positions(n - 1) + Seq::new(
                self.take(n - 1) as nat,
                |j: int| low_i32(self.work[n - 1].next_pos + j),
            )
        }
    }

    /// Slots of the rows of the first `n` slots.
    pub open spec fn flat_slots(self, n: int) -> Seq<i32>
        decreases n,
    {
        if n <= 0 {
            Seq::empty()
        } else {
            self.flat_slots(n - 1) + Seq::new(
                self.take(n - 1) as nat,
                |j: int| low_i32(self.work[n - 1].slot.0 as int),
            )
        }
    }

    /// Phases of the rows of the first `n` slots.
    pub open spec fn flat_phases(self, n: int) -> Seq<Seq<i32>>
        decreases n,
    {
        if n <= 0 {
            Seq::empty()
        } else {
            self.flat_phases(n - 1) + Seq::new(
                self.take(n - 1) as nat,
                |j: int| row_phase(self.work[n - 1], self.work[n - 1].next_pos + j),
            )
        }
    }

    /// External-embedding indices of the rows of the first `n` slots.
    pub open spec fn flat_ext(self, n: int) -> Seq<i32>
        decreases n,
    {
        if n <= 0 {
            Seq::empty()
        } else {
            self.flat_ext(n - 1) + Seq::new(
                self.take(n - 1) as nat,
                |j: int| row_ext(self.work[n - 1], j),
            )
        }
    }

    /// Slot `i` has become `after`: untouched without rows, advanced by them
    /// otherwise.
    pub open spec fn slot_advanced(self, after: PendingWork, i: int) -> bool {
        if self.take(i) == 0 {
            after == self.work[i]
        } else {
            advanced(self.work[i], after, self.take(i))
        }
    }

    /// Every slot has become what its rows leave of it.
    pub open spec fn all_advanced(self, after: Seq<PendingWork>) -> bool {
        &&& after.len() == self.work.len()
        &&& forall|i: int| 0 <= i < after.len() ==> #[trigger] self.slot_advanced(after[i], i)
    }

    /// `b` is the step: every slot's rows, packed in slot order, with the side
    /// arrays exactly when the step runs three-axis phases.
    pub open spec fn is_step(self, b: SlotBatch) -> bool {
        let n = self.work.len() as int;
        &&& b.wf()
        &&& b.m_per_slot@ == Seq::new(self.work.len(), |i: int| self.take(i) as usize)
        &&& b.tokens@ == self.flat_tokens(n)
        &&& b.positions@ == self.flat_positions(n)
        &&& b.row_slot@ == self.flat_slots(n)
        &&& phases_of(b.pos3@) == if self.any_pos3() {
            self.flat_phases(n)
        } else {
            Seq::empty()
        }
        &&& b.ext_emb@ == if self.any_pos3() {
            self.flat_ext(n)
        } else {
            Seq::empty()
        }
    }
}

/// The phase triples as sequences.
pub open spec fn phases_of(p: Seq<[i32; 3]>) -> Seq<Seq<i32>> {
    Seq::new(p.len(), |k: int| p[k]@)
}

// ---- Facts about the allocation ----

proof fn lemma_lanes(m: StepInput, n: int)
    requires
        0 <= n <= m.work.len(),
    ensures
        m.prefill_lanes(n).len() <= n,
        forall|x: int|
            0 <= x < m.prefill_lanes(n).len() ==> {
                let i = #[trigger] m.prefill_lanes(n)[x];
                0 <= i < n && m.prefill_lane(i) && m.prefill_lanes(i).len() == x
            },
        forall|i: int|
            0 <= i < n && m.prefill_lane(i) ==> (#[trigger] m.prefill_lanes(i)).len()
                < m.prefill_lanes(n).len() && m.prefill_lanes(n)[m.prefill_lanes(i).len() as int]
                == i,
    decreases n,
{
    if n > 0 {
        lemma_lanes(m, n - 1);
        assert forall|i: int| 0 <= i < n && m.prefill_lane(i) implies (
        #[trigger] m.prefill_lanes(i)).len() < m.prefill_lanes(n).len()
            && m.prefill_lanes(n)[m.prefill_lanes(i).len() as int] == i by {
            if i < n - 1 {
                assert(m.prefill_lanes(i).len() < m.prefill_lanes(n - 1).len());
            }
        }
    }
}

proof fn lemma_spent(m: StepInput, k: int)
    requires
        m.valid(),
        0 <= k <= m.lanes().len(),
    ensures
        0 <= m.spent(k) <= m.prefill_budget(),
    decreases k,
{
    lemma_decode_before(m, m.work.len() as int);
    if k > 0 {
        lemma_spent(m, k - 1);
    }
}

proof fn lemma_decode_before(m: StepInput, n: int)
    requires
        0 <= n,
    ensures
        0 <= m.decode_before(n) <= n,
    decreases n,
{
    if n > 0 {
        lemma_decode_before(m, n - 1);
    }
}

proof fn lemma_decode_before_monotone(m: StepInput, i: int, n: int)
    requires
        0 <= i <= n,
    ensures
        m.decode_before(i) <= m.decode_before(n),
    decreases n - i,
{
    if i < n {
        lemma_decode_before_monotone(m, i, n - 1);
    }
}

/// A slot's rows never exceed its prompt, and the turn of a prefill lane lies
/// within the rotation.
pub proof fn lemma_take_bounds(m: StepInput, i: int)
    requires
        m.valid(),
        0 <= i < m.work.len(),
    ensures
        0 <= m.take(i) <= m.work[i].remaining_prompt@.len(),
        m.prefill_lane(i) ==> 0 <= m.turn(i) < m.lanes().len() && m.slot_at(m.turn(i)) == i,
{
    if m.prefill_lane(i) {
        lemma_lanes(m, m.work.len() as int);
        assert(m.prefill_lanes(i).len() < m.lanes().len());
        lemma_spent(m, m.turn(i));
    }
}

// ---- Building a step ----

fn min_usize(a: usize, b: usize) -> (r: usize)
    ensures
        r == least(a as int, b as int),
{
    if a <= b {
        a
    } else {
        b
    }
}

fn max_usize(a: usize, b: usize) -> (r: usize)
    ensures
        r == greatest(a as int, b as int),
{
    if a >= b {
        a
    } else {
        b
    }
}

fn granted(eligible: &[bool], i: usize) -> (r: bool)
    ensures
        r == (i < eligible@.len() && eligible@[i as int]),
{
    i < eligible.len() && eligible[i]
}

impl Scheduler {
    /// The allocation problem of one step.
    pub open spec fn step_input(
        &self,
        work: Seq<PendingWork>,
        remaining_rows: usize,
        prefill_min_tokens: usize,
        eligible: Seq<bool>,
    ) -> StepInput {
        StepInput {
            work,
            eligible,
            vl_sequential: self.vl_sequential,
            chunk: self.chunk_size as int,
            cursor: self.prefill_cursor as int,
            budget: remaining_rows as int,
            quantum: prefill_min_tokens as int,
        }
    }

    /// Rows of every slot; advances the rotation cursor.
    fn allocate(
        &mut self,
        work: &[PendingWork],
        remaining_rows: usize,
        prefill_min_tokens: usize,
        eligible: &[bool],
    ) -> (alloc: Vec<usize>)
        requires
            old(self).step_input(work@, remaining_rows, prefill_min_tokens, eligible@).rows_fit(),
        ensures
            ({
                let m = old(self).step_input(
                    work@,
                    remaining_rows,
                    prefill_min_tokens,
                    eligible@,
                );
                &&& alloc@.len() == work@.len()
                &&& forall|i: int| 0 <= i < work@.len() ==> #[trigger] alloc@[i] == m.take(i)
                &&& final(self).prefill_cursor == m.next_cursor()
            }),
            final(self).chunk_size == old(self).chunk_size,
            final(self).vl_sequential == old(self).vl_sequential,
    {
        let ghost m = self.step_input(work@, remaining_rows, prefill_min_tokens, eligible@);
        let n: usize = work.len();
        let mut alloc: Vec<usize> = Vec::new();
        let mut used: usize = 0;
        let mut lanes: Vec<usize> = Vec::new();
        let mut i: usize = 0;
        // Decode lanes in slot order until the budget is exhausted; the
        // prefill lanes are collected on the way.
        while i < n
            invariant
                n == work@.len(),
                i <= n,
                m == self.step_input(work@, remaining_rows, prefill_min_tokens, eligible@),
                alloc@.len() == i,
                used == least(m.decode_before(i as int), m.budget),
                lanes@.len() == m.prefill_lanes(i as int).len(),
                forall|x: int|
                    0 <= x < lanes@.len() ==> #[trigger] lanes@[x] == m.prefill_lanes(
                        i as int,
                    )[x],
                forall|j: int|
                    0 <= j < i ==> #[trigger] alloc@[j] == if m.decode_lane(j) {
                        m.take(j)
                    } else {
                        0
                    },
            decreases n - i,
        {
            let mut rows: usize = 0;
            if granted(eligible, i) {
                if is_runnable_decode(&work[i], self.vl_sequential) {
                    if used < remaining_rows {
                        rows = 1;
                        used = used + 1;
                    }
                } else if is_runnable_prefill(&work[i], self.vl_sequential) {
                    lanes.push(i);
                }
            }
            alloc.push(rows);
            i = i + 1;
        }
        let mut avail: usize = remaining_rows - used;
        if avail > 0 && lanes.len() > 0 {
            proof {
                lemma_lanes(m, n as int);
                assert(lanes@.len() <= n);
            }
            let n_pr: usize = lanes.len();
            let start: usize = self.prefill_cursor % n_pr;
            let mut k: usize = 0;
            // The head of the rotation gets at least the quantum, every other
            // lane at most a chunk of what is left.
            while k < n_pr
                invariant
                    n == work@.len(),
                    alloc@.len() == n,
                    m == self.step_input(work@, remaining_rows, prefill_min_tokens, eligible@),
                    m.valid(),
                    k <= n_pr,
                    n_pr == lanes@.len(),
                    n_pr == m.lanes().len(),
                    start == m.start(),
                    0 <= start < n_pr,
                    avail == m.prefill_budget() - m.spent(k as int),
                    forall|x: int|
                        0 <= x < lanes@.len() ==> #[trigger] lanes@[x] == m.lanes()[x],
                    forall|j: int|
                        0 <= j < n ==> #[trigger] alloc@[j] == if m.decode_lane(j) || (
                        m.prefill_lane(j) && m.turn(j) < k) {
                            m.take(j)
                        } else {
                            0
                        },
                decreases n_pr - k,
            {
                let x: usize = if k < n_pr - start {
                    start + k
                } else {
                    k - (n_pr - start)
                };
                let slot: usize = lanes[x];
                proof {
                    lemma_lanes(m, n as int);
                    lemma_spent(m, k as int);
                    lemma_spent(m, k + 1);
                    assert(m.lanes()[x as int] == slot);
                    assert(m.prefill_lane(slot as int));
                    assert(m.prefill_lanes(slot as int).len() == x);
                    assert(m.turn(slot as int) == k);
                    assert(m.slot_at(k as int) == slot);
                    assert forall|j: int| 0 <= j < n && m.prefill_lane(j) && j != slot implies m.turn(
                        j,
                    ) != k by {
                        assert(m.lanes()[m.prefill_lanes(j).len() as int] == j);
                    }
                }
                let prompt: usize = work[slot].remaining_prompt.len();
                let cap: usize = if k == 0 {
                    max_usize(self.chunk_size, prefill_min_tokens)
                } else {
                    self.chunk_size
                };
                let take: usize = min_usize(min_usize(cap, prompt), avail);
                alloc[slot] = take;
                avail = avail - take;
                k = k + 1;
            }
            self.prefill_cursor = (self.prefill_cursor + 1) % n_pr;
        }
        proof {
            lemma_lanes(m, n as int);
            assert forall|j: int| 0 <= j < n implies #[trigger] alloc@[j] == m.take(j) by {
                lemma_take_bounds(m, j);
                if m.prefill_lane(j) {
                    lemma_spent(m, m.turn(j));
                }
            }
        }
        alloc
    }
}

/// Moves `take` tokens of `w` into the step as rows.
fn feed_rows(w: &mut PendingWork, take: usize, any_pos3: bool, b: &mut SlotBatch)
    requires
        take <= old(w).remaining_prompt@.len(),
        old(w).next_pos + take <= usize::MAX,
        any_pos3 ==> forall|j: int|
            0 <= j < take ==> #[trigger] row_phase_fits(*old(w), old(w).next_pos + j),
        !any_pos3 ==> old(w).vl_prefill is None,
    ensures
        advanced(*old(w), *final(w), take as int),
        final(b).m_per_slot@ == old(b).m_per_slot@,
        final(b).tokens@ == old(b).tokens@ + old(w).remaining_prompt@.take(take as int),
        final(b).positions@ == old(b).positions@ + Seq::new(
            take as nat,
            |j: int| low_i32(old(w).next_pos + j),
        ),
        final(b).row_slot@ == old(b).row_slot@ + Seq::new(
            take as nat,
            |j: int| low_i32(old(w).slot.0 as int),
        ),
        phases_of(final(b).pos3@) == if any_pos3 {
            phases_of(old(b).pos3@) + Seq::new(
                take as nat,
                |j: int| row_phase(*old(w), old(w).next_pos + j),
            )
        } else {
            phases_of(old(b).pos3@)
        },
        final(b).ext_emb@ == if any_pos3 {
            old(b).ext_emb@ + Seq::new(take as nat, |j: int| row_ext(*old(w), j))
        } else {
            old(b).ext_emb@
        },
{
    let ghost w0 = *w;
    let ghost b0 = *b;
    let mut toks: Vec<u32> = w.remaining_prompt.split_off(take);
    std::mem::swap(&mut w.remaining_prompt, &mut toks);
    assert(toks@ == w0.remaining_prompt@.take(take as int));
    assert(w.remaining_prompt@ =~= w0.remaining_prompt@.skip(take as int));
    let start_pos: usize = w.next_pos;
    let mut j: usize = 0;
    while j < take
        invariant
            j <= take,
            toks@ == w0.remaining_prompt@.take(take as int),
            take <= w0.remaining_prompt@.len(),
            start_pos == w0.next_pos,
            start_pos + take <= usize::MAX,
            any_pos3 ==> forall|j: int|
                0 <= j < take ==> #[trigger] row_phase_fits(w0, w0.next_pos + j),
            !any_pos3 ==> w0.vl_prefill is None,
            w.remaining_prompt@ == w0.remaining_prompt@.skip(take as int),
            w.next_pos == w0.next_pos,
            w.slot == w0.slot,
            w.decoding == w0.decoding,
            w.mtp_active == w0.mtp_active,
            w.mtp_cycles == w0.mtp_cycles,
            w.mtp_committed == w0.mtp_committed,
            w.mtp_retire_fails == w0.mtp_retire_fails,
            w.pos3_delta == w0.pos3_delta,
            match (w0.vl_prefill, w.vl_prefill) {
                (Some(v0), Some(v)) => {
                    &&& v.visual_idx == visual_after(v0, w0.remaining_prompt@, j as int)
                    &&& v == (VlPrefill { visual_idx: v.visual_idx, ..v0 })
                },
                (None, None) => true,
                _ => false,
            },
            b.m_per_slot@ == b0.m_per_slot@,
            b.tokens@ == b0.tokens@ + w0.remaining_prompt@.take(j as int),
            b.positions@ == b0.positions@ + Seq::new(
                j as nat,
                |j: int| low_i32(w0.next_pos + j),
            ),
            b.row_slot@ == b0.row_slot@ + Seq::new(j as nat, |j: int| low_i32(w0.slot.0 as int)),
            phases_of(b.pos3@) == if any_pos3 {
                phases_of(b0.pos3@) + Seq::new(
                    j as nat,
                    |j: int| row_phase(w0, w0.next_pos + j),
                )
            } else {
                phases_of(b0.pos3@)
            },
            b.ext_emb@ == if any_pos3 {
                b0.ext_emb@ + Seq::new(j as nat, |j: int| row_ext(w0, j))
            } else {
                b0.ext_emb@
            },
        decreases take - j,
    {
        let pos: usize = start_pos + j;
        let t: u32 = toks[j];
        let ghost b1 = *b;
        b.tokens.push(t);
        b.positions.push(wrap_i32(pos));
        b.row_slot.push(wrap_i32(w.slot.0));
        if any_pos3 {
            assert(row_phase_fits(w0, w0.next_pos + j));
            match &mut w.vl_prefill {
                Some(vl) => {
                    b.pos3.push(vl.pos3(pos));
                    // Image pads splice visual embeddings in prompt order;
                    // everything else uses the token table.
                    if t == vl.image_pad_id && vl.visual_idx < vl.n_visual_tokens {
                        b.ext_emb.push(wrap_i32(vl.visual_idx));
                        vl.visual_idx = vl.visual_idx + 1;
                    } else {
                        b.ext_emb.push(-1);
                    }
                },
                None => {
                    let p: i32 = wrap_i32(pos) + w.pos3_delta;
                    let row: [i32; 3] = [p, p, p];
                    assert(row@ =~= seq![p, p, p]);
                    b.pos3.push(row);
                    b.ext_emb.push(-1);
                },
            }
        }
        j = j + 1;
        proof {
            assert(w0.remaining_prompt@.take(j as int) =~= w0.remaining_prompt@.take(j - 1).push(t));
            assert(b.tokens@ =~= b0.tokens@ + w0.remaining_prompt@.take(j as int));
            assert(b.positions@ =~= b0.positions@ + Seq::new(
                j as nat,
                |j: int| low_i32(w0.next_pos + j),
            ));
            assert(b.row_slot@ =~= b0.row_slot@ + Seq::new(
                j as nat,
                |j: int| low_i32(w0.slot.0 as int),
            ));
            if any_pos3 {
                assert(b.pos3@.last()@ == row_phase(w0, w0.next_pos + (j - 1)));
                assert(phases_of(b.pos3@) =~= phases_of(b1.pos3@).push(b.pos3@.last()@));
                assert(phases_of(b.pos3@) =~= phases_of(b0.pos3@) + Seq::new(
                    j as nat,
                    |j: int| row_phase(w0, w0.next_pos + j),
                ));
                assert(b.ext_emb@ =~= b0.ext_emb@ + Seq::new(j as nat, |j: int| row_ext(w0, j)));
            }
        }
    }
    w.next_pos = start_pos + take;
}

impl Scheduler {
    /// Whether some slot's rows need three-axis phases.
    pub fn any_pos3(&self, work: &[PendingWork]) -> (r: bool)
        ensures
            r == needs_pos3(work@, self.vl_sequential),
    {
        let mut i: usize = 0;
        while i < work.len()
            invariant
                i <= work@.len(),
                forall|j: int|
                    0 <= j < i ==> !(((#[trigger] work@[j]).vl_prefill is Some
                        && !self.vl_sequential) || work@[j].pos3_delta != 0),
            decreases work@.len() - i,
        {
            if (work[i].vl_prefill.is_some() && !self.vl_sequential) || work[i].pos3_delta != 0 {
                return true;
            }
            i = i + 1;
        }
        false
    }

    /// Builds the next step under a row budget, with every slot eligible.
    pub fn next_batch(
        &mut self,
        work: &mut [PendingWork],
        remaining_rows: usize,
        prefill_min_tokens: usize,
    ) -> (b: SlotBatch)
        requires
            old(self).step_input(
                old(work)@,
                remaining_rows,
                prefill_min_tokens,
                Seq::new(old(work)@.len(), |i: int| true),
            ).rows_fit(),
        ensures
            ({
                let m = old(self).step_input(
                    old(work)@,
                    remaining_rows,
                    prefill_min_tokens,
                    Seq::new(old(work)@.len(), |i: int| true),
                );
                &&& m.is_step(b)
                &&& m.all_advanced(final(work)@)
                &&& final(self).prefill_cursor == m.next_cursor()
            }),
            final(self).chunk_size == old(self).chunk_size,
            final(self).vl_sequential == old(self).vl_sequential,
    {
        let mut all: Vec<bool> = Vec::new();
        let n: usize = work.len();
        while all.len() < n
            invariant
                all@.len() <= n,
                forall|i: int| 0 <= i < all@.len() ==> all@[i],
            decreases n - all@.len(),
        {
            all.push(true);
        }
        assert(all@ =~= Seq::new(work@.len(), |i: int| true));
        self.next_batch_eligible(work, remaining_rows, prefill_min_tokens, all.as_slice())
    }

    /// Builds the next step under a row budget; only slots with
    /// `eligible[s] == true` may contribute rows.
    ///
    /// Every runnable decode slot gets one row first, in slot order, as far as
    /// `remaining_rows` goes. If any prefill is runnable and space remains, the
    /// slot at the rotation cursor gets at least `prefill_min_tokens` prompt
    /// rows, as far as its prompt and the budget go; the rest is handed out by
    /// rotation with each slot cut at `chunk_size`. What a slot contributes
    /// leaves the front of its prompt and advances its position; a slot without
    /// rows is left untouched.
    pub fn next_batch_eligible(
        &mut self,
        work: &mut [PendingWork],
        remaining_rows: usize,
        prefill_min_tokens: usize,
        eligible: &[bool],
    ) -> (b: SlotBatch)
        requires
            old(self).step_input(
                old(work)@,
                remaining_rows,
                prefill_min_tokens,
                eligible@,
            ).rows_fit(),
        ensures
            ({
                let m = old(self).step_input(
                    old(work)@,
                    remaining_rows,
                    prefill_min_tokens,
                    eligible@,
                );
                &&& m.is_step(b)
                &&& m.all_advanced(final(work)@)
                &&& final(self).prefill_cursor == m.next_cursor()
            }),
            final(self).chunk_size == old(self).chunk_size,
            final(self).vl_sequential == old(self).vl_sequential,
    {
        let ghost m = self.step_input(work@, remaining_rows, prefill_min_tokens, eligible@);
        let ghost work0 = work@;
        let any_pos3: bool = self.any_pos3(work);
        let alloc: Vec<usize> = self.allocate(work, remaining_rows, prefill_min_tokens, eligible);
        let mut b = SlotBatch::default();
        let n: usize = work.len();
        let mut i: usize = 0;
        assert(phases_of(b.pos3@) =~= Seq::empty());
        while i < n
            invariant
                i <= n,
                n == work@.len(),
                n == work0.len(),
                alloc@.len() == n,
                m.work == work0,
                m.valid(),
                m.rows_fit(),
                any_pos3 == m.any_pos3(),
                forall|j: int| 0 <= j < n ==> #[trigger] alloc@[j] == m.take(j),
                forall|j: int| i <= j < n ==> #[trigger] work@[j] == work0[j],
                forall|j: int| 0 <= j < i ==> #[trigger] m.slot_advanced(work@[j], j),
                b.positions@.len() == b.tokens@.len(),
                b.row_slot@.len() == b.tokens@.len(),
                b.ext_emb@.len() == b.pos3@.len(),
                b.pos3@.len() == if any_pos3 {
                    b.tokens@.len()
                } else {
                    0
                },
                rows_sum(b.m_per_slot@) == b.tokens@.len(),
                b.m_per_slot@ =~= Seq::new(i as nat, |j: int| m.take(j) as usize),
                b.tokens@ == m.flat_tokens(i as int),
                b.positions@ == m.flat_positions(i as int),
                b.row_slot@ == m.flat_slots(i as int),
                phases_of(b.pos3@) == if any_pos3 {
                    m.flat_phases(i as int)
                } else {
                    Seq::empty()
                },
                b.ext_emb@ == if any_pos3 {
                    m.flat_ext(i as int)
                } else {
                    Seq::empty()
                },
            decreases n - i,
        {
            let take: usize = alloc[i];
            let ghost b1 = b;
            proof {
                lemma_take_bounds(m, i as int);
                assert(work@[i as int] == work0[i as int]);
                assert(m.work[i as int].next_pos + m.take(i as int) <= usize::MAX);
            }
            if take > 0 {
                let w = &mut work[i];
                feed_rows(w, take, any_pos3, &mut b);
            } else {
                proof {
                    let w0 = work0[i as int];
                    assert(w0.remaining_prompt@.take(0) =~= Seq::empty());
                }
            }
            let ghost b2 = b;
            b.m_per_slot.push(take);
            proof {
                assert(b.m_per_slot@.drop_last() =~= b1.m_per_slot@);
                assert(phases_of(b2.pos3@).len() == b2.pos3@.len());
                assert(phases_of(b1.pos3@).len() == b1.pos3@.len());
                assert(b.tokens@ =~= m.flat_tokens(i + 1));
                assert(b.positions@ =~= m.flat_positions(i + 1));
                assert(b.row_slot@ =~= m.flat_slots(i + 1));
                if any_pos3 {
                    assert(phases_of(b.pos3@) =~= m.flat_phases(i + 1));
                    assert(b.ext_emb@ =~= m.flat_ext(i + 1));
                }
            }
            i = i + 1;
        }
        b
    }
}

// ---- Laws of the allocation ----

/// Rows that prefill has taken once `c` lanes in slot order are counted.
spec fn lanes_spent(m: StepInput, c: int) -> int {
    let n = m.lanes().len() as int;
    let start = m.start();
    if c <= start {
        m.spent(c + n - start) - m.spent(n - start)
    } else {
        m.spent(n) - m.spent(n - start) + m.spent(c - start)
    }
}

proof fn lemma_flat_len(m: StepInput, i: int)
    requires
        m.valid(),
        0 <= i <= m.work.len(),
    ensures
        m.flat_tokens(i).len() == least(m.decode_before(i), m.budget) + (if m.lanes().len() > 0 {
            lanes_spent(m, m.prefill_lanes(i).len() as int)
        } else {
            0
        }),
    decreases i,
{
    lemma_lanes(m, m.work.len() as int);
    let n = m.lanes().len() as int;
    if i > 0 {
        lemma_flat_len(m, i - 1);
        lemma_take_bounds(m, i - 1);
        if m.prefill_lane(i - 1) {
            let c = m.prefill_lanes(i - 1).len() as int;
            assert(c < n);
            assert(m.lanes()[c] == i - 1);
            let k = m.turn(i - 1);
            assert(m.spent(k + 1) == m.spent(k) + m.take(i - 1));
            assert(n > 0);
            assert(0 <= m.start() < n);
        }
    } else if n > 0 {
        assert(0 <= m.start() < n);
    }
}

/// A step never carries more rows than its budget.
pub proof fn law_rows_within_budget(m: StepInput, b: SlotBatch)
    requires
        m.valid(),
        m.is_step(b),
    ensures
        b.tokens@.len() <= m.budget,
{
    let n = m.work.len() as int;
    lemma_flat_len(m, n);
    lemma_decode_before(m, n);
    if m.lanes().len() > 0 {
        let l = m.lanes().len() as int;
        assert(0 <= m.start() < l);
        lemma_spent(m, l);
        lemma_spent(m, l - m.start());
    }
}

/// A slot that is not eligible contributes no rows and keeps all it has.
pub proof fn law_ineligible_slot_untouched(
    m: StepInput,
    b: SlotBatch,
    after: Seq<PendingWork>,
    i: int,
)
    requires
        m.is_step(b),
        m.all_advanced(after),
        0 <= i < m.work.len(),
        i >= m.eligible.len() || !m.eligible[i],
    ensures
        b.m_per_slot@[i] == 0,
        after[i] == m.work[i],
{
    assert(m.slot_advanced(after[i], i));
}

/// No token is lost or fed twice: what a slot contributes, followed by what it
/// keeps, is the prompt it had.
pub proof fn law_no_token_lost(m: StepInput, after: Seq<PendingWork>, i: int)
    requires
        m.valid(),
        m.all_advanced(after),
        0 <= i < m.work.len(),
    ensures
        m.work[i].remaining_prompt@ == m.work[i].remaining_prompt@.take(m.take(i))
            + after[i].remaining_prompt@,
        after[i].next_pos == m.work[i].next_pos + m.take(i),
{
    lemma_take_bounds(m, i);
    assert(m.slot_advanced(after[i], i));
    let p = m.work[i].remaining_prompt@;
    assert(p =~= p.take(m.take(i)) + p.skip(m.take(i)));
    assert(p.skip(0) =~= p);
}

/// Decode comes first: a decode lane goes without a row only when the lanes
/// before it have used up the budget, and then no prompt row is fed either.
pub proof fn law_decode_first(m: StepInput, i: int, p: int)
    requires
        m.valid(),
        m.decode_lane(i),
        m.take(i) != 1,
        m.prefill_lane(p),
    ensures
        m.decode_before(i) >= m.budget,
        m.take(i) == 0,
        m.take(p) == 0,
{
    lemma_decode_before_monotone(m, i, m.work.len() as int);
    lemma_take_bounds(m, p);
    lemma_spent(m, m.turn(p));
}

/// A slot is cut to a chunk per step; only the slot at the head of the rotation
/// may exceed it, and only up to the quantum.
pub proof fn law_chunk_caps_a_slot(m: StepInput, i: int)
    requires
        m.valid(),
        m.prefill_lane(i),
    ensures
        m.take(i) <= greatest(m.chunk, m.quantum),
        m.turn(i) != 0 ==> m.take(i) <= m.chunk,
{
    lemma_take_bounds(m, i);
}

/// The slot at the head of the rotation gets the quantum, as far as its prompt
/// and the rows that decode leaves go.
pub proof fn law_head_gets_quantum(m: StepInput)
    requires
        m.valid(),
        m.lanes().len() > 0,
    ensures
        m.prefill_lane(m.slot_at(0)),
        m.take(m.slot_at(0)) >= least(
            m.quantum,
            least(m.work[m.slot_at(0)].remaining_prompt@.len() as int, m.prefill_budget()),
        ),
{
    lemma_lanes(m, m.work.len() as int);
    let i = m.slot_at(0);
    assert(0 <= m.start() < m.lanes().len());
    assert(m.lanes()[m.start()] == i);
    assert(m.turn(i) == 0);
}

proof fn lemma_spent_monotone(m: StepInput, j: int, k: int)
    requires
        m.valid(),
        0 <= j <= k <= m.lanes().len(),
    ensures
        m.spent(j) <= m.spent(k),
    decreases k - j,
{
    if j < k {
        lemma_spent_monotone(m, j, k - 1);
        lemma_spent(m, k - 1);
        lemma_lanes(m, m.work.len() as int);
    }
}

/// No budget is left idle while there is work: if a step carries fewer rows
/// than it may, every decode lane has its row and every prefill lane all that
/// its cap allows.
pub proof fn law_budget_is_used(m: StepInput, b: SlotBatch, i: int)
    requires
        m.valid(),
        m.is_step(b),
        b.tokens@.len() < m.budget,
        0 <= i < m.work.len(),
    ensures
        m.decode_lane(i) ==> m.take(i) == 1,
        m.prefill_lane(i) ==> m.take(i) == m.wanted(m.turn(i)),
{
    let n = m.work.len() as int;
    lemma_flat_len(m, n);
    lemma_decode_before(m, n);
    let l = m.lanes().len() as int;
    if l > 0 {
        assert(0 <= m.start() < l);
        lemma_spent(m, l);
        lemma_spent(m, l - m.start());
    }
    if m.decode_lane(i) {
        lemma_decode_before_monotone(m, i, n);
    }
    if m.prefill_lane(i) {
        lemma_take_bounds(m, i);
        let k = m.turn(i);
        lemma_spent_monotone(m, k + 1, l);
        lemma_spent(m, k);
    }
}

/// The quantum rotates: when two steps in a row see the same number of prefill
/// lanes and hand out prompt rows, the second starts one lane further.
pub proof fn law_quantum_rotates(m: StepInput, next: StepInput)
    requires
        m.valid(),
        m.prefill_budget() > 0,
        m.lanes().len() > 0,
        next.lanes().len() == m.lanes().len(),
        next.cursor == m.next_cursor(),
    ensures
        next.start() == lane_at(1, m.start(), m.lanes().len() as int),
{
    let n = m.lanes().len() as int;
    let c = m.cursor;
    assert((c + 1) % n % n == (if c % n + 1 < n {
        c % n + 1
    } else {
        c % n + 1 - n
    })) by (nonlinear_arith)
        requires
            n > 0,
            c >= 0,
    {
        vstd::arithmetic::div_mod::lemma_fundamental_div_mod(c, n);
        vstd::arithmetic::div_mod::lemma_add_mod_noop(c, 1, n);
        vstd::arithmetic::div_mod::lemma_mod_bound(c, n);
        if n > 1 {
            vstd::arithmetic::div_mod::lemma_small_mod(1, n as nat);
        }
        if c % n + 1 < n {
            vstd::arithmetic::div_mod::lemma_small_mod((c % n + 1) as nat, n as nat);
        }
    }
}

// ---- Laws of a step, over the work it is given and the rows it carries ----

/// The slot's image, if it has one, is spliced into batched steps and has its
/// embeddings.
pub open spec fn image_is_ready(w: PendingWork, vl_sequential: bool) -> bool {
    w.vl_prefill is Some ==> !vl_sequential && (w.vl_prefill->Some_0.embeddings@.len() > 0
        || w.vl_prefill->Some_0.n_visual_tokens == 0)
}

/// Leftover rows reach every slot: if a step carries fewer rows than it may,
/// each eligible slot that decodes has its row, and each that prefills feeds a
/// whole chunk or all the prompt it has.
pub proof fn law_leftover_rows_reach_every_slot(
    s: Scheduler,
    work: Seq<PendingWork>,
    remaining_rows: usize,
    prefill_min_tokens: usize,
    eligible: Seq<bool>,
    b: SlotBatch,
    i: int,
)
    requires
        s.step_input(work, remaining_rows, prefill_min_tokens, eligible).is_step(b),
        b.tokens@.len() < remaining_rows,
        0 <= i < work.len(),
        i < eligible.len(),
        eligible[i],
        work[i].remaining_prompt@.len() > 0,
        image_is_ready(work[i], s.vl_sequential),
    ensures
        work[i].decoding && !work[i].mtp_active ==> b.m_per_slot@[i] == 1,
        !work[i].decoding ==> b.m_per_slot@[i] >= s.chunk_size || b.m_per_slot@[i]
            == work[i].remaining_prompt@.len(),
{
    let m = s.step_input(work, remaining_rows, prefill_min_tokens, eligible);
    law_budget_is_used(m, b, i);
    lemma_take_bounds(m, i);
    if m.prefill_lane(i) {
        lemma_take_bounds(m, i);
        assert(m.take(i) == m.wanted(m.turn(i)));
    }
}

/// A step stays within what it is given: its rows within the budget, a slot's
/// rows within its prompt, a decoding slot within one row, and a prefilling slot
/// within a chunk, but for one slot that may have the quantum.
pub proof fn law_step_stays_within_its_bounds(
    s: Scheduler,
    work: Seq<PendingWork>,
    remaining_rows: usize,
    prefill_min_tokens: usize,
    eligible: Seq<bool>,
    b: SlotBatch,
    i: int,
    j: int,
)
    requires
        s.step_input(work, remaining_rows, prefill_min_tokens, eligible).is_step(b),
        0 <= i < work.len(),
        0 <= j < work.len(),
    ensures
        b.m_per_slot@.len() == work.len(),
        b.tokens@.len() <= remaining_rows,
        b.m_per_slot@[i] <= work[i].remaining_prompt@.len(),
        work[i].decoding ==> b.m_per_slot@[i] <= 1,
        !work[i].decoding ==> b.m_per_slot@[i] <= s.chunk_size || b.m_per_slot@[i]
            <= prefill_min_tokens,
        i != j && !work[i].decoding && !work[j].decoding ==> b.m_per_slot@[i] <= s.chunk_size
            || b.m_per_slot@[j] <= s.chunk_size,
{
    let m = s.step_input(work, remaining_rows, prefill_min_tokens, eligible);
    law_rows_within_budget(m, b);
    lemma_take_bounds(m, i);
    lemma_take_bounds(m, j);
    if m.prefill_lane(i) {
        law_chunk_caps_a_slot(m, i);
    }
    if m.prefill_lane(j) {
        law_chunk_caps_a_slot(m, j);
    }
    if m.prefill_lane(i) && m.prefill_lane(j) && i != j {
        lemma_lanes(m, m.work.len() as int);
        assert(m.turn(i) != m.turn(j));
    }
}

/// Slots that others own get no rows and are left as they are: a slot that is
/// not eligible, one without tokens, one that decodes speculatively, one whose
/// image runs on the sequential path or still waits for its embeddings.
pub proof fn law_owned_slots_are_left_alone(
    s: Scheduler,
    work: Seq<PendingWork>,
    remaining_rows: usize,
    prefill_min_tokens: usize,
    eligible: Seq<bool>,
    b: SlotBatch,
    after: Seq<PendingWork>,
    i: int,
)
    requires
        s.step_input(work, remaining_rows, prefill_min_tokens, eligible).is_step(b),
        s.step_input(work, remaining_rows, prefill_min_tokens, eligible).all_advanced(after),
        0 <= i < work.len(),
        i >= eligible.len() || !eligible[i] || work[i].remaining_prompt@.len() == 0 || (
        work[i].mtp_active && work[i].decoding) || !image_is_ready(work[i], s.vl_sequential),
    ensures
        b.m_per_slot@[i] == 0,
        after[i] == work[i],
{
    let m = s.step_input(work, remaining_rows, prefill_min_tokens, eligible);
    assert(m.slot_advanced(after[i], i));
    lemma_take_bounds(m, i);
}

/// Decoding slots come first, in slot order: if one goes without its row, the
/// budget is used up, no slot feeds prompt rows and no later slot decodes.
pub proof fn law_decode_rows_come_first(
    s: Scheduler,
    work: Seq<PendingWork>,
    remaining_rows: usize,
    prefill_min_tokens: usize,
    eligible: Seq<bool>,
    b: SlotBatch,
    i: int,
    j: int,
)
    requires
        s.step_input(work, remaining_rows, prefill_min_tokens, eligible).is_step(b),
        0 <= i < work.len(),
        0 <= j < work.len(),
        i < eligible.len(),
        eligible[i],
        work[i].decoding,
        !work[i].mtp_active,
        work[i].remaining_prompt@.len() > 0,
        image_is_ready(work[i], s.vl_sequential),
        b.m_per_slot@[i] == 0,
    ensures
        b.tokens@.len() == remaining_rows,
        !work[j].decoding ==> b.m_per_slot@[j] == 0,
        j > i ==> b.m_per_slot@[j] == 0,
{
    let m = s.step_input(work, remaining_rows, prefill_min_tokens, eligible);
    lemma_take_bounds(m, i);
    lemma_take_bounds(m, j);
    assert(m.decode_lane(i));
    if b.tokens@.len() < remaining_rows {
        law_budget_is_used(m, b, i);
    }
    law_rows_within_budget(m, b);
    if m.prefill_lane(j) {
        law_decode_first(m, i, j);
    }
    if m.decode_lane(j) && j > i {
        lemma_decode_before_monotone(m, i, j);
    }
}

/// Prefill never starves: where some slot may prefill and decode leaves rows,
/// one prefilling slot gets the quantum, all its prompt, or every row that
/// decode leaves.
pub proof fn law_some_slot_gets_the_quantum(
    s: Scheduler,
    work: Seq<PendingWork>,
    remaining_rows: usize,
    prefill_min_tokens: usize,
    eligible: Seq<bool>,
    b: SlotBatch,
    i: int,
)
    requires
        s.step_input(work, remaining_rows, prefill_min_tokens, eligible).is_step(b),
        0 <= i < work.len(),
        i < eligible.len(),
        eligible[i],
        !work[i].decoding,
        work[i].remaining_prompt@.len() > 0,
        image_is_ready(work[i], s.vl_sequential),
    ensures
        exists|h: int|
            {
                &&& 0 <= h < work.len()
                &&& !(#[trigger] work[h]).decoding
                &&& work[h].remaining_prompt@.len() > 0
                &&& b.m_per_slot@[h] >= prefill_min_tokens || b.m_per_slot@[h]
                    == work[h].remaining_prompt@.len() || (b.tokens@.len() == remaining_rows
                    && forall|j: int|
                    0 <= j < work.len() && j != h && !(#[trigger] work[j]).decoding
                        ==> b.m_per_slot@[j] == 0)
            },
{
    let m = s.step_input(work, remaining_rows, prefill_min_tokens, eligible);
    lemma_lanes(m, m.work.len() as int);
    assert(m.prefill_lane(i));
    assert(m.prefill_lanes(i).len() < m.lanes().len());
    law_head_gets_quantum(m);
    let h = m.slot_at(0);
    lemma_take_bounds(m, h);
    assert(!work[h].decoding);
    assert(0 <= m.start() < m.lanes().len());
    assert(m.lanes()[m.start()] == h);
    assert(m.turn(h) == 0);
    if b.m_per_slot@[h] < prefill_min_tokens && b.m_per_slot@[h]
        < work[h].remaining_prompt@.len() {
        assert(m.take(h) == m.prefill_budget());
        assert(m.spent(1) == m.prefill_budget()) by {
            assert(m.spent(0) == 0);
        }
        if b.tokens@.len() < remaining_rows {
            law_budget_is_used(m, b, h);
        }
        law_rows_within_budget(m, b);
        assert forall|j: int|
            0 <= j < work.len() && j != h && !(#[trigger] work[j]).decoding implies b.m_per_slot@[j]
            == 0 by {
            lemma_take_bounds(m, j);
            if m.prefill_lane(j) {
                assert(m.turn(j) != 0) by {
                    if m.turn(j) == 0 {
                        assert(m.slot_at(m.turn(j)) == j);
                    }
                }
                lemma_spent_monotone(m, 1, m.turn(j));
                lemma_spent(m, m.turn(j));
            }
        }
    }
}

/// The quantum goes round: among slots that all prefill text, the one the cursor
/// points at has its whole chunk or quantum as far as prompt and budget go, and
/// the cursor moves on to the next slot.
pub proof fn law_the_quantum_goes_round(
    s: Scheduler,
    work: Seq<PendingWork>,
    remaining_rows: usize,
    prefill_min_tokens: usize,
    eligible: Seq<bool>,
    b: SlotBatch,
    cursor: int,
)
    requires
        s.step_input(work, remaining_rows, prefill_min_tokens, eligible).is_step(b),
        cursor == s.step_input(
            work,
            remaining_rows,
            prefill_min_tokens,
            eligible,
        ).next_cursor(),
        remaining_rows > 0,
        work.len() > 0,
        eligible.len() == work.len(),
        forall|i: int|
            0 <= i < work.len() ==> #[trigger] eligible[i] && !work[i].decoding
                && work[i].vl_prefill is None && work[i].remaining_prompt@.len() > 0,
    ensures
        ({
            let h = s.prefill_cursor as int % work.len() as int;
            let rows = b.m_per_slot@[h];
            let prompt = work[h].remaining_prompt@.len();
            &&& rows == prompt || rows == remaining_rows || (rows >= s.chunk_size && rows
                >= prefill_min_tokens)
            &&& 0 <= cursor < work.len()
            &&& cursor == h + 1 || (cursor == 0 && h + 1 == work.len())
        }),
{
    let m = s.step_input(work, remaining_rows, prefill_min_tokens, eligible);
    let n = work.len() as int;
    assert forall|i: int| 0 <= i < n implies m.prefill_lane(i) by {
        assert(eligible[i]);
    }
    lemma_all_prefill(m, n);
    let h = s.prefill_cursor as int % n;
    lemma_lanes(m, n);
    assert(0 <= h < n);
    assert(eligible[h]);
    assert(m.slot_at(0) == h);
    assert(m.turn(h) == 0) by {
        lemma_all_prefill(m, h);
    }
    lemma_take_bounds(m, h);
    let c = m.cursor;
    assert((c + 1) % n == (if c % n + 1 < n {
        c % n + 1
    } else {
        0
    })) by (nonlinear_arith)
        requires
            n > 0,
            c >= 0,
    {
        vstd::arithmetic::div_mod::lemma_fundamental_div_mod(c, n);
        vstd::arithmetic::div_mod::lemma_mod_bound(c, n);
        if c % n + 1 < n {
            vstd::arithmetic::div_mod::lemma_fundamental_div_mod_converse(
                c + 1,
                n,
                c / n,
                c % n + 1,
            );
        } else {
            vstd::arithmetic::div_mod::lemma_fundamental_div_mod_converse(c + 1, n, c / n + 1, 0);
        }
    }
}

proof fn lemma_all_prefill(m: StepInput, n: int)
    requires
        0 <= n <= m.work.len(),
        forall|i: int| 0 <= i < n ==> m.prefill_lane(i),
    ensures
        m.prefill_lanes(n) == Seq::new(n as nat, |i: int| i),
        forall|i: int| 0 <= i < n ==> !m.decode_lane(i),
        m.decode_before(n) == 0,
    decreases n,
{
    if n > 0 {
        lemma_all_prefill(m, n - 1);
        assert(m.prefill_lane(n - 1));
    }
    assert(m.prefill_lanes(n) =~= Seq::new(n as nat, |i: int| i));
}

/// Prompts are fed one after the other: at most one slot feeds some of its prompt
/// but neither a chunk nor all of it.
pub proof fn law_one_slot_is_cut_short(
    s: Scheduler,
    work: Seq<PendingWork>,
    remaining_rows: usize,
    prefill_min_tokens: usize,
    eligible: Seq<bool>,
    b: SlotBatch,
    i: int,
    j: int,
)
    requires
        s.step_input(work, remaining_rows, prefill_min_tokens, eligible).is_step(b),
        0 <= i < work.len(),
        0 <= j < work.len(),
        i != j,
        !work[i].decoding,
        !work[j].decoding,
        0 < b.m_per_slot@[i] < s.chunk_size,
        b.m_per_slot@[i] < work[i].remaining_prompt@.len(),
        0 < b.m_per_slot@[j],
    ensures
        b.m_per_slot@[j] >= s.chunk_size || b.m_per_slot@[j] == work[j].remaining_prompt@.len(),
{
    let m = s.step_input(work, remaining_rows, prefill_min_tokens, eligible);
    lemma_take_bounds(m, i);
    lemma_take_bounds(m, j);
    lemma_lanes(m, m.work.len() as int);
    assert(m.prefill_lane(i) && m.prefill_lane(j));
    let (k, l) = (m.turn(i), m.turn(j));
    assert(k != l);
    lemma_spent(m, k);
    lemma_spent(m, l);
    assert(m.spent(k + 1) == m.spent(k) + m.take(i));
    assert(m.spent(l + 1) == m.spent(l) + m.take(j));
    if k < l {
        lemma_spent_monotone(m, k + 1, l);
    } else {
        lemma_spent_monotone(m, l + 1, k);
    }
}

proof fn lemma_flat_at(m: StepInput, n: int, i: int, j: int)
    requires
        m.valid(),
        0 <= i < n <= m.work.len(),
        0 <= j < m.take(i),
    ensures
        m.flat_tokens(i).len() + j < m.flat_tokens(n).len(),
        m.flat_tokens(n)[m.flat_tokens(i).len() + j] == m.work[i].remaining_prompt@[j],
        m.flat_positions(n).len() == m.flat_tokens(n).len(),
        m.flat_positions(n)[m.flat_tokens(i).len() + j] == low_i32(m.work[i].next_pos + j),
        m.flat_slots(n).len() == m.flat_tokens(n).len(),
        m.flat_slots(n)[m.flat_tokens(i).len() + j] == low_i32(m.work[i].slot.0 as int),
        m.flat_phases(n).len() == m.flat_tokens(n).len(),
        m.flat_phases(n)[m.flat_tokens(i).len() + j] == row_phase(
            m.work[i],
            m.work[i].next_pos + j,
        ),
        m.flat_ext(n).len() == m.flat_tokens(n).len(),
        m.flat_ext(n)[m.flat_tokens(i).len() + j] == row_ext(m.work[i], j),
    decreases n,
{
    lemma_flat_lens(m, n);
    lemma_flat_lens(m, n - 1);
    lemma_take_bounds(m, n - 1);
    if i < n - 1 {
        lemma_flat_at(m, n - 1, i, j);
    }
}

proof fn lemma_flat_lens(m: StepInput, n: int)
    requires
        m.valid(),
        0 <= n <= m.work.len(),
    ensures
        m.flat_positions(n).len() == m.flat_tokens(n).len(),
        m.flat_slots(n).len() == m.flat_tokens(n).len(),
        m.flat_phases(n).len() == m.flat_tokens(n).len(),
        m.flat_ext(n).len() == m.flat_tokens(n).len(),
    decreases n,
{
    if n > 0 {
        lemma_flat_lens(m, n - 1);
        lemma_take_bounds(m, n - 1);
    }
}

proof fn lemma_rows_before(m: StepInput, b: SlotBatch, i: int)
    requires
        m.valid(),
        m.is_step(b),
        0 <= i <= m.work.len(),
    ensures
        rows_sum(b.m_per_slot@.take(i)) == m.flat_tokens(i).len(),
    decreases i,
{
    if i > 0 {
        lemma_rows_before(m, b, i - 1);
        lemma_take_bounds(m, i - 1);
        assert(b.m_per_slot@.take(i).drop_last() =~= b.m_per_slot@.take(i - 1));
        assert(b.m_per_slot@.take(i).last() == b.m_per_slot@[i - 1]);
        assert(m.work[i - 1].remaining_prompt.len() == m.work[i - 1].remaining_prompt@.len());
    }
}

/// A step's rows are the fronts of the prompts: the rows of a slot, which follow
/// those of the slots before it, carry its next tokens at its next positions
/// under its number, and the slot goes on behind them.
#[verifier::spinoff_prover]
#[verifier::rlimit(40)]
pub proof fn law_rows_are_the_fronts_of_the_prompts(
    s: Scheduler,
    work: Seq<PendingWork>,
    remaining_rows: usize,
    prefill_min_tokens: usize,
    eligible: Seq<bool>,
    b: SlotBatch,
    after: Seq<PendingWork>,
    i: int,
    j: int,
)
    requires
        s.step_input(work, remaining_rows, prefill_min_tokens, eligible).is_step(b),
        s.step_input(work, remaining_rows, prefill_min_tokens, eligible).all_advanced(after),
        0 <= i < work.len(),
        0 <= j < b.m_per_slot@[i],
    ensures
        ({
            let row = rows_sum(b.m_per_slot@.take(i)) + j;
            &&& 0 <= row < b.tokens@.len()
            &&& b.tokens@[row] == work[i].remaining_prompt@[j]
            &&& work[i].next_pos + j <= i32::MAX ==> b.positions@[row] == work[i].next_pos + j
            &&& work[i].slot.0 <= i32::MAX ==> b.row_slot@[row] == work[i].slot.0
            &&& b.pos3@.len() > 0 && work[i].vl_prefill is None && work[i].next_pos + j
                <= i32::MAX && i32::MIN <= work[i].next_pos + j + work[i].pos3_delta <= i32::MAX
                ==> {
                let p = work[i].next_pos + j + work[i].pos3_delta;
                &&& b.pos3@[row]@[0] == p
                &&& b.pos3@[row]@[1] == p
                &&& b.pos3@[row]@[2] == p
                &&& b.ext_emb@[row] == -1
            }
        }),
        after[i].remaining_prompt@.len() == work[i].remaining_prompt@.len() - b.m_per_slot@[i],
        forall|k: int|
            0 <= k < after[i].remaining_prompt@.len() ==> #[trigger] after[i].remaining_prompt@[k]
                == work[i].remaining_prompt@[k + b.m_per_slot@[i]],
        after[i].next_pos == work[i].next_pos + b.m_per_slot@[i],
        after[i].decoding == work[i].decoding,
        after[i].slot == work[i].slot,
        after[i].mtp_active == work[i].mtp_active,
        after[i].pos3_delta == work[i].pos3_delta,
        after[i].mtp_cycles == work[i].mtp_cycles,
        after[i].mtp_committed == work[i].mtp_committed,
        after[i].mtp_retire_fails == work[i].mtp_retire_fails,
        after[i].vl_prefill is None <==> work[i].vl_prefill is None,
        work[i].vl_prefill is Some ==> after[i].vl_prefill == Some(
            VlPrefill {
                visual_idx: after[i].vl_prefill->Some_0.visual_idx,
                ..work[i].vl_prefill->Some_0
            },
        ),
{
    let m = s.step_input(work, remaining_rows, prefill_min_tokens, eligible);
    lemma_take_bounds(m, i);
    lemma_rows_before(m, b, i);
    lemma_flat_at(m, work.len() as int, i, j);
    assert(m.slot_advanced(after[i], i));
    let row = rows_sum(b.m_per_slot@.take(i)) + j;
    if b.pos3@.len() > 0 {
        assert(phases_of(b.pos3@)[row] == b.pos3@[row]@);
    }
}

/// Three-axis phases come for all rows or none: for all exactly where some slot
/// is a batched image slot or carries a phase offset, and then each row of an
/// image slot has the phases of its position, read from the slot's table as far
/// as it goes.
#[verifier::spinoff_prover]
#[verifier::rlimit(40)]
pub proof fn law_phases_come_for_all_rows_or_none(
    s: Scheduler,
    work: Seq<PendingWork>,
    remaining_rows: usize,
    prefill_min_tokens: usize,
    eligible: Seq<bool>,
    b: SlotBatch,
    x: int,
    i: int,
    j: int,
)
    requires
        s.step_input(work, remaining_rows, prefill_min_tokens, eligible).is_step(b),
        0 <= x < work.len(),
        0 <= i < work.len(),
        0 <= j < b.m_per_slot@[i],
    ensures
        (work[x].vl_prefill is Some && !s.vl_sequential) || work[x].pos3_delta != 0
            ==> b.pos3@.len() == b.tokens@.len(),
        (forall|k: int|
            0 <= k < work.len() ==> (#[trigger] work[k]).vl_prefill is None && work[k].pos3_delta
                == 0) ==> b.pos3@.len() == 0 && b.ext_emb@.len() == 0,
        b.pos3@.len() > 0 && work[i].vl_prefill is Some ==> {
            let vl = work[i].vl_prefill->Some_0;
            let row = rows_sum(b.m_per_slot@.take(i)) + j;
            let pos = work[i].next_pos + j;
            let token = work[i].remaining_prompt@[j];
            &&& 0 <= row < b.pos3@.len()
            &&& vl.base <= pos < vl.base + vl.mrope_positions@.len() ==> b.pos3@[row]@
                == vl.mrope_positions@[pos - vl.base]@
            &&& (pos < vl.base || pos >= vl.base + vl.mrope_positions@.len()) && pos <= i32::MAX
                && i32::MIN <= pos + vl.rope_delta <= i32::MAX ==> b.pos3@[row]@[0] == pos
                + vl.rope_delta && b.pos3@[row]@[1] == pos + vl.rope_delta && b.pos3@[row]@[2]
                == pos + vl.rope_delta
            &&& token != vl.image_pad_id ==> b.ext_emb@[row] == -1
        },
{
    let m = s.step_input(work, remaining_rows, prefill_min_tokens, eligible);
    lemma_take_bounds(m, i);
    lemma_rows_before(m, b, i);
    lemma_flat_at(m, work.len() as int, i, j);
    lemma_flat_lens(m, work.len() as int);
    let row = rows_sum(b.m_per_slot@.take(i)) + j;
    if b.pos3@.len() > 0 {
        assert(phases_of(b.pos3@)[row] == b.pos3@[row]@);
    }
    assert(phases_of(b.pos3@).len() == b.pos3@.len());
    if (work[x].vl_prefill is Some && !s.vl_sequential) || work[x].pos3_delta != 0 {
        assert(m.any_pos3());
    }
}

proof fn lemma_visual_monotone(vl: VlPrefill, toks: Seq<u32>, j: int, k: int)
    requires
        0 <= j <= k,
    ensures
        visual_after(vl, toks, j) <= visual_after(vl, toks, k),
        vl.visual_idx <= visual_after(vl, toks, j),
    decreases k,
{
    if j < k {
        lemma_visual_monotone(vl, toks, j, k - 1);
    } else if j > 0 {
        lemma_visual_monotone(vl, toks, j - 1, j - 1);
    }
}

proof fn lemma_visual_without_pads(vl: VlPrefill, toks: Seq<u32>, j: int, k: int)
    requires
        0 <= j <= k,
        forall|x: int| j <= x < k ==> toks[x] != vl.image_pad_id,
    ensures
        visual_after(vl, toks, j) == visual_after(vl, toks, k),
    decreases k,
{
    if j < k {
        lemma_visual_without_pads(vl, toks, j, k - 1);
    }
}

proof fn lemma_ext_of_row(m: StepInput, b: SlotBatch, i: int, j: int)
    requires
        m.valid(),
        m.is_step(b),
        b.pos3@.len() > 0,
        0 <= i < m.work.len(),
        0 <= j < b.m_per_slot@[i],
    ensures
        b.ext_emb@[rows_sum(b.m_per_slot@.take(i)) + j] == row_ext(m.work[i], j),
        b.m_per_slot@[i] <= m.work[i].remaining_prompt@.len(),
{
    lemma_take_bounds(m, i);
    lemma_rows_before(m, b, i);
    lemma_flat_at(m, m.work.len() as int, i, j);
}

proof fn lemma_visual_of_slot(m: StepInput, b: SlotBatch, after: Seq<PendingWork>, i: int)
    requires
        m.valid(),
        m.is_step(b),
        m.all_advanced(after),
        0 <= i < m.work.len(),
        b.m_per_slot@[i] > 0,
        m.work[i].vl_prefill is Some,
    ensures
        after[i].vl_prefill is Some,
        after[i].vl_prefill->Some_0.visual_idx == visual_after(
            m.work[i].vl_prefill->Some_0,
            m.work[i].remaining_prompt@,
            b.m_per_slot@[i] as int,
        ),
{
    lemma_take_bounds(m, i);
    assert(m.slot_advanced(after[i], i));
    assert(m.work[i].remaining_prompt.len() == m.work[i].remaining_prompt@.len());
}

/// Image pads take the visual embeddings one by one, in prompt order: the first
/// pad that a slot feeds takes the slot's next one, each further pad the one
/// after, until none is left, and the slot goes on behind those taken.
#[verifier::spinoff_prover]
#[verifier::rlimit(40)]
pub proof fn law_pads_take_the_embeddings_in_order(
    s: Scheduler,
    work: Seq<PendingWork>,
    remaining_rows: usize,
    prefill_min_tokens: usize,
    eligible: Seq<bool>,
    b: SlotBatch,
    after: Seq<PendingWork>,
    i: int,
    j: int,
    k: int,
)
    requires
        s.step_input(work, remaining_rows, prefill_min_tokens, eligible).is_step(b),
        s.step_input(work, remaining_rows, prefill_min_tokens, eligible).all_advanced(after),
        0 <= i < work.len(),
        b.pos3@.len() > 0,
        work[i].vl_prefill is Some,
        work[i].vl_prefill->Some_0.n_visual_tokens <= i32::MAX,
        0 <= j < k < b.m_per_slot@[i],
        work[i].remaining_prompt@[j] == work[i].vl_prefill->Some_0.image_pad_id,
        forall|x: int|
            j < x < k ==> work[i].remaining_prompt@[x]
                != work[i].vl_prefill->Some_0.image_pad_id,
    ensures
        ({
            let vl = work[i].vl_prefill->Some_0;
            let row = rows_sum(b.m_per_slot@.take(i));
            let first = forall|x: int|
                0 <= x < j ==> work[i].remaining_prompt@[x] != vl.image_pad_id;
            &&& b.ext_emb@[row + j] == -1 || vl.visual_idx <= b.ext_emb@[row + j]
                < vl.n_visual_tokens
            &&& first && vl.visual_idx < vl.n_visual_tokens ==> b.ext_emb@[row + j]
                == vl.visual_idx
            &&& work[i].remaining_prompt@[k] == vl.image_pad_id && b.ext_emb@[row + j] >= 0
                && b.ext_emb@[row + j] + 1 < vl.n_visual_tokens ==> b.ext_emb@[row + k]
                == b.ext_emb@[row + j] + 1
            &&& k + 1 == b.m_per_slot@[i] && work[i].remaining_prompt@[k] != vl.image_pad_id
                && b.ext_emb@[row + j] >= 0 ==> after[i].vl_prefill is Some
                && after[i].vl_prefill->Some_0.visual_idx == b.ext_emb@[row + j] + 1
        }),
{
    let m = s.step_input(work, remaining_rows, prefill_min_tokens, eligible);
    let vl = work[i].vl_prefill->Some_0;
    let p = work[i].remaining_prompt@;
    lemma_ext_of_row(m, b, i, j);
    lemma_ext_of_row(m, b, i, k);
    lemma_visual_of_slot(m, b, after, i);
    lemma_visual_monotone(vl, p, 0, j);
    lemma_visual_without_pads(vl, p, j + 1, k);
    if forall|x: int| 0 <= x < j ==> p[x] != vl.image_pad_id {
        lemma_visual_without_pads(vl, p, 0, j);
    }
    lemma_visual_monotone(vl, p, j, j);
}

/// What a slot may feed is told by its work alone: text that is not owned elsewhere
/// is fed, as a decode row once the prompt is through and as prompt rows before,
/// never as both.
pub proof fn law_slots_feed_decode_or_prompt_rows(w: PendingWork, vl_sequential: bool)
    ensures
        !(runnable_decode(w, vl_sequential) && runnable_prefill(w, vl_sequential)),
        w.remaining_prompt@.len() == 0 ==> !runnable_decode(w, vl_sequential)
            && !runnable_prefill(w, vl_sequential),
        w.vl_prefill is None && w.remaining_prompt@.len() > 0 && w.decoding ==> runnable_decode(
            w,
            vl_sequential,
        ) == !w.mtp_active,
        w.vl_prefill is None && w.remaining_prompt@.len() > 0 && !w.decoding ==> runnable_prefill(
            w,
            vl_sequential,
        ),
        w.vl_prefill is Some && vl_sequential ==> !runnable_decode(w, vl_sequential)
            && !runnable_prefill(w, vl_sequential),
        waiting_for_vision(w) <==> w.vl_prefill is Some && w.vl_prefill->Some_0.embeddings@.len()
            == 0 && w.vl_prefill->Some_0.n_visual_tokens > 0,
        skipped(w, vl_sequential) <==> (w.vl_prefill is Some && vl_sequential) || (w.mtp_active
            && w.decoding),
{
}

/// An image's phases come from its table, position by position, and behind it count
/// on from the last position with the image's offset.
pub proof fn law_phases_come_from_the_table(vl: VlPrefill, pos: int)
    requires
        0 <= pos,
    ensures
        vl.base <= pos < vl.base + vl.mrope_positions@.len() ==> vl.phase(pos)
            == vl.mrope_positions@[pos - vl.base]@,
        pos >= vl.base + vl.mrope_positions@.len() && pos <= i32::MAX && i32::MIN <= pos
            + vl.rope_delta <= i32::MAX ==> vl.phase(pos).len() == 3 && vl.phase(pos)[0] == pos
            + vl.rope_delta && vl.phase(pos)[1] == pos + vl.rope_delta && vl.phase(pos)[2] == pos
            + vl.rope_delta,
{
}

/// Leftover rows go round from the head: among slots that all prefill text, one
/// that is served although it comes later in the rotation leaves none before it
/// short of a chunk or of its prompt.
pub proof fn law_leftover_rows_go_round(
    s: Scheduler,
    work: Seq<PendingWork>,
    remaining_rows: usize,
    prefill_min_tokens: usize,
    eligible: Seq<bool>,
    b: SlotBatch,
    i: int,
    j: int,
)
    requires
        s.step_input(work, remaining_rows, prefill_min_tokens, eligible).is_step(b),
        eligible.len() == work.len(),
        forall|i: int|
            0 <= i < work.len() ==> #[trigger] eligible[i] && !work[i].decoding
                && work[i].vl_prefill is None && work[i].remaining_prompt@.len() > 0,
        0 <= i < work.len(),
        0 <= j < work.len(),
        ({
            let n = work.len() as int;
            let h = s.prefill_cursor as int % n;
            let turn_i = if i >= h {
                i - h
            } else {
                i - h + n
            };
            let turn_j = if j >= h {
                j - h
            } else {
                j - h + n
            };
            turn_i < turn_j
        }),
        b.m_per_slot@[j] > 0,
    ensures
        b.m_per_slot@[i] >= s.chunk_size || b.m_per_slot@[i] == work[i].remaining_prompt@.len(),
{
    let m = s.step_input(work, remaining_rows, prefill_min_tokens, eligible);
    let n = work.len() as int;
    assert forall|i: int| 0 <= i < n implies m.prefill_lane(i) by {
        assert(eligible[i]);
    }
    lemma_all_prefill(m, n);
    lemma_all_prefill(m, i);
    lemma_all_prefill(m, j);
    lemma_lanes(m, n);
    lemma_take_bounds(m, i);
    lemma_take_bounds(m, j);
    let (k, l) = (m.turn(i), m.turn(j));
    assert(k < l);
    lemma_spent(m, k);
    lemma_spent(m, l);
    assert(m.spent(k + 1) == m.spent(k) + m.take(i));
    lemma_spent_monotone(m, k + 1, l);
}

/// No pad takes an embedding that is not there: a slot's visual index never passes
/// the number of its visual tokens, and once it is there, pads go in as tokens.
pub proof fn law_visual_tokens_run_out(
    s: Scheduler,
    work: Seq<PendingWork>,
    remaining_rows: usize,
    prefill_min_tokens: usize,
    eligible: Seq<bool>,
    b: SlotBatch,
    after: Seq<PendingWork>,
    i: int,
    j: int,
)
    requires
        s.step_input(work, remaining_rows, prefill_min_tokens, eligible).is_step(b),
        s.step_input(work, remaining_rows, prefill_min_tokens, eligible).all_advanced(after),
        0 <= i < work.len(),
        b.pos3@.len() > 0,
        work[i].vl_prefill is Some,
        work[i].vl_prefill->Some_0.visual_idx <= work[i].vl_prefill->Some_0.n_visual_tokens,
        0 <= j < b.m_per_slot@[i],
    ensures
        after[i].vl_prefill is Some,
        work[i].vl_prefill->Some_0.visual_idx <= after[i].vl_prefill->Some_0.visual_idx
            <= work[i].vl_prefill->Some_0.n_visual_tokens,
        work[i].vl_prefill->Some_0.visual_idx == work[i].vl_prefill->Some_0.n_visual_tokens
            ==> b.ext_emb@[rows_sum(b.m_per_slot@.take(i)) + j] == -1,
{
    let m = s.step_input(work, remaining_rows, prefill_min_tokens, eligible);
    let vl = work[i].vl_prefill->Some_0;
    let p = work[i].remaining_prompt@;
    lemma_ext_of_row(m, b, i, j);
    lemma_visual_of_slot(m, b, after, i);
    lemma_visual_bounded(vl, p, j);
    lemma_visual_bounded(vl, p, b.m_per_slot@[i] as int);
}

proof fn lemma_visual_bounded(vl: VlPrefill, toks: Seq<u32>, j: int)
    requires
        0 <= j,
        vl.visual_idx <= vl.n_visual_tokens,
    ensures
        vl.visual_idx <= visual_after(vl, toks, j) <= vl.n_visual_tokens,
    decreases j,
{
    if j > 0 {
        lemma_visual_bounded(vl, toks, j - 1);
    }
}

} // verus!
