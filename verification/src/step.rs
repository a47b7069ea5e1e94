//! Fitting one step into its row budget, and what the step needs before it
//! runs: external embeddings, cache write intervals, and the isolation of slots
//! whose cache pages could not be provisioned.

use crate::scheduler::{greatest, least, PendingWork};
use crate::slot_batch::SlotBatch;
use crate::step_rows::{
    failed_slot, first_row, is_rebuilt, rebuild_batch_excluding_failed, row_offset, rows_of,
    MtpDraftOutput,
};
use crate::text::{append_decimal, decimal_text};
use vstd::prelude::*;
use vstd::string::StringExecFns;

verus! {

/// Rows that a step reserves.
#[derive(Debug, Clone, Copy, PartialEq, Eq, Structural)]
pub struct StepReservation {
    pub prefill_rows: u64,
    pub decode_rows: u64,
    pub verify_rows: u64,
    pub forced_rows: u64,
}

/// The rows of a reservation add up to more than a machine word.
#[derive(Debug, Clone, Copy, PartialEq, Eq, Structural)]
pub struct ReservationOverflow;

impl StepReservation {
    /// All rows of the reservation.
    pub open spec fn total(self) -> int {
        self.prefill_rows + self.decode_rows + self.verify_rows + self.forced_rows
    }

    /// Whether the reservation stays within `max` rows.
    pub fn fits(&self, max: u64) -> (r: Result<bool, ReservationOverflow>)
        ensures
            match r {
                Ok(b) => self.total() <= u64::MAX && b == (self.total() <= max),
                Err(_) => self.total() > u64::MAX,
            },
    {
        match self.prefill_rows.checked_add(self.decode_rows) {
            Some(a) => match a.checked_add(self.verify_rows) {
                Some(b) => match b.checked_add(self.forced_rows) {
                    Some(c) => Ok(c <= max),
                    None => Err(ReservationOverflow),
                },
                None => Err(ReservationOverflow),
            },
            None => Err(ReservationOverflow),
        }
    }
}

/// Slots with a draft.
pub open spec fn draft_count(drafts: Seq<Option<MtpDraftOutput>>) -> int
    decreases drafts.len(),
{
    if drafts.len() == 0 {
        0
    } else {
        draft_count(drafts.drop_last()) + if drafts.last() is Some {
            1int
        } else {
            0
        }
    }
}

/// Verify rows of the step: a block of `mtp_k + 1` per draft, at most the
/// largest word.
pub fn count_verify_rows(drafts: &[Option<MtpDraftOutput>], mtp_k: usize) -> (r: u64)
    requires
        mtp_k < usize::MAX,
    ensures
        r == least(draft_count(drafts@) * (mtp_k + 1), u64::MAX as int),
{
    let mut rows: u64 = 0;
    let mut s: usize = 0;
    assert(drafts@.take(0) =~= Seq::empty());
    while s < drafts.len()
        invariant
            s <= drafts@.len(),
            mtp_k < usize::MAX,
            rows == least(draft_count(drafts@.take(s as int)) * (mtp_k + 1), u64::MAX as int),
        decreases drafts@.len() - s,
    {
        proof {
            assert(drafts@.take(s + 1).drop_last() =~= drafts@.take(s as int));
            let c = draft_count(drafts@.take(s as int));
            assert((c + 1) * (mtp_k + 1) == c * (mtp_k + 1) + (mtp_k + 1)) by (nonlinear_arith);
        }
        if drafts[s].is_some() {
            rows = match rows.checked_add((mtp_k + 1) as u64) {
                Some(n) => n,
                None => u64::MAX,
            };
        }
        s = s + 1;
    }
    assert(drafts@.take(s as int) =~= drafts@);
    rows
}

/// Rows left for prompt and decode rows once the verify rows are set aside.
pub fn scheduler_budget(max_batch_tokens: usize, verify_rows: u64) -> (r: usize)
    ensures
        r == greatest(max_batch_tokens - verify_rows, 0),
{
    if verify_rows >= max_batch_tokens as u64 {
        0
    } else {
        max_batch_tokens - verify_rows as usize
    }
}

/// Prompt rows of the first `n` slots.
pub open spec fn prefill_rows(work: Seq<PendingWork>, m: Seq<usize>, n: int) -> int
    decreases n,
{
    if n <= 0 {
        0
    } else {
        prefill_rows(work, m, n - 1) + if !work[n - 1].decoding {
            rows_of(m, n - 1)
        } else {
            0
        }
    }
}

/// Decode rows of the first `n` slots. Speculating slots have verify rows
/// instead.
pub open spec fn decode_rows(work: Seq<PendingWork>, m: Seq<usize>, n: int) -> int
    decreases n,
{
    if n <= 0 {
        0
    } else {
        decode_rows(work, m, n - 1) + if work[n - 1].decoding && !work[n - 1].mtp_active {
            rows_of(m, n - 1)
        } else {
            0
        }
    }
}

proof fn lemma_rows_within(work: Seq<PendingWork>, m: Seq<usize>, n: int)
    requires
        0 <= n <= m.len(),
    ensures
        0 <= prefill_rows(work, m, n),
        0 <= decode_rows(work, m, n),
        prefill_rows(work, m, n) + decode_rows(work, m, n) <= row_offset(m, n),
    decreases n,
{
    if n > 0 {
        lemma_rows_within(work, m, n - 1);
        assert(m.take(n).drop_last() =~= m.take(n - 1));
    } else {
        assert(m.take(0) =~= Seq::empty());
    }
}

proof fn lemma_offset_within(m: Seq<usize>, n: int)
    requires
        0 <= n <= m.len(),
    ensures
        row_offset(m, n) <= crate::slot_batch::rows_sum(m),
    decreases m.len() - n,
{
    if n < m.len() {
        lemma_offset_within(m, n + 1);
        assert(m.take(n + 1).drop_last() =~= m.take(n));
    } else {
        assert(m.take(n) =~= m);
    }
}

/// Counts the prompt and decode rows that the scheduler emitted.
pub fn count_rows(work: &[PendingWork], batch: &SlotBatch) -> (r: (u64, u64))
    requires
        batch.wf(),
        work@.len() == batch.m_per_slot@.len(),
    ensures
        r.0 == prefill_rows(work@, batch.m_per_slot@, work@.len() as int),
        r.1 == decode_rows(work@, batch.m_per_slot@, work@.len() as int),
{
    let ghost m = batch.m_per_slot@;
    let mut pre: u64 = 0;
    let mut dec: u64 = 0;
    let mut s: usize = 0;
    let total: usize = batch.tokens.len();
    while s < work.len()
        invariant
            s <= work@.len(),
            m == batch.m_per_slot@,
            batch.wf(),
            total == batch.tokens@.len(),
            work@.len() == m.len(),
            pre == prefill_rows(work@, m, s as int),
            dec == decode_rows(work@, m, s as int),
        decreases work@.len() - s,
    {
        let rows: usize = batch.m_per_slot[s];
        proof {
            lemma_rows_within(work@, m, s + 1);
            lemma_rows_within(work@, m, s as int);
            lemma_offset_within(m, s + 1);
            assert(prefill_rows(work@, m, s + 1) <= total);
            assert(decode_rows(work@, m, s + 1) <= total);
        }
        if !work[s].decoding {
            pre = pre + rows as u64;
        } else if !work[s].mtp_active {
            dec = dec + rows as u64;
        }
        s = s + 1;
    }
    (pre, dec)
}

/// A draft that was dropped from the step; its seed goes back to its slot.
#[derive(Debug, Clone, Copy, PartialEq, Eq, Structural)]
pub struct DroppedDraft {
    pub slot: usize,
    pub seed: u32,
}

/// Drafts that are dropped when the slots from `s` on are gone through in order
/// until the reservation fits.
pub open spec fn dropped(
    drafts: Seq<Option<MtpDraftOutput>>,
    r: StepReservation,
    block: int,
    max: int,
    s: int,
) -> Seq<DroppedDraft>
    decreases drafts.len() - s,
{
    if s >= drafts.len() || r.total() <= max {
        Seq::empty()
    } else if drafts[s] is Some {
        seq![
            DroppedDraft { slot: s as usize, seed: drafts[s]->Some_0.verify_tokens@[0] },
        ] + dropped(drafts, without_block(r, block), block, max, s + 1)
    } else {
        dropped(drafts, r, block, max, s + 1)
    }
}

/// The reservation without one verify block.
pub open spec fn without_block(r: StepReservation, block: int) -> StepReservation {
    StepReservation { verify_rows: greatest(r.verify_rows - block, 0) as u64, ..r }
}

/// The reservation once the drafts from slot `s` on are dropped as needed.
pub open spec fn after_drops(
    drafts: Seq<Option<MtpDraftOutput>>,
    r: StepReservation,
    block: int,
    max: int,
    s: int,
) -> StepReservation
    decreases drafts.len() - s,
{
    if s >= drafts.len() || r.total() <= max {
        r
    } else if drafts[s] is Some {
        after_drops(drafts, without_block(r, block), block, max, s + 1)
    } else {
        after_drops(drafts, r, block, max, s + 1)
    }
}

/// The reservation cut to `max` rows: prompt rows go first, then decode rows.
pub open spec fn trimmed_rows(r: StepReservation, max: int) -> StepReservation {
    let excess = greatest(r.total() - max, 0);
    let pre = least(excess, r.prefill_rows as int);
    let dec = least(excess - pre, r.decode_rows as int);
    StepReservation {
        prefill_rows: (r.prefill_rows - pre) as u64,
        decode_rows: (r.decode_rows - dec) as u64,
        ..r
    }
}

/// The slots listed as dropped.
pub open spec fn is_dropped(d: Seq<DroppedDraft>, s: int) -> bool {
    exists|i: int| 0 <= i < d.len() && (#[trigger] d[i]).slot == s
}

/// Shrinks a step until it fits `max` rows: drafts are dropped in slot order,
/// and if that is not enough the reservation is cut at the prompt rows, then at
/// the decode rows. Returns the dropped drafts, whose seeds go back to their
/// slots.
pub fn shrink_to_budget(
    reservation: &mut StepReservation,
    drafts: &mut Vec<Option<MtpDraftOutput>>,
    mtp_k: usize,
    max: u64,
) -> (r: Vec<DroppedDraft>)
    requires
        mtp_k < usize::MAX,
        forall|s: int|
            0 <= s < old(drafts)@.len() ==> ((#[trigger] old(drafts)@[s]) is Some ==> old(
                drafts,
            )@[s]->Some_0.verify_tokens@.len() > 0),
    ensures
        r@ == dropped(old(drafts)@, *old(reservation), mtp_k + 1, max as int, 0),
        *final(reservation) == trimmed_rows(
            after_drops(old(drafts)@, *old(reservation), mtp_k + 1, max as int, 0),
            max as int,
        ),
        final(drafts)@.len() == old(drafts)@.len(),
        forall|s: int|
            0 <= s < old(drafts)@.len() ==> #[trigger] final(drafts)@[s] == if is_dropped(
                r@,
                s,
            ) {
                None
            } else {
                old(drafts)@[s]
            },
{
    let ghost d0 = drafts@;
    let ghost r0 = *reservation;
    let ghost block = mtp_k + 1;
    let ghost top = max as int;
    let block_rows: u64 = (mtp_k + 1) as u64;
    let mut out: Vec<DroppedDraft> = Vec::new();
    let mut s: usize = 0;
    let mut fitting: bool = match reservation.fits(max) {
        Ok(b) => b,
        Err(_) => false,
    };
    assert(out@ + dropped(d0, r0, block, top, 0) =~= dropped(d0, r0, block, top, 0));
    while s < drafts.len() && !fitting
        invariant
            s <= drafts@.len(),
            drafts@.len() == d0.len(),
            block == mtp_k + 1,
            block_rows == block,
            top == max,
            fitting == (reservation.total() <= top),
            forall|s: int|
                0 <= s < d0.len() ==> ((#[trigger] d0[s]) is Some
                    ==> d0[s]->Some_0.verify_tokens@.len() > 0),
            forall|j: int| s <= j < d0.len() ==> #[trigger] drafts@[j] == d0[j],
            forall|j: int|
                0 <= j < s ==> #[trigger] drafts@[j] == if is_dropped(out@, j) {
                    None
                } else {
                    d0[j]
                },
            forall|i: int| 0 <= i < out@.len() ==> (#[trigger] out@[i]).slot < s,
            out@ + dropped(d0, *reservation, block, top, s as int) == dropped(
                d0,
                r0,
                block,
                top,
                0,
            ),
            after_drops(d0, *reservation, block, top, s as int) == after_drops(
                d0,
                r0,
                block,
                top,
                0,
            ),
        decreases drafts@.len() - s,
    {
        let ghost out0 = out@;
        let ghost res0 = *reservation;
        let seed: Option<u32> = match &drafts[s] {
            Some(d) => Some(d.verify_tokens[0]),
            None => None,
        };
        match seed {
            Some(seed) => {
                drafts[s] = None;
                reservation.verify_rows = reservation.verify_rows.saturating_sub(block_rows);
                out.push(DroppedDraft { slot: s, seed });
                fitting = match reservation.fits(max) {
                    Ok(b) => b,
                    Err(_) => false,
                };
                proof {
                    let item = DroppedDraft { slot: s, seed };
                    assert(*reservation == without_block(res0, block));
                    let tail = dropped(d0, *reservation, block, top, s + 1);
                    assert(out0 + (seq![item] + tail) =~= out@ + tail);
                    assert(out@[out0.len() as int] == item);
                    assert forall|j: int| 0 <= j < s implies is_dropped(out@, j) == is_dropped(
                        out0,
                        j,
                    ) by {
                        if is_dropped(out0, j) {
                            let i = choose|i: int|
                                0 <= i < out0.len() && (#[trigger] out0[i]).slot == j;
                            assert(out@[i].slot == j);
                        }
                        if is_dropped(out@, j) {
                            let i = choose|i: int|
                                0 <= i < out@.len() && (#[trigger] out@[i]).slot == j;
                            assert(out0[i].slot == j);
                        }
                    }
                }
            },
            None => {
                proof {
                    assert(!is_dropped(out@, s as int));
                }
            },
        }
        s = s + 1;
    }
    proof {
        assert(out@ + Seq::<DroppedDraft>::empty() =~= out@);
        assert forall|j: int| s <= j < d0.len() implies !is_dropped(out@, j) by {}
    }
    // What is still too much is cut from the reservation.
    let others: u128 = reservation.decode_rows as u128 + reservation.verify_rows as u128
        + reservation.forced_rows as u128;
    let sum: u128 = reservation.prefill_rows as u128 + others;
    if sum > max as u128 {
        let excess: u128 = sum - max as u128;
        let pre: u128 = if excess <= reservation.prefill_rows as u128 {
            excess
        } else {
            reservation.prefill_rows as u128
        };
        let rest: u128 = excess - pre;
        let dec: u128 = if rest <= reservation.decode_rows as u128 {
            rest
        } else {
            reservation.decode_rows as u128
        };
        reservation.prefill_rows = reservation.prefill_rows - pre as u64;
        reservation.decode_rows = reservation.decode_rows - dec as u64;
    }
    out
}

/// A shrunk step fits its budget, as long as its verify rows are those of its
/// drafts and its forced rows alone are not too many.
pub proof fn law_shrunk_step_fits(
    drafts: Seq<Option<MtpDraftOutput>>,
    r: StepReservation,
    block: int,
    max: int,
)
    requires
        block > 0,
        r.verify_rows == draft_count(drafts) * block,
        r.forced_rows <= max,
    ensures
        trimmed_rows(after_drops(drafts, r, block, max, 0), max).total() <= max,
{
    assert(drafts.take(0) =~= Seq::empty());
    lemma_drops_suffice(drafts, r, block, max, 0);
}

proof fn lemma_drops_suffice(
    drafts: Seq<Option<MtpDraftOutput>>,
    r: StepReservation,
    block: int,
    max: int,
    s: int,
)
    requires
        block > 0,
        0 <= s <= drafts.len(),
        r.verify_rows == (draft_count(drafts) - draft_count(drafts.take(s))) * block,
        r.forced_rows <= max,
    ensures
        ({
            let a = after_drops(drafts, r, block, max, s);
            (a.total() <= max || a.verify_rows == 0) && a.forced_rows == r.forced_rows
        }),
    decreases drafts.len() - s,
{
    if s < drafts.len() {
        if r.total() > max {
            assert(drafts.take(s + 1).drop_last() =~= drafts.take(s));
            let left = draft_count(drafts) - draft_count(drafts.take(s));
            assert((left - 1) * block == left * block - block) by (nonlinear_arith);
            lemma_draft_count_monotone(drafts, s + 1);
            let next = draft_count(drafts) - draft_count(drafts.take(s + 1));
            assert(next * block >= 0) by (nonlinear_arith)
                requires
                    next >= 0,
                    block > 0,
            ;
            if drafts[s] is Some {
                lemma_drops_suffice(drafts, without_block(r, block), block, max, s + 1);
            } else {
                lemma_drops_suffice(drafts, r, block, max, s + 1);
            }
        }
    } else {
        assert(drafts.take(s) =~= drafts);
        let left = draft_count(drafts) - draft_count(drafts.take(s));
        assert(left * block == 0) by (nonlinear_arith)
            requires
                left == 0,
        ;
    }
}

proof fn lemma_draft_count_monotone(drafts: Seq<Option<MtpDraftOutput>>, s: int)
    requires
        0 <= s <= drafts.len(),
    ensures
        draft_count(drafts.take(s)) <= draft_count(drafts),
    decreases drafts.len() - s,
{
    if s < drafts.len() {
        lemma_draft_count_monotone(drafts, s + 1);
        assert(drafts.take(s + 1).drop_last() =~= drafts.take(s));
    } else {
        assert(drafts.take(s) =~= drafts);
    }
}

/// A step that fits is left alone.
pub proof fn law_fitting_step_is_untouched(
    drafts: Seq<Option<MtpDraftOutput>>,
    r: StepReservation,
    block: int,
    max: int,
)
    requires
        r.total() <= max,
    ensures
        dropped(drafts, r, block, max, 0).len() == 0,
        trimmed_rows(after_drops(drafts, r, block, max, 0), max) == r,
{
}

// ---- External embeddings ----

/// Whether some row of the step reads an external embedding.
pub fn needs_ext_upload(batch: &SlotBatch) -> (r: bool)
    ensures
        r == (batch.ext_emb@.len() == batch.positions@.len() && exists|i: int|
            0 <= i < batch.ext_emb@.len() && #[trigger] batch.ext_emb@[i] >= 0),
{
    if batch.ext_emb.len() != batch.positions.len() {
        return false;
    }
    let mut i: usize = 0;
    while i < batch.ext_emb.len()
        invariant
            i <= batch.ext_emb@.len(),
            batch.ext_emb@.len() == batch.positions@.len(),
            forall|j: int| 0 <= j < i ==> #[trigger] batch.ext_emb@[j] < 0,
        decreases batch.ext_emb@.len() - i,
    {
        if batch.ext_emb[i] >= 0 {
            return true;
        }
        i = i + 1;
    }
    false
}

/// The matrix base of every row's slot; 0 for a slot without a matrix.
pub fn row_bases(batch: &SlotBatch, bases: &[Option<u64>]) -> (r: Vec<u64>)
    requires
        forall|i: int|
            0 <= i < batch.row_slot@.len() ==> 0 <= #[trigger] batch.row_slot@[i] < bases@.len(),
    ensures
        r@ == Seq::new(
            batch.row_slot@.len(),
            |i: int|
                match bases@[batch.row_slot@[i] as int] {
                    Some(b) => b,
                    None => 0,
                },
        ),
{
    let mut out: Vec<u64> = Vec::new();
    let mut i: usize = 0;
    while i < batch.row_slot.len()
        invariant
            i <= batch.row_slot@.len(),
            forall|i: int|
                0 <= i < batch.row_slot@.len() ==> 0 <= #[trigger] batch.row_slot@[i]
                    < bases@.len(),
            out@ =~= Seq::new(
                i as nat,
                |i: int|
                    match bases@[batch.row_slot@[i] as int] {
                        Some(b) => b,
                        None => 0,
                    },
            ),
        decreases batch.row_slot@.len() - i,
    {
        let s: i32 = batch.row_slot[i];
        let b: u64 = match bases[s as usize] {
            Some(b) => b,
            None => 0,
        };
        out.push(b);
        i = i + 1;
    }
    out
}

/// Refuses an upload of row bases that does not fit its staging buffer.
pub fn check_ext_upload(bytes: u64, capacity: u64, rows: u64, max_batch: u64) -> (r: Result<
    (),
    String,
>)
    ensures
        r is Err <==> bytes > capacity,
        r is Err ==> r->Err_0@ == "vl ext ptr upload of "@ + decimal_text(bytes as int)
            + " bytes exceeds staging capacity "@ + decimal_text(capacity as int)
            + " (batch of "@ + decimal_text(rows as int) + " rows vs max_batch "@ + decimal_text(
            max_batch as int,
        ) + ")"@,
{
    if bytes > capacity {
        let mut t: String = String::from_str("vl ext ptr upload of ");
        append_decimal(&mut t, bytes);
        t.append(" bytes exceeds staging capacity ");
        append_decimal(&mut t, capacity);
        t.append(" (batch of ");
        append_decimal(&mut t, rows);
        t.append(" rows vs max_batch ");
        append_decimal(&mut t, max_batch);
        t.append(")");
        Err(t)
    } else {
        Ok(())
    }
}

// ---- Cache writes ----

/// The positions that slot `s` writes in this step: from its first row's to
/// past its last row's. `None` for a slot without rows.
pub open spec fn slot_interval(batch: SlotBatch, s: int) -> Option<(usize, usize)> {
    let m = batch.m_per_slot@;
    let off = row_offset(m, s);
    if m[s] == 0 {
        None
    } else {
        Some(
            (
                batch.positions@[off] as usize,
                (batch.positions@[off + m[s] - 1] + 1) as usize,
            ),
        )
    }
}

/// The positions that slot `s` writes in this step.
pub fn write_interval(batch: &SlotBatch, s: usize) -> (r: Option<(usize, usize)>)
    requires
        batch.wf(),
        s < batch.m_per_slot@.len(),
        forall|i: int| 0 <= i < batch.positions@.len() ==> 0 <= #[trigger] batch.positions@[i],
    ensures
        r == slot_interval(*batch, s as int),
{
    let m: usize = batch.m_per_slot[s];
    if m == 0 {
        return None;
    }
    let off: usize = first_row(batch, s);
    proof {
        let ms = batch.m_per_slot@;
        lemma_offset_within(ms, s + 1);
        assert(ms.take(s + 1).drop_last() =~= ms.take(s as int));
        assert(off + m <= batch.positions@.len());
        assert(batch.positions.len() == batch.positions@.len());
    }
    let first: i32 = batch.positions[off];
    let last: i32 = batch.positions[off + (m - 1)];
    Some((first as usize, last as usize + 1))
}

/// Drops the slots that failed to provision from the step: their rows, so that
/// the rows of the others stay aligned, and their drafts, so that nobody reads
/// the verify rows they no longer have.
pub fn isolate_failed(
    batch: &mut SlotBatch,
    drafts: &mut Vec<Option<MtpDraftOutput>>,
    failed: &[usize],
)
    requires
        old(batch).wf(),
        old(drafts)@.len() == old(batch).m_per_slot@.len(),
        forall|k: int|
            0 <= k < failed@.len() ==> #[trigger] failed@[k] < old(batch).m_per_slot@.len(),
    ensures
        final(batch).wf(),
        is_rebuilt(*old(batch), failed@, *final(batch)),
        final(drafts)@ == Seq::new(
            old(drafts)@.len(),
            |s: int|
                if failed_slot(failed@, s) {
                    None
                } else {
                    old(drafts)@[s]
                },
        ),
{
    let ghost d0 = drafts@;
    rebuild_batch_excluding_failed(batch, failed);
    let mut k: usize = 0;
    proof {
        assert forall|s: int| 0 <= s < d0.len() implies !failed_slot(failed@.take(0), s) by {}
    }
    while k < failed.len()
        invariant
            k <= failed@.len(),
            drafts@.len() == d0.len(),
            forall|k: int| 0 <= k < failed@.len() ==> #[trigger] failed@[k] < d0.len(),
            forall|s: int|
                0 <= s < d0.len() ==> #[trigger] drafts@[s] == if failed_slot(
                    failed@.take(k as int),
                    s,
                ) {
                    None
                } else {
                    d0[s]
                },
        decreases failed@.len() - k,
    {
        let ghost before = drafts@;
        drafts[failed[k]] = None;
        proof {
            let a = failed@.take(k as int);
            let b = failed@.take(k + 1);
            assert(b[k as int] == failed@[k as int]);
            assert forall|s: int| 0 <= s < d0.len() implies #[trigger] drafts@[s] == if failed_slot(
                b,
                s,
            ) {
                None
            } else {
                d0[s]
            } by {
                if failed_slot(a, s) {
                    let i = choose|i: int| 0 <= i < a.len() && #[trigger] a[i] == s;
                    assert(b[i] == s);
                }
                if failed_slot(b, s) && s != failed@[k as int] {
                    let i = choose|i: int| 0 <= i < b.len() && #[trigger] b[i] == s;
                    assert(a[i] == s);
                }
            }
        }
        k = k + 1;
    }
    proof {
        assert(failed@.take(k as int) =~= failed@);
        assert(drafts@ =~= Seq::new(
            d0.len(),
            |s: int|
                if failed_slot(failed@, s) {
                    None
                } else {
                    d0[s]
                },
        ));
    }
}

/// Which slots the forward's own last-row projection skips: those with a draft,
/// whose scores come from the verify rows.
pub fn verify_slots(drafts: &[Option<MtpDraftOutput>]) -> (r: Vec<bool>)
    ensures
        r@ == Seq::new(drafts@.len(), |s: int| drafts@[s] is Some),
{
    let mut out: Vec<bool> = Vec::new();
    let mut s: usize = 0;
    while s < drafts.len()
        invariant
            s <= drafts@.len(),
            out@ =~= Seq::new(s as nat, |s: int| drafts@[s] is Some),
        decreases drafts@.len() - s,
    {
        out.push(drafts[s].is_some());
        s = s + 1;
    }
    out
}

// ---- After sampling ----

/// What the sampling phase does with a slot.
#[derive(Debug, Clone, Copy, PartialEq, Eq, Structural)]
pub enum SampleStep {
    /// Accept the verified draft.
    VerifyAccept,
    /// Fill the speculative head's cache from this chunk; the sampled token is
    /// the first seed if the prompt has been used up.
    HeadPrefill { seed: bool },
    /// Nothing to commit for this slot.
    Skip,
    /// Commit the forced run instead of the sampled token.
    Forced,
    /// Commit the sampled token.
    Commit,
}

/// Decides what to do with one slot after sampling. Scores of a slot that still
/// prefills belong to a token in the middle of its prompt; a speculating slot's
/// tokens come from its verify rows.
pub fn sample_step(
    work: &PendingWork,
    occupied: bool,
    drafted: bool,
    rows: usize,
    forced_len: usize,
) -> (r: SampleStep)
    ensures
        r == if drafted {
            if occupied {
                SampleStep::VerifyAccept
            } else {
                SampleStep::Skip
            }
        } else if work.mtp_active && !work.decoding && occupied && rows > 0 {
            SampleStep::HeadPrefill { seed: work.remaining_prompt@.len() == 0 }
        } else if work.mtp_active || work.remaining_prompt@.len() > 0 {
            SampleStep::Skip
        } else if forced_len > 0 {
            SampleStep::Forced
        } else if occupied {
            SampleStep::Commit
        } else {
            SampleStep::Skip
        },
{
    if drafted {
        if occupied {
            SampleStep::VerifyAccept
        } else {
            SampleStep::Skip
        }
    } else if work.mtp_active && !work.decoding && occupied && rows > 0 {
        SampleStep::HeadPrefill { seed: work.remaining_prompt.len() == 0 }
    } else if work.mtp_active || work.remaining_prompt.len() > 0 {
        SampleStep::Skip
    } else if forced_len > 0 {
        SampleStep::Forced
    } else if occupied {
        SampleStep::Commit
    } else {
        SampleStep::Skip
    }
}

// ---- Laws of shrinking and of cache writes ----

proof fn lemma_dropped_shape(
    drafts: Seq<Option<MtpDraftOutput>>,
    r: StepReservation,
    block: int,
    max: int,
    s: int,
)
    requires
        0 <= s <= drafts.len(),
        drafts.len() <= usize::MAX,
    ensures
        ({
            let d = dropped(drafts, r, block, max, s);
            &&& forall|i: int|
                0 <= i < d.len() ==> {
                    &&& s <= (#[trigger] d[i]).slot < drafts.len()
                    &&& drafts[d[i].slot as int] is Some
                    &&& d[i].seed == drafts[d[i].slot as int]->Some_0.verify_tokens@[0]
                }
            &&& forall|i: int, j: int|
                0 <= i < j < d.len() ==> (#[trigger] d[i]).slot < (#[trigger] d[j]).slot
            &&& forall|i: int, k: int|
                0 <= i < d.len() && s <= k < d[i].slot && (#[trigger] drafts[k]) is Some ==> exists|
                    j: int,
                |
                    0 <= j < i && #[trigger] d[j].slot == k && (#[trigger] d[i]).slot > k
        }),
    decreases drafts.len() - s,
{
    let d = dropped(drafts, r, block, max, s);
    if s < drafts.len() && r.total() > max {
        if drafts[s] is Some {
            let rest = dropped(drafts, without_block(r, block), block, max, s + 1);
            lemma_dropped_shape(drafts, without_block(r, block), block, max, s + 1);
            assert(d[0].slot == s);
            assert forall|i: int| 1 <= i < d.len() implies d[i] == rest[i - 1] by {}
            assert forall|i: int, k: int|
                0 <= i < d.len() && s <= k < d[i].slot && (
                #[trigger] drafts[k]) is Some implies exists|j: int|
                0 <= j < i && #[trigger] d[j].slot == k && (#[trigger] d[i]).slot > k by {
                assert(i > 0);
                assert(d[i] == rest[i - 1]);
                if k == s {
                    assert(d[0].slot == k);
                } else {
                    let j = choose|j: int|
                        0 <= j < i - 1 && #[trigger] rest[j].slot == k && (#[trigger] rest[i
                            - 1]).slot > k;
                    assert(d[j + 1] == rest[j]);
                }
            }
        } else {
            lemma_dropped_shape(drafts, r, block, max, s + 1);
        }
    }
}

/// Drafts are dropped from the front: each dropped one is a slot's own draft with
/// its seed, in slot order, and a draft before it is dropped as well.
pub proof fn law_drafts_are_dropped_in_slot_order(
    drafts: Seq<Option<MtpDraftOutput>>,
    r: StepReservation,
    block: int,
    max: int,
    i: int,
    k: int,
)
    requires
        drafts.len() <= usize::MAX,
        0 <= i < dropped(drafts, r, block, max, 0).len(),
    ensures
        ({
            let d = dropped(drafts, r, block, max, 0);
            &&& d[i].slot < drafts.len()
            &&& drafts[d[i].slot as int] is Some
            &&& d[i].seed == drafts[d[i].slot as int]->Some_0.verify_tokens@[0]
            &&& 0 <= k < i ==> d[k].slot < d[i].slot
            &&& 0 <= k < d[i].slot && drafts[k] is Some ==> exists|j: int|
                0 <= j < i && (#[trigger] d[j]).slot == k
        }),
{
    lemma_dropped_shape(drafts, r, block, max, 0);
    let d = dropped(drafts, r, block, max, 0);
    if 0 <= k < d[i].slot && drafts[k] is Some {
        let j = choose|j: int|
            0 <= j < i && #[trigger] d[j].slot == k && (#[trigger] d[i]).slot > k;
        assert(d[j].slot == k);
    }
}

proof fn lemma_drops_needed(
    drafts: Seq<Option<MtpDraftOutput>>,
    r: StepReservation,
    block: int,
    max: int,
    s: int,
)
    requires
        0 <= s <= drafts.len(),
        block > 0,
        r.verify_rows >= (draft_count(drafts) - draft_count(drafts.take(s))) * block,
    ensures
        ({
            let n = dropped(drafts, r, block, max, s).len();
            let a = after_drops(drafts, r, block, max, s);
            &&& n <= draft_count(drafts) - draft_count(drafts.take(s))
            &&& n > 0 ==> r.total() - (n - 1) * block > max
            &&& a == (StepReservation { verify_rows: a.verify_rows, ..r })
            &&& a.verify_rows == r.verify_rows - n * block
        }),
    decreases drafts.len() - s,
{
    if s < drafts.len() {
        lemma_draft_count_monotone(drafts, s + 1);
        lemma_draft_count_monotone(drafts, s);
        assert(drafts.take(s + 1).drop_last() =~= drafts.take(s));
        if r.total() > max {
            if drafts[s] is Some {
                let left = draft_count(drafts) - draft_count(drafts.take(s + 1));
                assert((left + 1) * block == left * block + block) by (nonlinear_arith);
                assert(left * block >= 0) by (nonlinear_arith)
                    requires
                        left >= 0,
                        block > 0,
                ;
                let next = without_block(r, block);
                lemma_drops_needed(drafts, next, block, max, s + 1);
                let rest = dropped(drafts, next, block, max, s + 1);
                let n = rest.len() as int;
                assert(dropped(drafts, r, block, max, s).len() == n + 1);
                assert((n + 1) * block == n * block + block) by (nonlinear_arith);
                assert(n > 0 ==> n * block == (n - 1) * block + block) by (nonlinear_arith);
            } else {
                lemma_drops_needed(drafts, r, block, max, s + 1);
            }
        }
    } else {
        assert(drafts.take(s) =~= drafts);
    }
    let n = dropped(drafts, r, block, max, s).len() as int;
    assert(n == 0 ==> n * block == 0) by (nonlinear_arith);
}

/// No draft is dropped without need: without the last drop the step would not
/// fit. What was dropped leaves the reservation by a block each and nothing else
/// does.
pub proof fn law_no_draft_is_dropped_without_need(
    drafts: Seq<Option<MtpDraftOutput>>,
    r: StepReservation,
    block: int,
    max: int,
)
    requires
        block > 0,
        r.verify_rows == draft_count(drafts) * block,
    ensures
        ({
            let n = dropped(drafts, r, block, max, 0).len();
            let a = after_drops(drafts, r, block, max, 0);
            &&& n > 0 ==> r.prefill_rows + r.decode_rows + r.forced_rows + r.verify_rows - (n - 1)
                * block > max
            &&& a.verify_rows == r.verify_rows - n * block
            &&& a.prefill_rows == r.prefill_rows
            &&& a.decode_rows == r.decode_rows
            &&& a.forced_rows == r.forced_rows
        }),
{
    assert(drafts.take(0) =~= Seq::empty());
    lemma_drops_needed(drafts, r, block, max, 0);
}

/// Rows are cut where it hurts least: prompt rows go before decode rows, verify
/// and forced rows stay, and no more is cut than the excess.
pub proof fn law_prompt_rows_are_cut_first(r: StepReservation, max: int)
    requires
        0 <= max,
    ensures
        ({
            let t = trimmed_rows(r, max);
            let sum = r.prefill_rows + r.decode_rows + r.verify_rows + r.forced_rows;
            let cut = t.prefill_rows + t.decode_rows + t.verify_rows + t.forced_rows;
            &&& t.verify_rows == r.verify_rows && t.forced_rows == r.forced_rows
            &&& t.prefill_rows <= r.prefill_rows && t.decode_rows <= r.decode_rows
            &&& t.decode_rows < r.decode_rows ==> t.prefill_rows == 0
            &&& sum <= max ==> t == r
            &&& sum > max ==> cut == max || (cut > max && t.prefill_rows == 0 && t.decode_rows
                == 0)
        }),
{
}

proof fn lemma_counted(drafts: Seq<Option<MtpDraftOutput>>)
    ensures
        0 <= draft_count(drafts) <= drafts.len(),
        draft_count(drafts) == 0 <==> forall|s: int|
            0 <= s < drafts.len() ==> (#[trigger] drafts[s]) is None,
    decreases drafts.len(),
{
    if drafts.len() > 0 {
        let init = drafts.drop_last();
        lemma_counted(init);
        if draft_count(drafts) == 0 {
            assert forall|s: int| 0 <= s < drafts.len() implies (#[trigger] drafts[s]) is None by {
                if s < init.len() {
                    assert(init[s] is None);
                }
            }
        }
        if forall|s: int| 0 <= s < drafts.len() ==> (#[trigger] drafts[s]) is None {
            assert(drafts[drafts.len() - 1] is None);
            assert forall|s: int| 0 <= s < init.len() implies (#[trigger] init[s]) is None by {
                assert(drafts[s] is None);
            }
        }
    }
}

/// Drafts are counted one by one: none are there exactly where no slot has one,
/// and giving one more slot a draft makes one more.
pub proof fn law_drafts_are_counted(drafts: Seq<Option<MtpDraftOutput>>, s: int, d: MtpDraftOutput)
    requires
        0 <= s < drafts.len(),
        drafts[s] is None,
    ensures
        draft_count(drafts) == 0 <==> forall|k: int|
            0 <= k < drafts.len() ==> (#[trigger] drafts[k]) is None,
        draft_count(drafts.update(s, Some(d))) == draft_count(drafts) + 1,
    decreases drafts.len(),
{
    lemma_counted(drafts);
    let more = drafts.update(s, Some(d));
    if s == drafts.len() - 1 {
        assert(more.drop_last() =~= drafts.drop_last());
    } else {
        assert(more.drop_last() =~= drafts.drop_last().update(s, Some(d)));
        law_drafts_are_counted(drafts.drop_last(), s, d);
    }
}

/// Every row of a slot is a prompt row or a decode row, unless the slot
/// speculates: the two add up to the step's rows.
pub proof fn law_rows_are_prompt_or_decode(work: Seq<PendingWork>, m: Seq<usize>, n: int)
    requires
        0 <= n <= m.len(),
        m.len() == work.len(),
        forall|s: int|
            0 <= s < n ==> !((#[trigger] work[s]).decoding && work[s].mtp_active),
    ensures
        prefill_rows(work, m, n) + decode_rows(work, m, n) == crate::slot_batch::rows_sum(
            m.take(n),
        ),
        (forall|s: int| 0 <= s < n ==> (#[trigger] work[s]).decoding) ==> prefill_rows(work, m, n)
            == 0,
        (forall|s: int| 0 <= s < n ==> !(#[trigger] work[s]).decoding) ==> decode_rows(work, m, n)
            == 0,
    decreases n,
{
    if n > 0 {
        law_rows_are_prompt_or_decode(work, m, n - 1);
        assert(m.take(n).drop_last() =~= m.take(n - 1));
        assert(m.take(n).last() == m[n - 1]);
        assert(!(work[n - 1].decoding && work[n - 1].mtp_active));
    }
}

/// A slot's write interval starts at its first row's position and ends past its
/// last row's; a slot that feeds consecutive positions writes exactly those.
pub proof fn law_intervals_span_the_slots_rows(b: SlotBatch, s: int, j: int, pos: int)
    requires
        b.wf(),
        0 <= s < b.m_per_slot@.len(),
        0 <= j < b.m_per_slot@[s],
        0 <= pos,
        forall|i: int|
            0 <= i < b.m_per_slot@[s] ==> (#[trigger] b.positions@[crate::slot_batch::rows_sum(
                b.m_per_slot@.take(s),
            ) + i]) == pos + i,
    ensures
        slot_interval(b, s) is Some,
        slot_interval(b, s)->Some_0.0 == pos,
        slot_interval(b, s)->Some_0.1 == pos + b.m_per_slot@[s],
        slot_interval(b, s)->Some_0.0 <= pos + j < slot_interval(b, s)->Some_0.1,
{
    let off = crate::slot_batch::rows_sum(b.m_per_slot@.take(s));
    let m = b.m_per_slot@[s] as int;
    assert(b.positions@[off + 0] == pos + 0);
    assert(b.positions@[off + (m - 1)] == pos + (m - 1));
    assert(off + m - 1 == off + (m - 1));
}

/// A slot without rows writes nothing.
pub proof fn law_idle_slots_write_nothing(b: SlotBatch, s: int)
    requires
        0 <= s < b.m_per_slot@.len(),
    ensures
        slot_interval(b, s) is None <==> b.m_per_slot@[s] == 0,
{
}

} // verus!
