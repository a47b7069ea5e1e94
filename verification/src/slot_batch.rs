//! One forward step's ragged work across the serving slots.
//!
//! A step mixes freely: one slot verifying eight draft tokens, another
//! prefilling a chunk of 256, others decoding one each.

use vstd::prelude::*;

verus! {

/// Index of one serving slot.
#[derive(Clone, Copy, Debug, PartialEq, Eq, Structural)]
pub struct SlotId(pub usize);

/// Two's complement reading of the low 32 bits of `x`.
pub open spec fn low_i32(x: int) -> i32 {
    let low = x % 0x1_0000_0000;
    if low < 0x8000_0000 {
        low as i32
    } else {
        (low - 0x1_0000_0000) as i32
    }
}

/// The low 32 bits of `x` as a signed word: `x` itself up to `i32::MAX`.
pub fn wrap_i32(x: usize) -> (r: i32)
    ensures
        r == low_i32(x as int),
        x <= i32::MAX ==> r == x,
{
    let low: u64 = (x as u64) % 0x1_0000_0000;
    if low < 0x8000_0000 {
        low as i32
    } else {
        (low as i64 - 0x1_0000_0000) as i32
    }
}

/// Sum of the per-slot row counts.
pub open spec fn rows_sum(m: Seq<usize>) -> int
    decreases m.len(),
{
    if m.len() == 0 {
        0
    } else {
        rows_sum(m.drop_last()) + m.last()
    }
}

/// The step's rows, packed flat in slot order.
#[derive(Debug, Clone)]
pub struct SlotBatch {
    /// Per-slot token counts for this step. 0 means the slot is idle.
    pub m_per_slot: Vec<usize>,
    /// Flat token ids, packed across slots in slot order.
    pub tokens: Vec<u32>,
    /// Per-row absolute position within that row's own slot.
    ///
    /// Authoritative for the causal bound, never a slot's sequence length: the
    /// two differ whenever a slot has more than one query row.
    pub positions: Vec<i32>,
    /// Slot index for each flat row.
    pub row_slot: Vec<i32>,
    /// Per-row absolute rotary phases `[t, h, w]`, aligned with the flat rows.
    ///
    /// Empty means the step runs one-dimensional rotary phases off
    /// `positions`. When non-empty it has one entry per row; rows of plain text
    /// slots carry `[p, p, p]`, so a mixed text and image step can run one
    /// kernel for everyone.
    pub pos3: Vec<[i32; 3]>,
    /// Per-row index into that row's slot's external-embedding matrix, or -1 to
    /// use the token embedding table. Empty means no external rows this step.
    pub ext_emb: Vec<i32>,
}

impl SlotBatch {
    /// The flat arrays have one entry per row, the per-slot counts add up to
    /// the rows, and the side arrays are either absent or aligned.
    pub open spec fn wf(&self) -> bool {
        &&& self.positions@.len() == self.tokens@.len()
        &&& self.row_slot@.len() == self.tokens@.len()
        &&& rows_sum(self.m_per_slot@) == self.tokens@.len()
        &&& self.pos3@.len() == 0 || self.pos3@.len() == self.tokens@.len()
        &&& self.ext_emb@.len() == self.pos3@.len()
    }
}

impl Default for SlotBatch {
    /// A step with no slots and no rows.
    fn default() -> (b: SlotBatch)
        ensures
            b.m_per_slot@.len() == 0,
            b.tokens@.len() == 0,
            b.positions@.len() == 0,
            b.row_slot@.len() == 0,
            b.pos3@.len() == 0,
            b.ext_emb@.len() == 0,
            b.wf(),
    {
        SlotBatch {
            m_per_slot: Vec::new(),
            tokens: Vec::new(),
            positions: Vec::new(),
            row_slot: Vec::new(),
            pos3: Vec::new(),
            ext_emb: Vec::new(),
        }
    }
}

/// The tokens of the parts, one part after the other.
pub open spec fn part_tokens(parts: Seq<(SlotId, &[u32], usize)>) -> Seq<u32>
    decreases parts.len(),
{
    if parts.len() == 0 {
        Seq::empty()
    } else {
        part_tokens(parts.drop_last()) + parts.last().1@
    }
}

/// The positions of the parts' rows: each part counts up from its own start.
pub open spec fn part_positions(parts: Seq<(SlotId, &[u32], usize)>) -> Seq<i32>
    decreases parts.len(),
{
    if parts.len() == 0 {
        Seq::empty()
    } else {
        part_positions(parts.drop_last()) + Seq::new(
            parts.last().1@.len(),
            |j: int| low_i32(parts.last().2 + j),
        )
    }
}

/// The slot of each of the parts' rows.
pub open spec fn part_slots(parts: Seq<(SlotId, &[u32], usize)>) -> Seq<i32>
    decreases parts.len(),
{
    if parts.len() == 0 {
        Seq::empty()
    } else {
        part_slots(parts.drop_last()) + Seq::new(
            parts.last().1@.len(),
            |j: int| low_i32(parts.last().0.0 as int),
        )
    }
}

impl SlotBatch {
    /// Builds a step from `(slot, tokens, start_pos)` triples. Slots with no
    /// tokens contribute no rows.
    pub fn build(per_slot: &[(SlotId, &[u32], usize)]) -> (b: SlotBatch)
        requires
            forall|k: int|
                0 <= k < per_slot@.len() ==> (#[trigger] per_slot@[k]).2 + per_slot@[k].1@.len()
                    <= usize::MAX,
        ensures
            b.wf(),
            b.m_per_slot@ =~= Seq::new(per_slot@.len(), |k: int| per_slot@[k].1.len()),
            b.tokens@ == part_tokens(per_slot@),
            b.positions@ == part_positions(per_slot@),
            b.row_slot@ == part_slots(per_slot@),
            b.pos3@.len() == 0,
            b.ext_emb@.len() == 0,
    {
        let mut b = SlotBatch::default();
        let mut k: usize = 0;
        while k < per_slot.len()
            invariant
                k <= per_slot@.len(),
                forall|k: int|
                    0 <= k < per_slot@.len() ==> (#[trigger] per_slot@[k]).2
                        + per_slot@[k].1@.len() <= usize::MAX,
                b.wf(),
                b.m_per_slot@ =~= Seq::new(k as nat, |k: int| per_slot@[k].1.len()),
                b.tokens@ == part_tokens(per_slot@.take(k as int)),
                b.positions@ == part_positions(per_slot@.take(k as int)),
                b.row_slot@ == part_slots(per_slot@.take(k as int)),
                b.pos3@.len() == 0,
                b.ext_emb@.len() == 0,
            decreases per_slot@.len() - k,
        {
            let slot: SlotId = per_slot[k].0;
            let toks: &[u32] = per_slot[k].1;
            let start_pos: usize = per_slot[k].2;
            let ghost before = b;
            b.m_per_slot.push(toks.len());
            let mut i: usize = 0;
            while i < toks.len()
                invariant
                    i <= toks@.len(),
                    start_pos + toks@.len() <= usize::MAX,
                    b.m_per_slot@ == before.m_per_slot@.push(toks.len()),
                    b.tokens@ == before.tokens@ + toks@.take(i as int),
                    b.positions@ == before.positions@ + Seq::new(
                        i as nat,
                        |j: int| low_i32(start_pos + j),
                    ),
                    b.row_slot@ == before.row_slot@ + Seq::new(
                        i as nat,
                        |j: int| low_i32(slot.0 as int),
                    ),
                    b.pos3@.len() == 0,
                    b.ext_emb@.len() == 0,
                decreases toks@.len() - i,
            {
                b.tokens.push(toks[i]);
                b.positions.push(wrap_i32(start_pos + i));
                b.row_slot.push(wrap_i32(slot.0));
                i = i + 1;
                assert(b.tokens@ =~= before.tokens@ + toks@.take(i as int));
                assert(b.positions@ =~= before.positions@ + Seq::new(
                    i as nat,
                    |j: int| low_i32(start_pos + j),
                ));
                assert(b.row_slot@ =~= before.row_slot@ + Seq::new(
                    i as nat,
                    |j: int| low_i32(slot.0 as int),
                ));
            }
            proof {
                let done = per_slot@.take(k + 1);
                assert(done.drop_last() =~= per_slot@.take(k as int));
                assert(toks@.take(toks@.len() as int) =~= toks@);
                assert(b.m_per_slot@.drop_last() =~= before.m_per_slot@);
                assert(b.positions@ =~= part_positions(done));
                assert(b.row_slot@ =~= part_slots(done));
            }
            k = k + 1;
        }
        assert(per_slot@.take(k as int) =~= per_slot@);
        b
    }

    /// Number of rows in the step.
    pub fn total_rows(&self) -> (n: usize)
        ensures
            n == self.tokens@.len(),
    {
        self.tokens.len()
    }

    /// Whether the step carries no rows.
    pub fn is_empty(&self) -> (r: bool)
        ensures
            r == (self.tokens@.len() == 0),
    {
        self.tokens.len() == 0
    }
}

// ---- Laws of built steps ----

/// Parts are packed one after the other: a further part adds its tokens, at
/// positions that count up from its own start, under its own slot.
pub proof fn law_parts_are_packed_in_order(
    parts: Seq<(SlotId, &[u32], usize)>,
    part: (SlotId, &[u32], usize),
    i: int,
)
    requires
        0 <= i < part.1@.len(),
    ensures
        ({
            let more = parts.push(part);
            let row = part_tokens(parts).len() + i;
            &&& part_tokens(more).len() == part_tokens(parts).len() + part.1@.len()
            &&& part_tokens(more).take(part_tokens(parts).len() as int) == part_tokens(parts)
            &&& part_tokens(more)[row] == part.1@[i]
            &&& part_positions(more).len() == part_tokens(more).len()
            &&& part.2 + i <= i32::MAX ==> part_positions(more)[row] == part.2 + i
            &&& part_slots(more).len() == part_tokens(more).len()
            &&& part.0.0 <= i32::MAX ==> part_slots(more)[row] == part.0.0
        }),
{
    let more = parts.push(part);
    assert(more.drop_last() =~= parts);
    lemma_part_lens(parts);
    assert(part_tokens(more).take(part_tokens(parts).len() as int) =~= part_tokens(parts));
}

proof fn lemma_part_lens(parts: Seq<(SlotId, &[u32], usize)>)
    ensures
        part_positions(parts).len() == part_tokens(parts).len(),
        part_slots(parts).len() == part_tokens(parts).len(),
    decreases parts.len(),
{
    if parts.len() > 0 {
        lemma_part_lens(parts.drop_last());
    }
}

/// A word that fits 32 bits is itself, and words that differ by 2^32 are the same.
pub proof fn law_low_words(x: int)
    requires
        0 <= x,
    ensures
        x <= i32::MAX ==> low_i32(x) == x,
        low_i32(x + 0x1_0000_0000) == low_i32(x),
{
}

} // verus!
