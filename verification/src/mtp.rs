//! Speculation of a slot: when it drafts, what a dropped draft leaves behind,
//! and when it goes back to plain decoding.

use crate::policy::mtp_verify_fits_cap;
use crate::scheduler::{greatest, PendingWork, VlPrefill};
use vstd::prelude::*;

verus! {

/// Cycles of one adaptive-retire window.
pub const MTP_RETIRE_WINDOW: usize = 32;

/// The least mean advance (committed tokens per cycle) that speculation has to
/// sustain, in tenths: 2.2. A cycle costs roughly twice a plain step.
pub const MTP_RETIRE_MIN_ADVANCE_TENTHS: usize = 22;

/// Consecutive failed windows before a slot retires. One bad window is normal
/// even on high-acceptance workloads.
pub const MTP_RETIRE_WINDOWS: usize = 2;

/// Everything but the prompt and the flag of `a` and `b` agrees.
pub open spec fn same_but_speculation(a: PendingWork, b: PendingWork) -> bool {
    &&& a.slot == b.slot
    &&& a.next_pos == b.next_pos
    &&& a.decoding == b.decoding
    &&& a.vl_prefill == b.vl_prefill
    &&& a.pos3_delta == b.pos3_delta
}

/// The retire counters of `a` and `b` agree.
pub open spec fn same_counters(a: PendingWork, b: PendingWork) -> bool {
    &&& a.mtp_cycles == b.mtp_cycles
    &&& a.mtp_committed == b.mtp_committed
    &&& a.mtp_retire_fails == b.mtp_retire_fails
}

/// What the draft phase does with a slot.
#[derive(Debug, Clone, Copy, PartialEq, Eq, Structural)]
pub enum DraftStep {
    /// Nothing to draft.
    Skip,
    /// The verify block would pass the context cap: the slot decodes plainly
    /// from now on.
    Retired,
    /// Draft from this seed at this position.
    Draft { seed: u32, pos: usize },
}

/// The slot speculates and holds a seed.
pub open spec fn drafts(w: PendingWork, occupied: bool, head_loaded: bool, mtp_k: usize) -> bool {
    &&& head_loaded
    &&& mtp_k > 0
    &&& w.mtp_active
    &&& occupied
    &&& w.decoding
    &&& w.remaining_prompt@.len() > 0
}

/// Keeps only the newest of the slot's tokens: the others already have their
/// cache rows.
fn keep_newest(work: &mut PendingWork)
    requires
        old(work).remaining_prompt@.len() > 0,
    ensures
        final(work).remaining_prompt@ == seq![old(work).remaining_prompt@.last()],
        same_but_speculation(*final(work), *old(work)),
        same_counters(*final(work), *old(work)),
        final(work).mtp_active == old(work).mtp_active,
{
    let last: u32 = work.remaining_prompt[work.remaining_prompt.len() - 1];
    work.remaining_prompt.clear();
    work.remaining_prompt.push(last);
    assert(work.remaining_prompt@ =~= seq![last]);
}

/// `r` and `after` are what the draft phase makes of the slot's work `w`.
pub open spec fn draft_decided(
    w: PendingWork,
    occupied: bool,
    head_loaded: bool,
    mtp_k: usize,
    cap_tokens: usize,
    r: DraftStep,
    after: PendingWork,
) -> bool {
    if !drafts(w, occupied, head_loaded, mtp_k) {
        r == DraftStep::Skip && after == w
    } else if w.next_pos + mtp_k + 1 > cap_tokens {
        &&& r == DraftStep::Retired
        &&& !after.mtp_active
        &&& after.remaining_prompt@ == seq![w.remaining_prompt@.last()]
        &&& same_but_speculation(after, w)
        &&& same_counters(after, w)
    } else {
        &&& r == (DraftStep::Draft { seed: w.remaining_prompt@.last(), pos: w.next_pos })
        &&& after.mtp_active
        &&& after.remaining_prompt@.len() == 0
        &&& same_but_speculation(after, w)
        &&& same_counters(after, w)
    }
}

/// Decides the draft phase of one slot. A verify block that would pass the cap
/// fails the whole step, so the slot retires before drafting instead and keeps
/// only its newest token. A slot that drafts hands its seed over.
pub fn draft_step(
    work: &mut PendingWork,
    occupied: bool,
    head_loaded: bool,
    mtp_k: usize,
    cap_tokens: usize,
) -> (r: DraftStep)
    requires
        mtp_k < usize::MAX,
    ensures
        draft_decided(
            *old(work),
            occupied,
            head_loaded,
            mtp_k,
            cap_tokens,
            r,
            *final(work),
        ),
{
    if !head_loaded || mtp_k == 0 || !work.mtp_active || !occupied || !work.decoding {
        return DraftStep::Skip;
    }
    let n: usize = work.remaining_prompt.len();
    if n == 0 {
        return DraftStep::Skip;
    }
    if !mtp_verify_fits_cap(work.next_pos, mtp_k, cap_tokens) {
        work.mtp_active = false;
        keep_newest(work);
        return DraftStep::Retired;
    }
    let seed: u32 = work.remaining_prompt[n - 1];
    work.remaining_prompt.clear();
    DraftStep::Draft { seed, pos: work.next_pos }
}

/// `after` is `before` with only `seed` left to feed.
pub open spec fn seed_back(before: PendingWork, after: PendingWork, seed: u32) -> bool {
    &&& after.remaining_prompt@ == seq![seed]
    &&& same_but_speculation(after, before)
    &&& same_counters(after, before)
    &&& after.mtp_active == before.mtp_active
}

/// Gives a slot its seed back when its draft is dropped from the step.
pub fn return_seed(work: &mut PendingWork, seed: u32)
    ensures
        seed_back(*old(work), *final(work), seed),
{
    work.remaining_prompt.clear();
    work.remaining_prompt.push(seed);
    assert(work.remaining_prompt@ =~= seq![seed]);
}

/// Moves a slot's frontier past the rows that its verify block committed.
/// Returns the new frontier, which is also the length that the slot's cache
/// keeps: rows of rejected tokens are written over before anyone reads them.
pub fn advance_verified(work: &mut PendingWork, advance: usize) -> (r: usize)
    requires
        old(work).next_pos + advance <= usize::MAX,
    ensures
        r == old(work).next_pos + advance,
        *final(work) == (PendingWork { next_pos: r, ..*old(work) }),
{
    work.next_pos = work.next_pos + advance;
    work.next_pos
}

/// The window is full with this cycle.
pub open spec fn window_full(w: PendingWork) -> bool {
    w.mtp_cycles + 1 >= MTP_RETIRE_WINDOW
}

/// The window that this cycle fills stays below the least mean advance.
pub open spec fn window_fails(w: PendingWork, committed: int) -> bool {
    (w.mtp_committed + committed) * 10 < MTP_RETIRE_MIN_ADVANCE_TENTHS * (w.mtp_cycles + 1)
}

/// The slot retires with this cycle.
pub open spec fn retires(w: PendingWork, committed: int) -> bool {
    window_full(w) && window_fails(w, committed) && w.mtp_retire_fails + 1 >= MTP_RETIRE_WINDOWS
}

/// Accounts one verify cycle of a speculating slot that committed `committed`
/// tokens. When the window is full it starts over; a window whose mean advance
/// is too low counts as a failure, and enough failures in a row retire the slot
/// to plain decoding with only its newest token left to feed. Returns whether
/// the slot retired.
pub fn note_mtp_cycle(work: &mut PendingWork, committed: usize) -> (r: bool)
    requires
        old(work).mtp_cycles < MTP_RETIRE_WINDOW,
        (old(work).mtp_committed + committed) * 10 <= usize::MAX,
        old(work).mtp_retire_fails < usize::MAX,
    ensures
        ({
            let w = *old(work);
            let after = *final(work);
            &&& same_but_speculation(after, w)
            &&& r == (w.mtp_active && retires(w, committed as int))
            &&& after.mtp_active == (w.mtp_active && !r)
            &&& after.remaining_prompt@ == if r && w.remaining_prompt@.len() > 0 {
                seq![w.remaining_prompt@.last()]
            } else {
                w.remaining_prompt@
            }
            &&& if !w.mtp_active {
                same_counters(after, w)
            } else if !window_full(w) {
                &&& after.mtp_cycles == w.mtp_cycles + 1
                &&& after.mtp_committed == w.mtp_committed + committed
                &&& after.mtp_retire_fails == w.mtp_retire_fails
            } else {
                &&& after.mtp_cycles == 0
                &&& after.mtp_committed == 0
                &&& after.mtp_retire_fails == if r || !window_fails(w, committed as int) {
                    0
                } else {
                    w.mtp_retire_fails + 1
                }
            }
        }),
{
    if !work.mtp_active {
        return false;
    }
    let cycles: usize = work.mtp_cycles + 1;
    let total: usize = work.mtp_committed + committed;
    if cycles < MTP_RETIRE_WINDOW {
        work.mtp_cycles = cycles;
        work.mtp_committed = total;
        return false;
    }
    work.mtp_cycles = 0;
    work.mtp_committed = 0;
    if total * 10 < MTP_RETIRE_MIN_ADVANCE_TENTHS * cycles {
        work.mtp_retire_fails = work.mtp_retire_fails + 1;
    } else {
        work.mtp_retire_fails = 0;
    }
    if work.mtp_retire_fails >= MTP_RETIRE_WINDOWS {
        work.mtp_active = false;
        work.mtp_retire_fails = 0;
        if work.remaining_prompt.len() > 0 {
            keep_newest(work);
        }
        true
    } else {
        false
    }
}

/// One bad window alone never retires a slot: after a window that held up, it
/// takes two more full windows.
pub proof fn law_one_bad_window_is_forgiven(w: PendingWork, committed: int)
    requires
        w.mtp_retire_fails == 0,
    ensures
        !retires(w, committed),
{
}

/// A slot that commits at least 2.2 tokens per cycle over its window stays on
/// the speculative path, whatever happened before.
pub proof fn law_sustained_advance_keeps_speculating(w: PendingWork, committed: int)
    requires
        (w.mtp_committed + committed) * 10 >= 22 * (w.mtp_cycles + 1),
    ensures
        !retires(w, committed),
{
}

// ---- Prompt chunks of the speculative head ----

/// Where the head reads a prompt chunk from, in values and, for the seed, in
/// bytes of the staged rows.
#[derive(Debug, Clone, Copy, PartialEq, Eq, Structural)]
pub struct HeadChunk {
    /// First hidden value of the chunk's rows in the step.
    pub hidden_start: usize,
    /// Hidden values of the chunk.
    pub hidden_len: usize,
    /// First byte of the last staged row, the hidden state of the first draft.
    pub seed_start: usize,
    pub seed_len: usize,
}

/// Plans the fill of the head's own cache from a chunk of `m` rows that starts
/// at row `row_off` of the step. It needs the head and its batched scratch.
pub fn head_chunk(head_loaded: bool, scratch_ready: bool, row_off: usize, m: usize, dim: usize) -> (r:
    Result<HeadChunk, &'static str>)
    requires
        m > 0,
        (row_off + m) * dim * 4 <= usize::MAX,
    ensures
        !head_loaded ==> r is Err && r->Err_0@
            == "mtp_head_prefill_chunk: MTP head not loaded"@,
        head_loaded && !scratch_ready ==> r is Err && r->Err_0@
            == "mtp_head_prefill_chunk: batched head scratch missing"@,
        head_loaded && scratch_ready ==> r is Ok && {
            let c = r->Ok_0;
            &&& c.hidden_start == row_off * dim
            &&& c.hidden_len == m * dim
            &&& c.seed_start == (m - 1) * dim * 4
            &&& c.seed_len == dim * 4
        },
{
    if !head_loaded {
        return Err("mtp_head_prefill_chunk: MTP head not loaded");
    }
    if !scratch_ready {
        return Err("mtp_head_prefill_chunk: batched head scratch missing");
    }
    proof {
        let total = (row_off + m) * dim;
        assert(row_off * dim <= total && m * dim <= total && (m - 1) * dim <= total && dim
            <= total) by (nonlinear_arith)
            requires
                m > 0,
                row_off >= 0,
                dim >= 0,
                total == (row_off + m) * dim,
        ;
    }
    Ok(
        HeadChunk {
            hidden_start: row_off * dim,
            hidden_len: m * dim,
            seed_start: (m - 1) * dim * 4,
            seed_len: dim * 4,
        },
    )
}

// ---- Sequential image steps ----

/// One token of a sequential image step.
#[derive(Debug, Clone, Copy, PartialEq, Eq, Structural)]
pub enum VlToken {
    /// Feed the embedding `start..start + dim` at this position.
    Embed { start: usize, pos: usize },
    /// Feed the token at this position.
    Token { id: u32, pos: usize },
}

/// The slot runs on the sequential image path this iteration.
pub fn sequential_vl_ready(work: &PendingWork, occupied: bool, vl_sequential: bool) -> (r: bool)
    ensures
        r == (vl_sequential && work.vl_prefill is Some && occupied && work.remaining_prompt@.len()
            > 0),
{
    vl_sequential && work.vl_prefill.is_some() && occupied && work.remaining_prompt.len() > 0
}

/// The slot's vision tower has layers to run this iteration.
pub fn vision_tower_ready(work: &PendingWork, occupied: bool, vl_sequential: bool) -> (r: bool)
    ensures
        r == (!vl_sequential && occupied && work.vl_prefill is Some
            && work.vl_prefill->Some_0.embeddings@.len() == 0
            && work.vl_prefill->Some_0.n_visual_tokens > 0),
{
    if vl_sequential || !occupied {
        return false;
    }
    match &work.vl_prefill {
        Some(vl) => vl.embeddings.len() == 0 && vl.n_visual_tokens > 0,
        None => false,
    }
}

/// Visual index before token `j` of the prompt, starting from `first`: each
/// image pad takes one visual token as long as there are any.
pub open spec fn visual_at(prompt: Seq<u32>, pad: u32, first: int, total: int, j: int) -> int
    decreases j,
{
    if j <= 0 {
        first
    } else {
        let v = visual_at(prompt, pad, first, total, j - 1);
        if prompt[j - 1] == pad && v < total {
            v + 1
        } else {
            v
        }
    }
}

/// What token `j` of the prompt feeds.
pub open spec fn vl_token(
    prompt: Seq<u32>,
    pad: u32,
    first: int,
    total: int,
    dim: int,
    base: int,
    j: int,
) -> VlToken {
    let v = visual_at(prompt, pad, first, total, j);
    if prompt[j] == pad && v < total {
        VlToken::Embed { start: (v * dim) as usize, pos: (base + j) as usize }
    } else {
        VlToken::Token { id: prompt[j], pos: (base + j) as usize }
    }
}

/// The embedding of token `j` lies within the matrix.
pub open spec fn vl_token_in_range(
    prompt: Seq<u32>,
    pad: u32,
    first: int,
    total: int,
    dim: int,
    held: int,
    j: int,
) -> bool {
    let v = visual_at(prompt, pad, first, total, j);
    prompt[j] == pad && v < total ==> v * dim + dim <= held
}

/// Every image pad of the slot's prompt that takes a visual token finds its
/// embedding within the matrix.
pub open spec fn vl_in_range(w: PendingWork, pad: u32) -> bool {
    let vl = w.vl_prefill->Some_0;
    forall|j: int|
        0 <= j < w.remaining_prompt@.len() ==> #[trigger] vl_token_in_range(
            w.remaining_prompt@,
            pad,
            vl.visual_idx as int,
            vl.n_visual_tokens as int,
            vl.dim as int,
            vl.embeddings@.len() as int,
            j,
        )
}

/// `plan` feeds the whole prompt of `before`, and `after` is past it.
pub open spec fn vl_fed(
    before: PendingWork,
    pad: u32,
    plan: Seq<VlToken>,
    after: PendingWork,
) -> bool {
    let p = before.remaining_prompt@;
    let vl = before.vl_prefill->Some_0;
    let first = vl.visual_idx as int;
    let total = vl.n_visual_tokens as int;
    &&& plan == Seq::new(
        p.len(),
        |j: int| vl_token(p, pad, first, total, vl.dim as int, before.next_pos as int, j),
    )
    &&& after.remaining_prompt@.len() == 0
    &&& after == (PendingWork {
        remaining_prompt: after.remaining_prompt,
        next_pos: (before.next_pos + p.len()) as usize,
        vl_prefill: Some(
            VlPrefill {
                visual_idx: visual_at(p, pad, first, total, p.len() as int) as usize,
                ..vl
            },
        ),
        ..before
    })
}

/// The positions and the embedding offsets of the slot's image step are machine
/// words.
pub open spec fn vl_step_fits(w: PendingWork) -> bool {
    &&& w.next_pos + w.remaining_prompt@.len() <= usize::MAX
    &&& w.vl_prefill is Some ==> w.vl_prefill->Some_0.n_visual_tokens
        * w.vl_prefill->Some_0.dim <= usize::MAX
}

/// Plans the tokens of a sequential image step once the images are encoded:
/// every remaining token in order, image pads as visual embeddings, everything
/// else from the token table. On success the slot's prompt is used up, its
/// position is past it and its visual index past the embeddings used. An
/// embedding outside the matrix is an error and leaves the slot as it was.
pub fn vl_forward_remaining(work: &mut PendingWork, image_pad_id: u32) -> (r: Result<
    Vec<VlToken>,
    &'static str,
>)
    requires
        vl_step_fits(*old(work)),
    ensures
        match r {
            Ok(plan) => {
                &&& old(work).vl_prefill is Some
                &&& vl_in_range(*old(work), image_pad_id)
                &&& vl_fed(*old(work), image_pad_id, plan@, *final(work))
            },
            Err(text) => {
                &&& *final(work) == *old(work)
                &&& if old(work).vl_prefill is None {
                    text@ == "vl_forward_remaining: slot has no VL state"@
                } else {
                    &&& !vl_in_range(*old(work), image_pad_id)
                    &&& text@ == "VL embedding slice out of range"@
                }
            },
        },
{
    let ghost p = work.remaining_prompt@;
    let (first, total, dim, held): (usize, usize, usize, usize) = match &work.vl_prefill {
        None => {
            return Err("vl_forward_remaining: slot has no VL state");
        },
        Some(vl) => (vl.visual_idx, vl.n_visual_tokens, vl.dim, vl.embeddings.len()),
    };
    let base: usize = work.next_pos;
    let n: usize = work.remaining_prompt.len();
    let mut visual: usize = first;
    let mut plan: Vec<VlToken> = Vec::new();
    let mut j: usize = 0;
    while j < n
        invariant
            j <= n,
            n == p.len(),
            p == work.remaining_prompt@,
            base + n <= usize::MAX,
            total * dim <= usize::MAX,
            *work == *old(work),
            old(work).vl_prefill is Some,
            visual == visual_at(p, image_pad_id, first as int, total as int, j as int),
            visual <= greatest(first as int, total as int),
            first == old(work).vl_prefill->Some_0.visual_idx,
            total == old(work).vl_prefill->Some_0.n_visual_tokens,
            dim == old(work).vl_prefill->Some_0.dim,
            held == old(work).vl_prefill->Some_0.embeddings@.len(),
            forall|i: int|
                0 <= i < j ==> #[trigger] vl_token_in_range(
                    p,
                    image_pad_id,
                    first as int,
                    total as int,
                    dim as int,
                    held as int,
                    i,
                ),
            plan@ =~= Seq::new(
                j as nat,
                |j: int|
                    vl_token(
                        p,
                        image_pad_id,
                        first as int,
                        total as int,
                        dim as int,
                        base as int,
                        j,
                    ),
            ),
        decreases n - j,
    {
        let token: u32 = work.remaining_prompt[j];
        let pos: usize = base + j;
        if token == image_pad_id && visual < total {
            assert(visual * dim + dim <= total * dim && 0 <= visual * dim) by (
            nonlinear_arith)
                requires
                    0 <= visual < total,
                    0 <= dim,
            ;
            let start: usize = visual * dim;
            if start + dim > held {
                assert(!vl_token_in_range(
                    p,
                    image_pad_id,
                    first as int,
                    total as int,
                    dim as int,
                    held as int,
                    j as int,
                ));
                return Err("VL embedding slice out of range");
            }
            plan.push(VlToken::Embed { start, pos });
            visual = visual + 1;
        } else {
            plan.push(VlToken::Token { id: token, pos });
        }
        j = j + 1;
    }
    work.remaining_prompt.clear();
    work.next_pos = base + n;
    match &mut work.vl_prefill {
        Some(vl) => {
            vl.visual_idx = visual;
        },
        None => {},
    }
    Ok(plan)
}

/// What the sequential image path does with a slot next.
#[derive(Debug, PartialEq, Eq)]
pub enum VlSequentialStep {
    /// Run the vision encoder on the slot's patches and hand its outcome to
    /// `vl_encoded`; the sampler starts anew from the request's seed.
    Encode,
    /// Feed these tokens.
    Feed(Vec<VlToken>),
}

/// What a sequential image step makes of a slot: it asks for the embeddings
/// where there are none yet, and feeds the prompt where there are.
pub open spec fn vl_stepped(
    before: PendingWork,
    pad: u32,
    has_weights: bool,
    has_config: bool,
    r: Result<VlSequentialStep, &'static str>,
    after: PendingWork,
) -> bool {
    match r {
        Ok(VlSequentialStep::Encode) => {
            &&& after == before
            &&& before.vl_prefill is Some
            &&& before.vl_prefill->Some_0.embeddings@.len() == 0
            &&& has_weights
            &&& has_config
        },
        Ok(VlSequentialStep::Feed(plan)) => {
            &&& before.vl_prefill is Some
            &&& before.vl_prefill->Some_0.embeddings@.len() > 0
            &&& vl_in_range(before, pad)
            &&& vl_fed(before, pad, plan@, after)
        },
        Err(text) => {
            &&& after == before
            &&& match before.vl_prefill {
                None => text@ == "vl_forward_remaining: slot has no VL state"@,
                Some(vl) => if vl.embeddings@.len() > 0 {
                    &&& !vl_in_range(before, pad)
                    &&& text@ == "VL embedding slice out of range"@
                } else if !has_weights {
                    text@ == "VL request but model has no vision encoder"@
                } else {
                    &&& !has_config
                    &&& text@ == "VL request but model has no vision config"@
                },
            }
        },
    }
}

/// One step of the sequential image path. The first step of a request asks for
/// its embeddings; once they are there, the step feeds the whole prompt.
pub fn vl_sequential_step(
    work: &mut PendingWork,
    image_pad_id: u32,
    has_weights: bool,
    has_config: bool,
) -> (r: Result<VlSequentialStep, &'static str>)
    requires
        vl_step_fits(*old(work)),
    ensures
        vl_stepped(*old(work), image_pad_id, has_weights, has_config, r, *final(work)),
{
    let waits: bool = match &work.vl_prefill {
        Some(vl) => vl.embeddings.len() == 0,
        None => false,
    };
    if waits {
        if !has_weights {
            return Err("VL request but model has no vision encoder");
        }
        if !has_config {
            return Err("VL request but model has no vision config");
        }
        return Ok(VlSequentialStep::Encode);
    }
    match vl_forward_remaining(work, image_pad_id) {
        Ok(plan) => Ok(VlSequentialStep::Feed(plan)),
        Err(text) => Err(text),
    }
}

/// `after` is `before` with these embeddings and without its patches.
pub open spec fn vl_holds(
    before: PendingWork,
    values: Seq<u32>,
    dim: usize,
    after: PendingWork,
) -> bool {
    let vl = after.vl_prefill->Some_0;
    &&& before.vl_prefill is Some
    &&& after.vl_prefill is Some
    &&& vl.embeddings@ == values
    &&& vl.patches@.len() == 0
    &&& vl == (VlPrefill {
        embeddings: vl.embeddings,
        dim,
        patches: vl.patches,
        ..before.vl_prefill->Some_0
    })
    &&& after == (PendingWork { vl_prefill: after.vl_prefill, ..before })
}

/// Takes what the vision encoder gave for a slot. The embeddings replace the
/// patches; a failure leaves the slot as it was.
pub fn vl_encoded(work: &mut PendingWork, outcome: Result<Vec<u32>, String>, dim: usize) -> (r:
    Result<(), String>)
    ensures
        match r {
            Ok(_) => outcome is Ok && vl_holds(*old(work), outcome->Ok_0@, dim, *final(work)),
            Err(text) => {
                &&& *final(work) == *old(work)
                &&& if old(work).vl_prefill is None {
                    text@ == "vl_forward_remaining: slot has no VL state"@
                } else {
                    &&& outcome is Err
                    &&& text@ == "vision_forward: "@ + outcome->Err_0@
                }
            },
        },
{
    match &mut work.vl_prefill {
        None => Err(String::from_str("vl_forward_remaining: slot has no VL state")),
        Some(vl) => match outcome {
            Ok(values) => {
                vl.embeddings = values;
                vl.dim = dim;
                vl.patches.clear();
                Ok(())
            },
            Err(reason) => {
                let mut text: String = String::from_str("vision_forward: ");
                text.append(reason.as_str());
                Err(text)
            },
        },
    }
}

/// An encoded request is fed: after the encoder gave an embedding for every
/// visual token, the slot's next step feeds the whole prompt, whatever pads it
/// holds.
pub proof fn law_encoded_images_are_fed(
    fresh: PendingWork,
    values: Seq<u32>,
    dim: usize,
    encoded: PendingWork,
    pad: u32,
    has_weights: bool,
    has_config: bool,
    r: Result<VlSequentialStep, &'static str>,
    after: PendingWork,
)
    requires
        vl_holds(fresh, values, dim, encoded),
        values.len() > 0,
        values.len() >= fresh.vl_prefill->Some_0.n_visual_tokens * dim,
        vl_stepped(encoded, pad, has_weights, has_config, r, after),
    ensures
        r is Ok,
        r->Ok_0 is Feed,
        vl_fed(encoded, pad, r->Ok_0->Feed_0@, after),
{
    let vl = encoded.vl_prefill->Some_0;
    let p = encoded.remaining_prompt@;
    assert forall|j: int| 0 <= j < p.len() implies #[trigger] vl_token_in_range(
        p,
        pad,
        vl.visual_idx as int,
        vl.n_visual_tokens as int,
        vl.dim as int,
        vl.embeddings@.len() as int,
        j,
    ) by {
        let v = visual_at(p, pad, vl.visual_idx as int, vl.n_visual_tokens as int, j);
        let n = vl.n_visual_tokens as int;
        let d = dim as int;
        if v < n {
            assert(v * d + d <= n * d) by (nonlinear_arith)
                requires
                    v < n,
                    0 <= d,
            ;
        }
    }
}

// ---- Laws of speculation, over the slot before and after ----

/// A slot that can speculate does: with a head, an occupied slot that speculates,
/// decodes and holds a token drafts from the newest one at its next position, as
/// long as the draft and its seed fit the context; where they do not, it goes
/// back to plain decoding with that token.
pub proof fn law_slots_draft_from_their_newest_token(
    w: PendingWork,
    mtp_k: usize,
    cap_tokens: usize,
    r: DraftStep,
    after: PendingWork,
)
    requires
        draft_decided(w, true, true, mtp_k, cap_tokens, r, after),
        mtp_k > 0,
        w.mtp_active,
        w.decoding,
        w.remaining_prompt@.len() > 0,
    ensures
        w.next_pos + mtp_k < cap_tokens ==> r == (DraftStep::Draft {
            seed: w.remaining_prompt@[w.remaining_prompt@.len() - 1],
            pos: w.next_pos,
        }) && after.mtp_active,
        w.next_pos + mtp_k >= cap_tokens ==> r == DraftStep::Retired && !after.mtp_active
            && after.remaining_prompt@.len() == 1 && after.remaining_prompt@[0]
            == w.remaining_prompt@[w.remaining_prompt@.len() - 1],
{
}

/// A slot that does not speculate is left as it is.
pub proof fn law_plain_slots_do_not_draft(
    w: PendingWork,
    occupied: bool,
    head_loaded: bool,
    mtp_k: usize,
    cap_tokens: usize,
    r: DraftStep,
    after: PendingWork,
)
    requires
        draft_decided(w, occupied, head_loaded, mtp_k, cap_tokens, r, after),
        !occupied || !head_loaded || mtp_k == 0 || !w.mtp_active || !w.decoding
            || w.remaining_prompt@.len() == 0,
    ensures
        r == DraftStep::Skip,
        after == w,
{
}

/// The newest token is never lost: after the draft phase it is the draft's seed or
/// still with the slot, the slot's place is unchanged, and a dropped draft gives
/// its seed back as the only token to feed.
pub proof fn law_seeds_are_never_lost(
    w: PendingWork,
    occupied: bool,
    head_loaded: bool,
    mtp_k: usize,
    cap_tokens: usize,
    r: DraftStep,
    after: PendingWork,
    seed: u32,
    back: PendingWork,
)
    requires
        draft_decided(w, occupied, head_loaded, mtp_k, cap_tokens, r, after),
        w.remaining_prompt@.len() > 0,
        seed_back(after, back, seed),
    ensures
        match r {
            DraftStep::Draft { seed: s, pos } => s == w.remaining_prompt@.last() && pos
                == after.next_pos && after.remaining_prompt@.len() == 0,
            _ => after.remaining_prompt@.len() > 0 && after.remaining_prompt@.last()
                == w.remaining_prompt@.last(),
        },
        after.next_pos == w.next_pos,
        after.decoding == w.decoding,
        after.slot == w.slot,
        after.pos3_delta == w.pos3_delta,
        back.remaining_prompt@.len() == 1,
        back.remaining_prompt@[0] == seed,
        back.next_pos == after.next_pos,
        back.mtp_active == after.mtp_active,
        back.decoding == after.decoding,
{
}

/// A slot retires exactly with the second window in a row of 32 cycles whose mean
/// advance is below 2.2.
pub proof fn law_slots_retire_after_two_bad_windows(w: PendingWork, committed: int)
    requires
        w.mtp_cycles < 32,
        committed >= 0,
    ensures
        retires(w, committed) <==> w.mtp_cycles == 31 && w.mtp_retire_fails >= 1 && 10 * (
        w.mtp_committed + committed) < 704,
        window_full(w) <==> w.mtp_cycles == 31,
        window_fails(w, committed) && w.mtp_cycles == 31 <==> 10 * (w.mtp_committed + committed)
            < 704 && w.mtp_cycles == 31,
{
}

proof fn lemma_visual_without_pads(p: Seq<u32>, pad: u32, first: int, total: int, j: int, k: int)
    requires
        0 <= j <= k,
        forall|x: int| j <= x < k ==> p[x] != pad,
    ensures
        visual_at(p, pad, first, total, j) == visual_at(p, pad, first, total, k),
    decreases k,
{
    if j < k {
        lemma_visual_without_pads(p, pad, first, total, j, k - 1);
    }
}

/// A sequential image step feeds every token once, in order: token `j` goes in at
/// the `j`-th position, a token that is no image pad from the table, and the slot
/// goes on behind the last one.
pub proof fn law_sequential_steps_feed_every_token(
    before: PendingWork,
    pad: u32,
    plan: Seq<VlToken>,
    after: PendingWork,
    j: int,
)
    requires
        vl_fed(before, pad, plan, after),
        before.vl_prefill is Some,
        before.next_pos + before.remaining_prompt@.len() <= usize::MAX,
        0 <= j < before.remaining_prompt@.len(),
    ensures
        plan.len() == before.remaining_prompt@.len(),
        match plan[j] {
            VlToken::Token { id, pos } => id == before.remaining_prompt@[j] && pos
                == before.next_pos + j,
            VlToken::Embed { pos, .. } => before.remaining_prompt@[j] == pad && pos
                == before.next_pos + j,
        },
        after.remaining_prompt@.len() == 0,
        after.next_pos == before.next_pos + before.remaining_prompt@.len(),
        after.decoding == before.decoding,
        after.slot == before.slot,
{
}

/// Image pads take the visual tokens one by one: the first pad takes the slot's
/// next one, and the pad after another takes the one after, as long as there are
/// any; a pad past them goes in as a token.
pub proof fn law_sequential_pads_take_embeddings_in_order(
    before: PendingWork,
    pad: u32,
    plan: Seq<VlToken>,
    after: PendingWork,
    j: int,
    k: int,
)
    requires
        vl_fed(before, pad, plan, after),
        before.vl_prefill is Some,
        vl_step_fits(before),
        0 <= j < k < before.remaining_prompt@.len(),
        before.remaining_prompt@[j] == pad,
        before.remaining_prompt@[k] == pad,
        forall|x: int| j < x < k ==> before.remaining_prompt@[x] != pad,
    ensures
        ({
            let vl = before.vl_prefill->Some_0;
            let first = forall|x: int| 0 <= x < j ==> before.remaining_prompt@[x] != pad;
            &&& first && vl.visual_idx < vl.n_visual_tokens ==> plan[j] is Embed
                && plan[j]->Embed_start == vl.visual_idx * vl.dim
            &&& plan[k] is Embed ==> plan[j] is Embed && plan[k]->Embed_start
                == plan[j]->Embed_start + vl.dim
            &&& first && vl.visual_idx + 1 < vl.n_visual_tokens ==> plan[k] is Embed
            &&& vl.visual_idx >= vl.n_visual_tokens ==> plan[j] is Token && plan[k] is Token
        }),
{
    let vl = before.vl_prefill->Some_0;
    let p = before.remaining_prompt@;
    let first = vl.visual_idx as int;
    let total = vl.n_visual_tokens as int;
    let d = vl.dim as int;
    lemma_visual_without_pads(p, pad, first, total, j + 1, k);
    if forall|x: int| 0 <= x < j ==> p[x] != pad {
        lemma_visual_without_pads(p, pad, first, total, 0, j);
    }
    lemma_visual_at_bounds(p, pad, first, total, j);
    lemma_visual_at_bounds(p, pad, first, total, k);
    let v = visual_at(p, pad, first, total, j);
    assert(v < total ==> 0 <= v * d && v * d + d <= total * d) by (nonlinear_arith)
        requires
            0 <= v,
            0 <= d,
    ;
    assert((v + 1) * d == v * d + d) by (nonlinear_arith);
    let u = visual_at(p, pad, first, total, k);
    assert(u < total ==> 0 <= u * d && u * d + d <= total * d) by (nonlinear_arith)
        requires
            0 <= u,
            0 <= d,
    ;
}

proof fn lemma_visual_at_bounds(p: Seq<u32>, pad: u32, first: int, total: int, j: int)
    requires
        0 <= j,
        0 <= first,
    ensures
        first <= visual_at(p, pad, first, total, j),
        first >= total ==> visual_at(p, pad, first, total, j) == first,
    decreases j,
{
    if j > 0 {
        lemma_visual_at_bounds(p, pad, first, total, j - 1);
    }
}

/// An encoded image takes the place of its patches and leaves the rest of the
/// request alone.
pub proof fn law_embeddings_replace_the_patches(
    before: PendingWork,
    values: Seq<u32>,
    dim: usize,
    after: PendingWork,
)
    requires
        vl_holds(before, values, dim, after),
    ensures
        after.vl_prefill is Some,
        after.vl_prefill->Some_0.embeddings@ == values,
        after.vl_prefill->Some_0.dim == dim,
        after.vl_prefill->Some_0.patches@.len() == 0,
        after.vl_prefill->Some_0.visual_idx == before.vl_prefill->Some_0.visual_idx,
        after.vl_prefill->Some_0.n_visual_tokens == before.vl_prefill->Some_0.n_visual_tokens,
        after.remaining_prompt == before.remaining_prompt,
        after.next_pos == before.next_pos,
{
}

/// A step asks for the encoder exactly where there is an image without embeddings
/// and a model to encode it, and changes nothing then.
pub proof fn law_images_without_embeddings_are_encoded(
    before: PendingWork,
    pad: u32,
    r: Result<VlSequentialStep, &'static str>,
    after: PendingWork,
)
    requires
        vl_stepped(before, pad, true, true, r, after),
        before.vl_prefill is Some,
    ensures
        before.vl_prefill->Some_0.embeddings@.len() == 0 <==> r is Ok && r->Ok_0 is Encode,
        before.vl_prefill->Some_0.embeddings@.len() == 0 ==> after == before,
{
}

/// An image without enough embeddings is not fed: where the first pad of a prompt
/// needs one that the matrix does not hold, the step is an error and changes
/// nothing.
pub proof fn law_short_matrices_are_refused(
    before: PendingWork,
    pad: u32,
    r: Result<VlSequentialStep, &'static str>,
    after: PendingWork,
    j: int,
)
    requires
        vl_stepped(before, pad, true, true, r, after),
        before.vl_prefill is Some,
        before.vl_prefill->Some_0.embeddings@.len() > 0,
        0 <= j < before.remaining_prompt@.len(),
        before.remaining_prompt@[j] == pad,
        forall|x: int| 0 <= x < j ==> before.remaining_prompt@[x] != pad,
        before.vl_prefill->Some_0.visual_idx < before.vl_prefill->Some_0.n_visual_tokens,
        (before.vl_prefill->Some_0.visual_idx + 1) * before.vl_prefill->Some_0.dim
            > before.vl_prefill->Some_0.embeddings@.len(),
    ensures
        r is Err,
        r->Err_0@ == "VL embedding slice out of range"@,
        after == before,
{
    let vl = before.vl_prefill->Some_0;
    let p = before.remaining_prompt@;
    let (first, total) = (vl.visual_idx as int, vl.n_visual_tokens as int);
    lemma_visual_without_pads(p, pad, first, total, 0, j);
    let d = vl.dim as int;
    assert((first + 1) * d == first * d + d) by (nonlinear_arith);
    assert(!vl_token_in_range(p, pad, first, total, d, vl.embeddings@.len() as int, j));
}

} // verus!
