//! The order in which device memory is given back: when a rig cannot be built
//! to its end, when it is taken down, and when a loaded model is dropped.

use crate::text::join3;
use vstd::prelude::*;

verus! {

/// A part of the rig that is released on its own.
#[derive(Debug, Clone, Copy, PartialEq, Eq, Structural)]
pub enum RigPart {
    Graph,
    RepeatWindow(usize),
    OutTokens,
    Logits,
    Scratch,
    BatchScratch,
    DescriptorStaging,
    KvTier,
    RecurrentState(usize),
    VArena(usize),
    KArena(usize),
    Weights,
    Head,
    HeadState(usize),
    HeadScratch,
    HeadRotation,
    VerifyTape,
    HeadHidden,
    VisionWeights,
    VisionMatrix(usize),
    VisionJob(usize),
    Checkpoints,
    WeightCaches,
    GraphState,
    Pool,
}

/// Parts of which there are several.
#[derive(Debug, Clone, Copy, PartialEq, Eq, Structural)]
pub enum PartKind {
    RepeatWindow,
    RecurrentState,
    VArena,
    KArena,
    HeadState,
    VisionMatrix,
    VisionJob,
}

/// Part `i` of a kind.
pub open spec fn part_of(kind: PartKind, i: int) -> RigPart {
    match kind {
        PartKind::RepeatWindow => RigPart::RepeatWindow(i as usize),
        PartKind::RecurrentState => RigPart::RecurrentState(i as usize),
        PartKind::VArena => RigPart::VArena(i as usize),
        PartKind::KArena => RigPart::KArena(i as usize),
        PartKind::HeadState => RigPart::HeadState(i as usize),
        PartKind::VisionMatrix => RigPart::VisionMatrix(i as usize),
        PartKind::VisionJob => RigPart::VisionJob(i as usize),
    }
}

/// The part, if it is there.
pub open spec fn only_if(there: bool, p: RigPart) -> Seq<RigPart> {
    if there {
        seq![p]
    } else {
        Seq::empty()
    }
}

/// `n` parts of a kind, last taken first.
pub open spec fn downward(kind: PartKind, n: int) -> Seq<RigPart>
    decreases n,
{
    if n <= 0 {
        Seq::empty()
    } else {
        seq![part_of(kind, n - 1)] + downward(kind, n - 1)
    }
}

/// The parts of a kind that are there among the first `n`, in order.
pub open spec fn present(kind: PartKind, there: Seq<bool>, n: int) -> Seq<RigPart>
    decreases n,
{
    if n <= 0 {
        Seq::empty()
    } else {
        present(kind, there, n - 1) + only_if(there[n - 1], part_of(kind, n - 1))
    }
}

/// The arenas of `n` layers: last layer first, and the values of a layer before
/// its keys, the reverse of how they were taken.
pub open spec fn arenas_downward(n: int) -> Seq<RigPart>
    decreases n,
{
    if n <= 0 {
        Seq::empty()
    } else {
        seq![RigPart::VArena((n - 1) as usize), RigPart::KArena((n - 1) as usize)]
            + arenas_downward(n - 1)
    }
}

fn push_if(out: &mut Vec<RigPart>, there: bool, p: RigPart)
    ensures
        final(out)@ == old(out)@ + only_if(there, p),
{
    let ghost before = out@;
    if there {
        out.push(p);
    }
    assert(out@ =~= before + only_if(there, p));
}

fn push_one(out: &mut Vec<RigPart>, p: RigPart)
    ensures
        final(out)@ == old(out)@ + seq![p],
{
    let ghost before = out@;
    out.push(p);
    assert(out@ =~= before + seq![p]);
}

fn make_part(kind: PartKind, i: usize) -> (p: RigPart)
    ensures
        p == part_of(kind, i as int),
{
    match kind {
        PartKind::RepeatWindow => RigPart::RepeatWindow(i),
        PartKind::RecurrentState => RigPart::RecurrentState(i),
        PartKind::VArena => RigPart::VArena(i),
        PartKind::KArena => RigPart::KArena(i),
        PartKind::HeadState => RigPart::HeadState(i),
        PartKind::VisionMatrix => RigPart::VisionMatrix(i),
        PartKind::VisionJob => RigPart::VisionJob(i),
    }
}

fn push_downward(out: &mut Vec<RigPart>, kind: PartKind, n: usize)
    ensures
        final(out)@ == old(out)@ + downward(kind, n as int),
{
    let ghost before = out@;
    let mut left: usize = n;
    while left > 0
        invariant
            left <= n,
            out@ + downward(kind, left as int) == before + downward(kind, n as int),
        decreases left,
    {
        let ghost mid = out@;
        left = left - 1;
        out.push(make_part(kind, left));
        assert(out@ + downward(kind, left as int) =~= mid + downward(kind, left + 1));
    }
    assert(out@ + downward(kind, 0) =~= out@);
}

fn push_present(out: &mut Vec<RigPart>, kind: PartKind, there: &[bool])
    ensures
        final(out)@ == old(out)@ + present(kind, there@, there@.len() as int),
{
    let ghost before = out@;
    let mut i: usize = 0;
    assert(before + present(kind, there@, 0) =~= before);
    while i < there.len()
        invariant
            i <= there@.len(),
            out@ == before + present(kind, there@, i as int),
        decreases there@.len() - i,
    {
        push_if(out, there[i], make_part(kind, i));
        i = i + 1;
        assert(out@ =~= before + present(kind, there@, i as int));
    }
}

fn push_arenas(out: &mut Vec<RigPart>, n: usize)
    ensures
        final(out)@ == old(out)@ + arenas_downward(n as int),
{
    let ghost before = out@;
    let mut left: usize = n;
    while left > 0
        invariant
            left <= n,
            out@ + arenas_downward(left as int) == before + arenas_downward(n as int),
        decreases left,
    {
        let ghost mid = out@;
        left = left - 1;
        out.push(RigPart::VArena(left));
        out.push(RigPart::KArena(left));
        assert(out@ + arenas_downward(left as int) =~= mid + arenas_downward(left + 1));
    }
    assert(out@ + arenas_downward(0) =~= out@);
}

// ---- A build that fails ----

/// How far a build has come once the weights are loaded.
#[derive(Debug, Clone, Copy, PartialEq, Eq, Structural)]
pub struct BuildProgress {
    pub head_hidden: bool,
    pub verify_tape: bool,
    pub head_rotation: bool,
    pub head_scratch: bool,
    pub repeat_windows: usize,
    pub out_tokens: bool,
    pub logits: bool,
    pub scratch: bool,
    pub batch_scratch: bool,
    pub descriptor_staging: bool,
    pub recurrent_states: usize,
    pub v_arenas: usize,
    pub k_arenas: usize,
    pub kv_tier: bool,
    pub head: bool,
    pub vision: bool,
}

/// What the speculative head has of its own, last taken first.
pub open spec fn head_back(p: BuildProgress) -> Seq<RigPart> {
    only_if(p.head_hidden, RigPart::HeadHidden) + only_if(p.verify_tape, RigPart::VerifyTape)
        + only_if(p.head_rotation, RigPart::HeadRotation) + only_if(
        p.head_scratch,
        RigPart::HeadScratch,
    )
}

/// The step's buffers, last taken first.
pub open spec fn buffers_back(p: BuildProgress) -> Seq<RigPart> {
    downward(PartKind::RepeatWindow, p.repeat_windows as int) + only_if(
        p.out_tokens,
        RigPart::OutTokens,
    ) + only_if(p.logits, RigPart::Logits) + only_if(p.scratch, RigPart::Scratch) + only_if(
        p.batch_scratch,
        RigPart::BatchScratch,
    ) + only_if(p.descriptor_staging, RigPart::DescriptorStaging)
}

/// The slots' states and caches, last taken first.
pub open spec fn caches_back(p: BuildProgress) -> Seq<RigPart> {
    downward(PartKind::RecurrentState, p.recurrent_states as int) + downward(
        PartKind::VArena,
        p.v_arenas as int,
    ) + downward(PartKind::KArena, p.k_arenas as int) + only_if(p.kv_tier, RigPart::KvTier)
}

/// The weights, and at last what the device keeps for itself.
pub open spec fn model_back(p: BuildProgress) -> Seq<RigPart> {
    seq![RigPart::Weights] + only_if(p.head, RigPart::Head) + only_if(
        p.vision,
        RigPart::VisionWeights,
    ) + seq![RigPart::WeightCaches] + seq![RigPart::GraphState] + seq![RigPart::Pool]
}

/// What a failed build gives back, and in which order: every stage that was
/// completed, last first.
pub open spec fn rollback(p: BuildProgress) -> Seq<RigPart> {
    head_back(p) + buffers_back(p) + caches_back(p) + model_back(p)
}

fn append(out: &mut Vec<RigPart>, more: &Vec<RigPart>)
    ensures
        final(out)@ == old(out)@ + more@,
{
    let ghost before = out@;
    let mut i: usize = 0;
    while i < more.len()
        invariant
            i <= more@.len(),
            out@ =~= before + more@.take(i as int),
        decreases more@.len() - i,
    {
        out.push(more[i]);
        i = i + 1;
    }
    assert(more@.take(i as int) =~= more@);
}

fn give_back_caches(p: BuildProgress) -> (out: Vec<RigPart>)
    ensures
        out@ == caches_back(p),
{
    let mut out: Vec<RigPart> = Vec::new();
    push_downward(&mut out, PartKind::RecurrentState, p.recurrent_states);
    assert(out@ =~= downward(PartKind::RecurrentState, p.recurrent_states as int));
    push_downward(&mut out, PartKind::VArena, p.v_arenas);
    push_downward(&mut out, PartKind::KArena, p.k_arenas);
    push_if(&mut out, p.kv_tier, RigPart::KvTier);
    out
}

fn give_back_model(p: BuildProgress) -> (out: Vec<RigPart>)
    ensures
        out@ == model_back(p),
{
    let mut out: Vec<RigPart> = Vec::new();
    push_one(&mut out, RigPart::Weights);
    assert(out@ =~= seq![RigPart::Weights]);
    push_if(&mut out, p.head, RigPart::Head);
    push_if(&mut out, p.vision, RigPart::VisionWeights);
    push_one(&mut out, RigPart::WeightCaches);
    push_one(&mut out, RigPart::GraphState);
    push_one(&mut out, RigPart::Pool);
    out
}

fn give_back_buffers(p: BuildProgress) -> (out: Vec<RigPart>)
    ensures
        out@ == buffers_back(p),
{
    let mut out: Vec<RigPart> = Vec::new();
    push_downward(&mut out, PartKind::RepeatWindow, p.repeat_windows);
    assert(out@ =~= downward(PartKind::RepeatWindow, p.repeat_windows as int));
    push_if(&mut out, p.out_tokens, RigPart::OutTokens);
    push_if(&mut out, p.logits, RigPart::Logits);
    push_if(&mut out, p.scratch, RigPart::Scratch);
    push_if(&mut out, p.batch_scratch, RigPart::BatchScratch);
    push_if(&mut out, p.descriptor_staging, RigPart::DescriptorStaging);
    out
}

/// The order in which a failed build is given back.
pub fn rollback_order(p: BuildProgress) -> (r: Vec<RigPart>)
    ensures
        r@ == rollback(p),
{
    let mut out: Vec<RigPart> = Vec::new();
    push_if(&mut out, p.head_hidden, RigPart::HeadHidden);
    assert(out@ =~= only_if(p.head_hidden, RigPart::HeadHidden));
    push_if(&mut out, p.verify_tape, RigPart::VerifyTape);
    push_if(&mut out, p.head_rotation, RigPart::HeadRotation);
    push_if(&mut out, p.head_scratch, RigPart::HeadScratch);
    append(&mut out, &give_back_buffers(p));
    append(&mut out, &give_back_caches(p));
    append(&mut out, &give_back_model(p));
    out
}

// ---- A rig that is taken down ----

/// What a rig holds when it is taken down.
#[derive(Debug)]
pub struct RigHoldings {
    pub n_slots: usize,
    pub n_fa_layers: usize,
    pub head: bool,
    pub head_states: Vec<bool>,
    /// The head's prefill scratch and its rotation buffer.
    pub head_scratch: bool,
    pub verify_tape: bool,
    pub vision: bool,
    pub vision_matrices: Vec<bool>,
    pub vision_jobs: Vec<bool>,
    pub checkpoints: bool,
}

/// What a teardown releases, and in which order. The graph goes before the
/// buffers it captures.
pub open spec fn teardown(h: RigHoldings) -> Seq<RigPart> {
    seq![RigPart::Graph] + downward(PartKind::RepeatWindow, h.n_slots as int) + seq![
        RigPart::OutTokens,
    ] + seq![RigPart::Logits] + seq![RigPart::Scratch] + seq![RigPart::BatchScratch] + seq![
        RigPart::DescriptorStaging,
    ] + seq![RigPart::KvTier] + downward(PartKind::RecurrentState, h.n_slots as int)
        + arenas_downward(h.n_fa_layers as int) + seq![RigPart::Weights] + only_if(
        h.head,
        RigPart::Head,
    ) + present(PartKind::HeadState, h.head_states@, h.head_states@.len() as int) + only_if(
        h.head_scratch,
        RigPart::HeadScratch,
    ) + only_if(h.head_scratch, RigPart::HeadRotation) + only_if(
        h.verify_tape,
        RigPart::VerifyTape,
    ) + seq![RigPart::HeadHidden] + only_if(h.vision, RigPart::VisionWeights) + present(
        PartKind::VisionMatrix,
        h.vision_matrices@,
        h.vision_matrices@.len() as int,
    ) + present(PartKind::VisionJob, h.vision_jobs@, h.vision_jobs@.len() as int) + only_if(
        h.checkpoints,
        RigPart::Checkpoints,
    ) + seq![RigPart::WeightCaches] + seq![RigPart::GraphState] + seq![RigPart::Pool]
}

/// The order in which a rig is taken down.
pub fn teardown_order(h: &RigHoldings) -> (r: Vec<RigPart>)
    ensures
        r@ == teardown(*h),
{
    let mut out: Vec<RigPart> = Vec::new();
    push_one(&mut out, RigPart::Graph);
    assert(out@ =~= seq![RigPart::Graph]);
    push_downward(&mut out, PartKind::RepeatWindow, h.n_slots);
    push_one(&mut out, RigPart::OutTokens);
    push_one(&mut out, RigPart::Logits);
    push_one(&mut out, RigPart::Scratch);
    push_one(&mut out, RigPart::BatchScratch);
    push_one(&mut out, RigPart::DescriptorStaging);
    push_one(&mut out, RigPart::KvTier);
    push_downward(&mut out, PartKind::RecurrentState, h.n_slots);
    push_arenas(&mut out, h.n_fa_layers);
    push_one(&mut out, RigPart::Weights);
    push_if(&mut out, h.head, RigPart::Head);
    push_present(&mut out, PartKind::HeadState, h.head_states.as_slice());
    push_if(&mut out, h.head_scratch, RigPart::HeadScratch);
    push_if(&mut out, h.head_scratch, RigPart::HeadRotation);
    push_if(&mut out, h.verify_tape, RigPart::VerifyTape);
    push_one(&mut out, RigPart::HeadHidden);
    push_if(&mut out, h.vision, RigPart::VisionWeights);
    push_present(&mut out, PartKind::VisionMatrix, h.vision_matrices.as_slice());
    push_present(&mut out, PartKind::VisionJob, h.vision_jobs.as_slice());
    push_if(&mut out, h.checkpoints, RigPart::Checkpoints);
    push_one(&mut out, RigPart::WeightCaches);
    push_one(&mut out, RigPart::GraphState);
    push_one(&mut out, RigPart::Pool);
    out
}

// ---- A loaded model ----

/// A part of a loaded model that holds device memory.
#[derive(Debug, Clone, Copy, PartialEq, Eq, Structural)]
pub enum BundlePart {
    DecodeBatch,
    KvCache,
    Scratch,
    Weights,
    RecurrentState,
    Vision,
}

/// The order in which a loaded model's parts are freed.
pub fn bundle_free_order(has_decode_batch: bool, has_vision: bool) -> (r: Vec<BundlePart>)
    ensures
        r@ == (if has_decode_batch {
            seq![BundlePart::DecodeBatch]
        } else {
            Seq::empty()
        }) + seq![
            BundlePart::KvCache,
            BundlePart::Scratch,
            BundlePart::Weights,
            BundlePart::RecurrentState,
        ] + (if has_vision {
            seq![BundlePart::Vision]
        } else {
            Seq::empty()
        }),
{
    let mut out: Vec<BundlePart> = Vec::new();
    if has_decode_batch {
        out.push(BundlePart::DecodeBatch);
    }
    out.push(BundlePart::KvCache);
    out.push(BundlePart::Scratch);
    out.push(BundlePart::Weights);
    out.push(BundlePart::RecurrentState);
    if has_vision {
        out.push(BundlePart::Vision);
    }
    assert(out@ =~= (if has_decode_batch {
        seq![BundlePart::DecodeBatch]
    } else {
        Seq::empty()
    }) + seq![
        BundlePart::KvCache,
        BundlePart::Scratch,
        BundlePart::Weights,
        BundlePart::RecurrentState,
    ] + (if has_vision {
        seq![BundlePart::Vision]
    } else {
        Seq::empty()
    }));
    out
}

// ---- Errors ----

/// Keeps the first error of a teardown that goes on after failures.
pub fn note_first_error(first: Option<String>, outcome: Result<(), String>) -> (r: Option<String>)
    ensures
        match (first, outcome) {
            (Some(f), _) => r == Some(f),
            (None, Err(e)) => r == Some(e),
            (None, Ok(_)) => r is None,
        },
{
    match first {
        Some(f) => Some(f),
        None => match outcome {
            Err(e) => Some(e),
            Ok(_) => None,
        },
    }
}

/// What a thread that ran `poison` and then freed its rig reports.
pub fn shutdown_result(poison: Option<String>, freed: Result<(), String>) -> (r: Result<
    (),
    String,
>)
    ensures
        match (poison, freed) {
            (Some(p), Ok(_)) => r == Err::<(), String>(p),
            (Some(p), Err(e)) => r is Err && r->Err_0@ == p@ + "; teardown failed: "@ + e@,
            (None, Ok(_)) => r is Ok,
            (None, Err(e)) => r == Err::<(), String>(e),
        },
{
    match (poison, freed) {
        (Some(p), Ok(_)) => Err(p),
        (Some(p), Err(e)) => Err(join3(p.as_str(), "; teardown failed: ", e.as_str())),
        (None, Ok(_)) => Ok(()),
        (None, Err(e)) => Err(e),
    }
}

// ---- Laws ----

/// `s` holds `p`.
#[verifier::opaque]
spec fn holds(s: Seq<RigPart>, p: RigPart) -> bool {
    s.contains(p)
}

proof fn lemma_in_sum(a: Seq<RigPart>, b: Seq<RigPart>, p: RigPart)
    requires
        holds(a, p) || holds(b, p),
    ensures
        holds(a + b, p),
{
    reveal(holds);
    if a.contains(p) {
        let k = choose|k: int| 0 <= k < a.len() && a[k] == p;
        assert((a + b)[k] == p);
    } else {
        let k = choose|k: int| 0 <= k < b.len() && b[k] == p;
        assert((a + b)[a.len() + k] == p);
    }
}

/// The build has taken this part.
pub open spec fn completed(p: BuildProgress, x: RigPart) -> bool {
    match x {
        RigPart::HeadHidden => p.head_hidden,
        RigPart::VerifyTape => p.verify_tape,
        RigPart::HeadRotation => p.head_rotation,
        RigPart::HeadScratch => p.head_scratch,
        RigPart::RepeatWindow(i) => i < p.repeat_windows,
        RigPart::OutTokens => p.out_tokens,
        RigPart::Logits => p.logits,
        RigPart::Scratch => p.scratch,
        RigPart::BatchScratch => p.batch_scratch,
        RigPart::DescriptorStaging => p.descriptor_staging,
        RigPart::RecurrentState(i) => i < p.recurrent_states,
        RigPart::VArena(i) => i < p.v_arenas,
        RigPart::KArena(i) => i < p.k_arenas,
        RigPart::KvTier => p.kv_tier,
        RigPart::Weights => true,
        RigPart::Head => p.head,
        RigPart::VisionWeights => p.vision,
        _ => false,
    }
}

/// What the device keeps for itself: released by every rollback.
pub open spec fn device_own(x: RigPart) -> bool {
    x is WeightCaches || x is GraphState || x is Pool
}

proof fn lemma_only_if(there: bool, p: RigPart, x: RigPart)
    ensures
        holds(only_if(there, p), x) == (there && x == p),
{
    reveal(holds);
    if there {
        assert(only_if(there, p)[0] == p);
    }
}

proof fn lemma_one(p: RigPart, x: RigPart)
    ensures
        holds(seq![p], x) == (x == p),
{
    reveal(holds);
    assert(seq![p][0] == p);
}

proof fn lemma_downward_holds(kind: PartKind, n: int, x: RigPart)
    requires
        n <= usize::MAX,
    ensures
        holds(downward(kind, n), x) == exists|i: int| 0 <= i < n && x == #[trigger] part_of(kind, i),
    decreases n,
{
    reveal(holds);
    if n > 0 {
        lemma_downward_holds(kind, n - 1, x);
        lemma_sum(seq![part_of(kind, n - 1)], downward(kind, n - 1), x);
        lemma_one(part_of(kind, n - 1), x);
        if exists|i: int| 0 <= i < n && x == #[trigger] part_of(kind, i) {
            let i = choose|i: int| 0 <= i < n && x == #[trigger] part_of(kind, i);
            if i < n - 1 {
                assert(x == part_of(kind, i));
            }
        }
    }
}

proof fn lemma_sum(a: Seq<RigPart>, b: Seq<RigPart>, x: RigPart)
    ensures
        holds(a + b, x) == (holds(a, x) || holds(b, x)),
{
    if holds(a, x) || holds(b, x) {
        lemma_in_sum(a, b, x);
    }
    if holds(a + b, x) {
        reveal(holds);
        let k = choose|k: int| 0 <= k < (a + b).len() && (a + b)[k] == x;
        if k < a.len() {
            assert(a[k] == x);
        } else {
            assert(b[k - a.len()] == x);
        }
    }
}

proof fn lemma_head_holds(p: BuildProgress, x: RigPart)
    ensures
        holds(head_back(p), x) == (completed(p, x) && (x is HeadHidden || x is VerifyTape || x
            is HeadRotation || x is HeadScratch)),
{
    let a = only_if(p.head_hidden, RigPart::HeadHidden);
    let b = only_if(p.verify_tape, RigPart::VerifyTape);
    let c = only_if(p.head_rotation, RigPart::HeadRotation);
    let d = only_if(p.head_scratch, RigPart::HeadScratch);
    lemma_only_if(p.head_hidden, RigPart::HeadHidden, x);
    lemma_only_if(p.verify_tape, RigPart::VerifyTape, x);
    lemma_only_if(p.head_rotation, RigPart::HeadRotation, x);
    lemma_only_if(p.head_scratch, RigPart::HeadScratch, x);
    lemma_sum(a, b, x);
    lemma_sum(a + b, c, x);
    lemma_sum(a + b + c, d, x);
}

proof fn lemma_buffers_hold(p: BuildProgress, x: RigPart)
    ensures
        holds(buffers_back(p), x) == (completed(p, x) && (x is RepeatWindow || x is OutTokens || x
            is Logits || x is Scratch || x is BatchScratch || x is DescriptorStaging)),
{
    let s0 = downward(PartKind::RepeatWindow, p.repeat_windows as int);
    let p1 = only_if(p.out_tokens, RigPart::OutTokens);
    let p2 = only_if(p.logits, RigPart::Logits);
    let p3 = only_if(p.scratch, RigPart::Scratch);
    let p4 = only_if(p.batch_scratch, RigPart::BatchScratch);
    let p5 = only_if(p.descriptor_staging, RigPart::DescriptorStaging);
    lemma_downward_holds(PartKind::RepeatWindow, p.repeat_windows as int, x);
    if x is RepeatWindow {
        assert(x == part_of(PartKind::RepeatWindow, x->RepeatWindow_0 as int));
    }
    lemma_only_if(p.out_tokens, RigPart::OutTokens, x);
    lemma_only_if(p.logits, RigPart::Logits, x);
    lemma_only_if(p.scratch, RigPart::Scratch, x);
    lemma_only_if(p.batch_scratch, RigPart::BatchScratch, x);
    lemma_only_if(p.descriptor_staging, RigPart::DescriptorStaging, x);
    lemma_sum(s0, p1, x);
    lemma_sum(s0 + p1, p2, x);
    lemma_sum(s0 + p1 + p2, p3, x);
    lemma_sum(s0 + p1 + p2 + p3, p4, x);
    lemma_sum(s0 + p1 + p2 + p3 + p4, p5, x);
}

proof fn lemma_caches_hold(p: BuildProgress, x: RigPart)
    ensures
        holds(caches_back(p), x) == (completed(p, x) && (x is RecurrentState || x is VArena || x
            is KArena || x is KvTier)),
{
    let g = downward(PartKind::RecurrentState, p.recurrent_states as int);
    let v = downward(PartKind::VArena, p.v_arenas as int);
    let k = downward(PartKind::KArena, p.k_arenas as int);
    let t = only_if(p.kv_tier, RigPart::KvTier);
    lemma_downward_holds(PartKind::RecurrentState, p.recurrent_states as int, x);
    lemma_downward_holds(PartKind::VArena, p.v_arenas as int, x);
    lemma_downward_holds(PartKind::KArena, p.k_arenas as int, x);
    if x is RecurrentState {
        assert(x == part_of(PartKind::RecurrentState, x->RecurrentState_0 as int));
    }
    if x is VArena {
        assert(x == part_of(PartKind::VArena, x->VArena_0 as int));
    }
    if x is KArena {
        assert(x == part_of(PartKind::KArena, x->KArena_0 as int));
    }
    lemma_only_if(p.kv_tier, RigPart::KvTier, x);
    lemma_sum(g, v, x);
    lemma_sum(g + v, k, x);
    lemma_sum(g + v + k, t, x);
}

proof fn lemma_model_holds(p: BuildProgress, x: RigPart)
    ensures
        holds(model_back(p), x) == (device_own(x) || completed(p, x) && (x is Weights || x is Head
            || x is VisionWeights)),
{
    let w = seq![RigPart::Weights];
    let h = only_if(p.head, RigPart::Head);
    let v = only_if(p.vision, RigPart::VisionWeights);
    let c = seq![RigPart::WeightCaches];
    let g = seq![RigPart::GraphState];
    let o = seq![RigPart::Pool];
    lemma_one(RigPart::Weights, x);
    lemma_only_if(p.head, RigPart::Head, x);
    lemma_only_if(p.vision, RigPart::VisionWeights, x);
    lemma_one(RigPart::WeightCaches, x);
    lemma_one(RigPart::GraphState, x);
    lemma_one(RigPart::Pool, x);
    lemma_sum(w, h, x);
    lemma_sum(w + h, v, x);
    lemma_sum(w + h + v, c, x);
    lemma_sum(w + h + v + c, g, x);
    lemma_sum(w + h + v + c + g, o, x);
}

/// A failed build leaks nothing: each part that it has taken is given back, and
/// nothing else is but what the device keeps for itself.
pub proof fn law_rollback_leaks_nothing(p: BuildProgress, x: RigPart)
    ensures
        rollback(p).contains(x) <==> completed(p, x) || device_own(x),
{
    let a = head_back(p);
    let b = buffers_back(p);
    let c = caches_back(p);
    let d = model_back(p);
    lemma_head_holds(p, x);
    lemma_buffers_hold(p, x);
    lemma_caches_hold(p, x);
    lemma_model_holds(p, x);
    lemma_sum(a, b, x);
    lemma_sum(a + b, c, x);
    lemma_sum(a + b + c, d, x);
    assert(holds(rollback(p), x) == rollback(p).contains(x)) by {
        reveal(holds);
    }
}

/// The graph goes first: no handle outlives the buffers that it captures.
pub proof fn law_graph_goes_first(h: RigHoldings)
    ensures
        teardown(h).len() > 0,
        teardown(h)[0] == RigPart::Graph,
{
}

/// The rig holds this part.
pub open spec fn held_by(h: RigHoldings, x: RigPart) -> bool {
    match x {
        RigPart::RepeatWindow(i) => i < h.n_slots,
        RigPart::RecurrentState(i) => i < h.n_slots,
        RigPart::VArena(i) => i < h.n_fa_layers,
        RigPart::KArena(i) => i < h.n_fa_layers,
        RigPart::Head => h.head,
        RigPart::HeadState(i) => i < h.head_states@.len() && h.head_states@[i as int],
        RigPart::HeadScratch => h.head_scratch,
        RigPart::HeadRotation => h.head_scratch,
        RigPart::VerifyTape => h.verify_tape,
        RigPart::VisionWeights => h.vision,
        RigPart::VisionMatrix(i) => i < h.vision_matrices@.len() && h.vision_matrices@[i as int],
        RigPart::VisionJob(i) => i < h.vision_jobs@.len() && h.vision_jobs@[i as int],
        RigPart::Checkpoints => h.checkpoints,
        _ => true,
    }
}

proof fn lemma_present_holds(kind: PartKind, there: Seq<bool>, n: int, x: RigPart)
    requires
        0 <= n <= there.len(),
        n <= usize::MAX,
    ensures
        holds(present(kind, there, n), x) == exists|i: int|
            0 <= i < n && there[i] && x == #[trigger] part_of(kind, i),
    decreases n,
{
    reveal(holds);
    if n > 0 {
        lemma_present_holds(kind, there, n - 1, x);
        lemma_sum(
            present(kind, there, n - 1),
            only_if(there[n - 1], part_of(kind, n - 1)),
            x,
        );
        lemma_only_if(there[n - 1], part_of(kind, n - 1), x);
        if exists|i: int| 0 <= i < n && there[i] && x == #[trigger] part_of(kind, i) {
            let i = choose|i: int| 0 <= i < n && there[i] && x == #[trigger] part_of(kind, i);
            if i < n - 1 {
                assert(x == part_of(kind, i));
            }
        }
    }
}

proof fn lemma_arenas_hold(n: int, x: RigPart)
    requires
        0 <= n <= usize::MAX,
    ensures
        holds(arenas_downward(n), x) == match x {
            RigPart::VArena(i) => i < n,
            RigPart::KArena(i) => i < n,
            _ => false,
        },
    decreases n,
{
    if n > 0 {
        let two = seq![RigPart::VArena((n - 1) as usize), RigPart::KArena((n - 1) as usize)];
        lemma_arenas_hold(n - 1, x);
        lemma_sum(two, arenas_downward(n - 1), x);
        assert(holds(two, x) == (x == two[0] || x == two[1])) by {
            reveal(holds);
            if two.contains(x) {
                let k = choose|k: int| 0 <= k < two.len() && two[k] == x;
                assert(k == 0 || k == 1);
            }
            assert(two.contains(two[0]) && two.contains(two[1]));
        }
    } else {
        reveal(holds);
    }
}

/// A teardown leaks nothing: it releases every part that the rig holds, and no
/// other.
pub proof fn law_teardown_releases_everything(h: RigHoldings, x: RigPart)
    ensures
        teardown(h).contains(x) <==> held_by(h, x),
{
    assert(h.head_states.len() == h.head_states@.len());
    assert(h.vision_matrices.len() == h.vision_matrices@.len());
    assert(h.vision_jobs.len() == h.vision_jobs@.len());
    let a0 = seq![RigPart::Graph];
    let a1 = downward(PartKind::RepeatWindow, h.n_slots as int);
    let a2 = seq![RigPart::OutTokens];
    let a3 = seq![RigPart::Logits];
    let a4 = seq![RigPart::Scratch];
    let a5 = seq![RigPart::BatchScratch];
    let a6 = seq![RigPart::DescriptorStaging];
    let a7 = seq![RigPart::KvTier];
    let a8 = downward(PartKind::RecurrentState, h.n_slots as int);
    let a9 = arenas_downward(h.n_fa_layers as int);
    let a10 = seq![RigPart::Weights];
    let a11 = only_if(h.head, RigPart::Head);
    let a12 = present(PartKind::HeadState, h.head_states@, h.head_states@.len() as int);
    let a13 = only_if(h.head_scratch, RigPart::HeadScratch);
    let a14 = only_if(h.head_scratch, RigPart::HeadRotation);
    let a15 = only_if(h.verify_tape, RigPart::VerifyTape);
    let a16 = seq![RigPart::HeadHidden];
    let a17 = only_if(h.vision, RigPart::VisionWeights);
    let a18 = present(
        PartKind::VisionMatrix,
        h.vision_matrices@,
        h.vision_matrices@.len() as int,
    );
    let a19 = present(PartKind::VisionJob, h.vision_jobs@, h.vision_jobs@.len() as int);
    let a20 = only_if(h.checkpoints, RigPart::Checkpoints);
    let a21 = seq![RigPart::WeightCaches];
    let a22 = seq![RigPart::GraphState];
    let a23 = seq![RigPart::Pool];
    lemma_one(RigPart::Graph, x);
    lemma_downward_holds(PartKind::RepeatWindow, h.n_slots as int, x);
    lemma_one(RigPart::OutTokens, x);
    lemma_one(RigPart::Logits, x);
    lemma_one(RigPart::Scratch, x);
    lemma_one(RigPart::BatchScratch, x);
    lemma_one(RigPart::DescriptorStaging, x);
    lemma_one(RigPart::KvTier, x);
    lemma_downward_holds(PartKind::RecurrentState, h.n_slots as int, x);
    lemma_arenas_hold(h.n_fa_layers as int, x);
    lemma_one(RigPart::Weights, x);
    lemma_only_if(h.head, RigPart::Head, x);
    lemma_present_holds(PartKind::HeadState, h.head_states@, h.head_states@.len() as int, x);
    lemma_only_if(h.head_scratch, RigPart::HeadScratch, x);
    lemma_only_if(h.head_scratch, RigPart::HeadRotation, x);
    lemma_only_if(h.verify_tape, RigPart::VerifyTape, x);
    lemma_one(RigPart::HeadHidden, x);
    lemma_only_if(h.vision, RigPart::VisionWeights, x);
    lemma_present_holds(
        PartKind::VisionMatrix,
        h.vision_matrices@,
        h.vision_matrices@.len() as int,
        x,
    );
    lemma_present_holds(PartKind::VisionJob, h.vision_jobs@, h.vision_jobs@.len() as int, x);
    lemma_only_if(h.checkpoints, RigPart::Checkpoints, x);
    lemma_one(RigPart::WeightCaches, x);
    lemma_one(RigPart::GraphState, x);
    lemma_one(RigPart::Pool, x);
    let s1 = a0 + a1;
    let s2 = s1 + a2;
    let s3 = s2 + a3;
    let s4 = s3 + a4;
    let s5 = s4 + a5;
    let s6 = s5 + a6;
    let s7 = s6 + a7;
    let s8 = s7 + a8;
    let s9 = s8 + a9;
    let s10 = s9 + a10;
    let s11 = s10 + a11;
    let s12 = s11 + a12;
    let s13 = s12 + a13;
    let s14 = s13 + a14;
    let s15 = s14 + a15;
    let s16 = s15 + a16;
    let s17 = s16 + a17;
    let s18 = s17 + a18;
    let s19 = s18 + a19;
    let s20 = s19 + a20;
    let s21 = s20 + a21;
    let s22 = s21 + a22;
    let s23 = s22 + a23;
    lemma_sum(a0, a1, x);
    lemma_sum(s1, a2, x);
    lemma_sum(s2, a3, x);
    lemma_sum(s3, a4, x);
    lemma_sum(s4, a5, x);
    lemma_sum(s5, a6, x);
    lemma_sum(s6, a7, x);
    lemma_sum(s7, a8, x);
    lemma_sum(s8, a9, x);
    lemma_sum(s9, a10, x);
    lemma_sum(s10, a11, x);
    lemma_sum(s11, a12, x);
    lemma_sum(s12, a13, x);
    lemma_sum(s13, a14, x);
    lemma_sum(s14, a15, x);
    lemma_sum(s15, a16, x);
    lemma_sum(s16, a17, x);
    lemma_sum(s17, a18, x);
    lemma_sum(s18, a19, x);
    lemma_sum(s19, a20, x);
    lemma_sum(s20, a21, x);
    lemma_sum(s21, a22, x);
    lemma_sum(s22, a23, x);
    match x {
        RigPart::RepeatWindow(i) => {
            assert(x == part_of(PartKind::RepeatWindow, i as int));
        },
        RigPart::RecurrentState(i) => {
            assert(x == part_of(PartKind::RecurrentState, i as int));
        },
        RigPart::HeadState(i) => {
            assert(x == part_of(PartKind::HeadState, i as int));
        },
        RigPart::VisionMatrix(i) => {
            assert(x == part_of(PartKind::VisionMatrix, i as int));
        },
        RigPart::VisionJob(i) => {
            assert(x == part_of(PartKind::VisionJob, i as int));
        },
        _ => {},
    }
    assert(teardown(h) == s23);
    assert(holds(s23, x) == s23.contains(x)) by {
        reveal(holds);
    }
}

proof fn lemma_downward_at(kind: PartKind, n: int, i: int)
    ensures
        downward(kind, n).len() == if n > 0 {
            n
        } else {
            0
        },
        0 <= i < n ==> downward(kind, n)[i] == part_of(kind, n - 1 - i),
    decreases n,
{
    if n > 0 {
        lemma_downward_at(kind, n - 1, i - 1);
    }
}

/// One for a part that is there.
pub open spec fn one_if(there: bool) -> int {
    if there {
        1
    } else {
        0
    }
}

proof fn lemma_head_len(p: BuildProgress)
    ensures
        head_back(p).len() == one_if(p.head_hidden) + one_if(p.verify_tape) + one_if(
            p.head_rotation,
        ) + one_if(p.head_scratch),
{
}

proof fn lemma_buffers_len(p: BuildProgress)
    ensures
        buffers_back(p).len() == p.repeat_windows + one_if(p.out_tokens) + one_if(p.logits)
            + one_if(p.scratch) + one_if(p.batch_scratch) + one_if(p.descriptor_staging),
{
    lemma_downward_at(PartKind::RepeatWindow, p.repeat_windows as int, 0);
}

proof fn lemma_caches_len(p: BuildProgress)
    ensures
        caches_back(p).len() == p.recurrent_states + p.v_arenas + p.k_arenas + one_if(p.kv_tier),
{
    lemma_downward_at(PartKind::RecurrentState, p.recurrent_states as int, 0);
    lemma_downward_at(PartKind::VArena, p.v_arenas as int, 0);
    lemma_downward_at(PartKind::KArena, p.k_arenas as int, 0);
}

proof fn lemma_model_len(p: BuildProgress)
    ensures
        model_back(p).len() == 4 + one_if(p.head) + one_if(p.vision),
        model_back(p).last() == RigPart::Pool,
{
}

/// Nothing is given back twice: a rollback is as long as what the build has taken
/// and the three that the device keeps.
pub proof fn law_nothing_is_given_back_twice(p: BuildProgress)
    ensures
        rollback(p).len() == p.repeat_windows + p.recurrent_states + p.v_arenas + p.k_arenas
            + one_if(p.head_hidden) + one_if(p.verify_tape) + one_if(p.head_rotation) + one_if(
            p.head_scratch,
        ) + one_if(p.out_tokens) + one_if(p.logits) + one_if(p.scratch) + one_if(
            p.batch_scratch,
        ) + one_if(p.descriptor_staging) + one_if(p.kv_tier) + one_if(p.head) + one_if(p.vision)
            + 1 + 3,
{
    lemma_head_len(p);
    lemma_buffers_len(p);
    lemma_caches_len(p);
    lemma_model_len(p);
    let (a, b, c, d) = (head_back(p), buffers_back(p), caches_back(p), model_back(p));
    lemma_four_lens(a, b, c, d);
}

proof fn lemma_four_lens(
    a: Seq<RigPart>,
    b: Seq<RigPart>,
    c: Seq<RigPart>,
    d: Seq<RigPart>,
)
    ensures
        (a + b + c + d).len() == a.len() + b.len() + c.len() + d.len(),
        d.len() > 0 ==> (a + b + c + d).last() == d.last(),
{
}

/// What was taken last goes back first: of several parts of a sort the later one
/// comes before the earlier one, and the pool that all memory comes from is last.
pub proof fn law_the_last_taken_goes_back_first(p: BuildProgress, kind: PartKind, n: int, i: int)
    requires
        0 <= i < n <= usize::MAX,
    ensures
        downward(kind, n)[n - 1 - i] == part_of(kind, i),
        rollback(p).len() > 0,
        rollback(p).last() == RigPart::Pool,
{
    lemma_downward_at(kind, n, n - 1 - i);
    lemma_model_len(p);
    lemma_four_lens(head_back(p), buffers_back(p), caches_back(p), model_back(p));
}

} // verus!
