//! The vision tower of an image slot: one layer per iteration, so that the
//! other slots keep decoding while an image is being encoded.

use crate::scheduler::{waiting_for_vision, PendingWork, VlPrefill};
use crate::text::join2;
use vstd::prelude::*;

verus! {

/// What the tower does for a slot in this iteration.
#[derive(Debug, Clone, Copy, PartialEq, Eq, Structural)]
pub enum TowerStep {
    /// Start the encode, then run its first layer.
    Start,
    /// Run the next layer.
    Layer,
}

/// How a layer went.
#[derive(Debug)]
pub enum TowerEvent {
    /// More layers are to come.
    More,
    /// The last layer has run and left a matrix of this many values.
    Finished { values: usize },
    /// The encode failed and is gone.
    Failed(String),
}

/// Decides the tower's work for a slot, with an encode already running or not.
/// A model without a vision encoder, or without its settings, cannot start one.
pub fn tower_step(job_running: bool, has_weights: bool, has_config: bool) -> (r: Result<
    TowerStep,
    &'static str,
>)
    ensures
        !has_weights ==> r is Err && r->Err_0@ == "VL request but model has no vision encoder"@,
        has_weights && !has_config ==> r is Err && r->Err_0@
            == "VL request but model has no vision config"@,
        has_weights && has_config ==> r == Ok::<TowerStep, &'static str>(
            if job_running {
                TowerStep::Layer
            } else {
                TowerStep::Start
            },
        ),
{
    if !has_weights {
        Err("VL request but model has no vision encoder")
    } else if !has_config {
        Err("VL request but model has no vision config")
    } else if job_running {
        Ok(TowerStep::Layer)
    } else {
        Ok(TowerStep::Start)
    }
}

/// Drops the host's copy of the patches once an encode has started: they live
/// on the device from then on.
pub fn tower_started(vl: &mut VlPrefill)
    ensures
        final(vl).patches@.len() == 0,
        *final(vl) == (VlPrefill { patches: final(vl).patches, ..*old(vl) }),
{
    vl.patches = Vec::new();
}

/// `n` zeros.
fn zeros(n: usize) -> (r: Vec<u32>)
    ensures
        r@ == Seq::new(n as nat, |i: int| 0u32),
{
    let mut out: Vec<u32> = Vec::new();
    let mut i: usize = 0;
    while i < n
        invariant
            i <= n,
            out@ =~= Seq::new(i as nat, |i: int| 0u32),
        decreases n - i,
    {
        out.push(0);
        i = i + 1;
    }
    out
}

/// Takes a layer's outcome in. A finished matrix stays on the device; what the
/// slot holds of it is a placeholder of its size, whole rows of `out_hidden`
/// values, which tells the scheduler that the matrix is there. Returns whether
/// the encode is over.
pub fn tower_event(vl: &mut VlPrefill, event: TowerEvent, out_hidden: usize, dim: usize) -> (r:
    Result<bool, String>)
    requires
        event is Finished ==> out_hidden > 0,
    ensures
        match event {
            TowerEvent::More => r == Ok::<bool, String>(false) && *final(vl) == *old(vl),
            TowerEvent::Finished { values } => {
                &&& r == Ok::<bool, String>(true)
                &&& final(vl).embeddings@ == Seq::new(
                    (values / out_hidden * out_hidden) as nat,
                    |i: int| 0u32,
                )
                &&& *final(vl) == (VlPrefill {
                    embeddings: final(vl).embeddings,
                    dim,
                    ..*old(vl)
                })
            },
            TowerEvent::Failed(e) => {
                &&& r is Err
                &&& r->Err_0@ == "vision_forward: "@ + e@
                &&& *final(vl) == *old(vl)
            },
        },
{
    match event {
        TowerEvent::More => Ok(false),
        TowerEvent::Finished { values } => {
            let rows: usize = values / out_hidden;
            assert(rows * out_hidden <= values) by {
                vstd::arithmetic::div_mod::lemma_fundamental_div_mod(
                    values as int,
                    out_hidden as int,
                );
                assert(out_hidden * rows == rows * out_hidden) by (nonlinear_arith);
            }
            vl.embeddings = zeros(rows * out_hidden);
            vl.dim = dim;
            Ok(true)
        },
        TowerEvent::Failed(e) => Err(join2("vision_forward: ", e.as_str())),
    }
}

/// A slot waits for its tower until the encode is finished, and no longer: as
/// long as there is no matrix the slot stays held back, and a matrix of at
/// least one row sets it free.
pub proof fn law_finished_tower_frees_the_slot(
    before: PendingWork,
    after: PendingWork,
    values: usize,
    out_hidden: usize,
)
    requires
        waiting_for_vision(before),
        out_hidden > 0,
        values >= out_hidden,
        after.vl_prefill is Some,
        after.vl_prefill->Some_0.embeddings@ == Seq::new(
            (values / out_hidden * out_hidden) as nat,
            |i: int| 0u32,
        ),
    ensures
        !waiting_for_vision(after),
{
    vstd::arithmetic::div_mod::lemma_div_non_zero(values as int, out_hidden as int);
    let rows = values as int / out_hidden as int;
    assert(rows * out_hidden >= out_hidden) by (nonlinear_arith)
        requires
            rows >= 1,
            out_hidden > 0,
    ;
}

} // verus!
