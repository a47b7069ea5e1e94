//! Building the rig once the weights are loaded: what is taken from the device
//! next, and what goes back when something cannot be had. The device work
//! happens between the steps; its outcomes are handed in.

use crate::rig::{
    queue_fault, queue_refusal, tier_fault, tier_refusal, EngineConfig, KvMode,
};
use crate::teardown::{
    completed, law_rollback_leaks_nothing, rollback, rollback_order, BuildProgress, RigPart,
};
use vstd::prelude::*;

verus! {

/// What the rig is to hold when it is built.
#[derive(Debug, Clone, Copy, PartialEq, Eq, Structural)]
pub struct BuildTargets {
    pub n_fa_layers: usize,
    pub n_slots: usize,
    /// The speculative head was loaded.
    pub head: bool,
    pub mtp_k: usize,
    /// Images run on the sequential path.
    pub vl_sequential: bool,
    /// Tier of the key and value cache.
    pub mode: KvMode,
}

/// What came of the last step.
#[derive(Debug)]
pub enum BuildEvent {
    /// The build starts.
    Begin,
    /// The part was taken.
    Taken,
    /// The part could not be had, or a check on the way failed.
    Failed(String),
}

/// What the build does next.
#[derive(Debug)]
pub enum BuildStep {
    Take(RigPart),
    /// Give these back, in this order, and report the reason.
    Fail { reason: String, give_back: Vec<RigPart> },
    /// The rig is built.
    Ready,
}

/// The part to take next: per layer the keys before the values, then the tier's
/// tables, the recurrent states, the step's buffers and what the speculative
/// head needs. `None` when all is taken.
pub open spec fn next_part(t: BuildTargets, p: BuildProgress) -> Option<RigPart> {
    if p.v_arenas < p.k_arenas {
        Some(RigPart::VArena(p.v_arenas))
    } else if p.k_arenas < t.n_fa_layers {
        Some(RigPart::KArena(p.k_arenas))
    } else if !p.kv_tier {
        Some(RigPart::KvTier)
    } else if p.recurrent_states < t.n_slots {
        Some(RigPart::RecurrentState(p.recurrent_states))
    } else if !p.descriptor_staging {
        Some(RigPart::DescriptorStaging)
    } else if !p.batch_scratch {
        Some(RigPart::BatchScratch)
    } else if !p.scratch {
        Some(RigPart::Scratch)
    } else if !p.logits {
        Some(RigPart::Logits)
    } else if !p.out_tokens {
        Some(RigPart::OutTokens)
    } else if p.repeat_windows < t.n_slots {
        Some(RigPart::RepeatWindow(p.repeat_windows))
    } else if t.head && !p.head_scratch {
        Some(RigPart::HeadScratch)
    } else if t.head && !p.head_rotation {
        Some(RigPart::HeadRotation)
    } else if t.head && t.mtp_k > 0 && !p.verify_tape {
        Some(RigPart::VerifyTape)
    } else if !p.head_hidden {
        Some(RigPart::HeadHidden)
    } else {
        None
    }
}

/// The step's own buffers are all taken: what is left belongs to the speculative
/// head.
pub open spec fn step_is_provisioned(t: BuildTargets, p: BuildProgress) -> bool {
    match next_part(t, p) {
        None => true,
        Some(x) => x is HeadScratch || x is HeadRotation || x is VerifyTape || x is HeadHidden,
    }
}

/// The progress once a part is taken.
pub open spec fn with_part(p: BuildProgress, x: RigPart) -> BuildProgress {
    match x {
        RigPart::VArena(i) => BuildProgress { v_arenas: (i + 1) as usize, ..p },
        RigPart::KArena(i) => BuildProgress { k_arenas: (i + 1) as usize, ..p },
        RigPart::KvTier => BuildProgress { kv_tier: true, ..p },
        RigPart::RecurrentState(i) => BuildProgress { recurrent_states: (i + 1) as usize, ..p },
        RigPart::DescriptorStaging => BuildProgress { descriptor_staging: true, ..p },
        RigPart::BatchScratch => BuildProgress { batch_scratch: true, ..p },
        RigPart::Scratch => BuildProgress { scratch: true, ..p },
        RigPart::Logits => BuildProgress { logits: true, ..p },
        RigPart::OutTokens => BuildProgress { out_tokens: true, ..p },
        RigPart::RepeatWindow(i) => BuildProgress { repeat_windows: (i + 1) as usize, ..p },
        RigPart::HeadScratch => BuildProgress { head_scratch: true, ..p },
        RigPart::HeadRotation => BuildProgress { head_rotation: true, ..p },
        RigPart::VerifyTape => BuildProgress { verify_tape: true, ..p },
        RigPart::HeadHidden => BuildProgress { head_hidden: true, ..p },
        _ => p,
    }
}

/// `r` goes on from this progress: the next part; once the step's buffers are
/// taken, the tier, which may fail the build; once all is taken the queues,
/// whose settings may still fail it.
pub open spec fn goes_on(
    cfg: EngineConfig,
    t: BuildTargets,
    p: BuildProgress,
    r: BuildStep,
) -> bool {
    if step_is_provisioned(t, p) && tier_fault(t.vl_sequential, t.mode) is Some {
        fails_with(p, tier_fault(t.vl_sequential, t.mode)->Some_0, r)
    } else {
        match next_part(t, p) {
            Some(x) => r is Take && r->Take_0 == x,
            None => match queue_fault(cfg) {
                Some(text) => fails_with(p, text, r),
                None => r is Ready,
            },
        }
    }
}

/// `r` fails the build with this reason and gives back all that was taken.
pub open spec fn fails_with(p: BuildProgress, reason: Seq<char>, r: BuildStep) -> bool {
    r is Fail && r->Fail_reason@ == reason && r->Fail_give_back@ == rollback(p)
}

fn progress_with(p: BuildProgress, x: RigPart) -> (r: BuildProgress)
    requires
        x is VArena ==> x->VArena_0 < usize::MAX,
        x is KArena ==> x->KArena_0 < usize::MAX,
        x is RecurrentState ==> x->RecurrentState_0 < usize::MAX,
        x is RepeatWindow ==> x->RepeatWindow_0 < usize::MAX,
    ensures
        r == with_part(p, x),
{
    match x {
        RigPart::VArena(i) => BuildProgress { v_arenas: i + 1, ..p },
        RigPart::KArena(i) => BuildProgress { k_arenas: i + 1, ..p },
        RigPart::KvTier => BuildProgress { kv_tier: true, ..p },
        RigPart::RecurrentState(i) => BuildProgress { recurrent_states: i + 1, ..p },
        RigPart::DescriptorStaging => BuildProgress { descriptor_staging: true, ..p },
        RigPart::BatchScratch => BuildProgress { batch_scratch: true, ..p },
        RigPart::Scratch => BuildProgress { scratch: true, ..p },
        RigPart::Logits => BuildProgress { logits: true, ..p },
        RigPart::OutTokens => BuildProgress { out_tokens: true, ..p },
        RigPart::RepeatWindow(i) => BuildProgress { repeat_windows: i + 1, ..p },
        RigPart::HeadScratch => BuildProgress { head_scratch: true, ..p },
        RigPart::HeadRotation => BuildProgress { head_rotation: true, ..p },
        RigPart::VerifyTape => BuildProgress { verify_tape: true, ..p },
        RigPart::HeadHidden => BuildProgress { head_hidden: true, ..p },
        _ => p,
    }
}

/// A build under way.
#[derive(Debug)]
pub struct RigBuild {
    pub targets: BuildTargets,
    pub progress: BuildProgress,
}

impl RigBuild {
    /// The counts do not pass what is to be taken.
    pub open spec fn wf(&self) -> bool {
        let p = self.progress;
        let t = self.targets;
        &&& p.v_arenas <= p.k_arenas <= t.n_fa_layers
        &&& p.recurrent_states <= t.n_slots
        &&& p.repeat_windows <= t.n_slots
    }

    /// Starts with the weights loaded, and with a head and a vision tower if
    /// there are any.
    pub fn new(targets: BuildTargets, vision: bool) -> (r: RigBuild)
        ensures
            r.wf(),
            r.targets == targets,
            forall|x: RigPart| #[trigger]
                completed(r.progress, x) <==> x is Weights || (x is Head && targets.head) || (x
                    is VisionWeights && vision),
    {
        RigBuild {
            targets,
            progress: BuildProgress {
                head_hidden: false,
                verify_tape: false,
                head_rotation: false,
                head_scratch: false,
                repeat_windows: 0,
                out_tokens: false,
                logits: false,
                scratch: false,
                batch_scratch: false,
                descriptor_staging: false,
                recurrent_states: 0,
                v_arenas: 0,
                k_arenas: 0,
                kv_tier: false,
                head: targets.head,
                vision,
            },
        }
    }

    fn next(&self) -> (r: Option<RigPart>)
        ensures
            r == next_part(self.targets, self.progress),
    {
        let p: BuildProgress = self.progress;
        let t: BuildTargets = self.targets;
        if p.v_arenas < p.k_arenas {
            Some(RigPart::VArena(p.v_arenas))
        } else if p.k_arenas < t.n_fa_layers {
            Some(RigPart::KArena(p.k_arenas))
        } else if !p.kv_tier {
            Some(RigPart::KvTier)
        } else if p.recurrent_states < t.n_slots {
            Some(RigPart::RecurrentState(p.recurrent_states))
        } else if !p.descriptor_staging {
            Some(RigPart::DescriptorStaging)
        } else if !p.batch_scratch {
            Some(RigPart::BatchScratch)
        } else if !p.scratch {
            Some(RigPart::Scratch)
        } else if !p.logits {
            Some(RigPart::Logits)
        } else if !p.out_tokens {
            Some(RigPart::OutTokens)
        } else if p.repeat_windows < t.n_slots {
            Some(RigPart::RepeatWindow(p.repeat_windows))
        } else if t.head && !p.head_scratch {
            Some(RigPart::HeadScratch)
        } else if t.head && !p.head_rotation {
            Some(RigPart::HeadRotation)
        } else if t.head && t.mtp_k > 0 && !p.verify_tape {
            Some(RigPart::VerifyTape)
        } else if !p.head_hidden {
            Some(RigPart::HeadHidden)
        } else {
            None
        }
    }

    fn note_taken(&mut self)
        requires
            old(self).wf(),
            next_part(old(self).targets, old(self).progress) is Some,
        ensures
            final(self).wf(),
            final(self).targets == old(self).targets,
            final(self).progress == with_part(
                old(self).progress,
                next_part(old(self).targets, old(self).progress)->Some_0,
            ),
    {
        match self.next() {
            Some(x) => {
                self.progress = progress_with(self.progress, x);
            },
            None => {},
        }
    }

    /// Decides what the build does next. Whatever fails, all that was taken is
    /// given back.
    pub fn step(&mut self, cfg: &EngineConfig, event: BuildEvent) -> (r: BuildStep)
        requires
            old(self).wf(),
            event is Taken ==> next_part(old(self).targets, old(self).progress) is Some,
        ensures
            final(self).wf(),
            match event {
                BuildEvent::Begin => {
                    &&& *final(self) == *old(self)
                    &&& goes_on(*cfg, old(self).targets, old(self).progress, r)
                },
                BuildEvent::Taken => {
                    &&& final(self).targets == old(self).targets
                    &&& final(self).progress == with_part(
                        old(self).progress,
                        next_part(old(self).targets, old(self).progress)->Some_0,
                    )
                    &&& goes_on(*cfg, final(self).targets, final(self).progress, r)
                },
                BuildEvent::Failed(e) => {
                    &&& *final(self) == *old(self)
                    &&& fails_with(old(self).progress, e@, r)
                },
            },
    {
        match event {
            BuildEvent::Begin => {},
            BuildEvent::Taken => {
                self.note_taken();
            },
            BuildEvent::Failed(reason) => {
                return BuildStep::Fail { reason, give_back: rollback_order(self.progress) };
            },
        }
        let next: Option<RigPart> = self.next();
        let provisioned: bool = match next {
            None => true,
            Some(x) => match x {
                RigPart::HeadScratch => true,
                RigPart::HeadRotation => true,
                RigPart::VerifyTape => true,
                RigPart::HeadHidden => true,
                _ => false,
            },
        };
        if provisioned {
            match tier_refusal(self.targets.vl_sequential, self.targets.mode) {
                Some(reason) => {
                    return BuildStep::Fail { reason, give_back: rollback_order(self.progress) };
                },
                None => {},
            }
        }
        match next {
            Some(x) => BuildStep::Take(x),
            None => match queue_refusal(cfg) {
                Some(reason) => BuildStep::Fail {
                    reason,
                    give_back: rollback_order(self.progress),
                },
                None => BuildStep::Ready,
            },
        }
    }
}

/// The part is the first of its sort that `p` does not hold.
spec fn is_next(p: BuildProgress, x: RigPart) -> bool {
    match x {
        RigPart::VArena(i) => i == p.v_arenas && i < usize::MAX,
        RigPart::KArena(i) => i == p.k_arenas && i < usize::MAX,
        RigPart::KvTier => !p.kv_tier,
        RigPart::RecurrentState(i) => i == p.recurrent_states && i < usize::MAX,
        RigPart::DescriptorStaging => !p.descriptor_staging,
        RigPart::BatchScratch => !p.batch_scratch,
        RigPart::Scratch => !p.scratch,
        RigPart::Logits => !p.logits,
        RigPart::OutTokens => !p.out_tokens,
        RigPart::RepeatWindow(i) => i == p.repeat_windows && i < usize::MAX,
        RigPart::HeadScratch => !p.head_scratch,
        RigPart::HeadRotation => !p.head_rotation,
        RigPart::VerifyTape => !p.verify_tape,
        RigPart::HeadHidden => !p.head_hidden,
        _ => false,
    }
}

proof fn lemma_next_part_is_next(b: RigBuild)
    requires
        b.wf(),
        next_part(b.targets, b.progress) is Some,
    ensures
        is_next(b.progress, next_part(b.targets, b.progress)->Some_0),
{
}

#[verifier::spinoff_prover]
#[verifier::rlimit(60)]
proof fn lemma_with_part(p: BuildProgress, taken: RigPart, x: RigPart)
    requires
        is_next(p, taken),
    ensures
        completed(with_part(p, taken), x) <==> completed(p, x) || x == taken,
        !completed(p, taken),
{
}

/// Taking a part adds that part and nothing else to what would be given back.
pub proof fn law_taken_parts_are_recorded(b: RigBuild, x: RigPart)
    requires
        b.wf(),
        next_part(b.targets, b.progress) is Some,
    ensures
        ({
            let taken = next_part(b.targets, b.progress)->Some_0;
            completed(with_part(b.progress, taken), x) <==> completed(b.progress, x) || x == taken
        }),
        !completed(b.progress, next_part(b.targets, b.progress)->Some_0),
{
    lemma_next_part_is_next(b);
    lemma_with_part(b.progress, next_part(b.targets, b.progress)->Some_0, x);
}

/// A build with bad queue settings never gets ready. It fails once all is taken
/// at the latest, and then gives back everything it took.
pub proof fn law_bad_queues_fail_the_build(
    cfg: EngineConfig,
    t: BuildTargets,
    p: BuildProgress,
    r: BuildStep,
    x: RigPart,
)
    requires
        queue_fault(cfg) is Some,
        goes_on(cfg, t, p, r),
    ensures
        !(r is Ready),
        next_part(t, p) is None ==> r is Fail,
        r is Fail && completed(p, x) ==> r->Fail_give_back@.contains(x),
{
    law_rollback_leaks_nothing(p, x);
}

/// A build on a tier that cannot run never gets ready, and takes nothing for the
/// speculative head. It fails once the step's buffers are taken, and then gives
/// back everything it took.
pub proof fn law_bad_tiers_fail_the_build(
    cfg: EngineConfig,
    t: BuildTargets,
    p: BuildProgress,
    r: BuildStep,
    x: RigPart,
)
    requires
        tier_fault(t.vl_sequential, t.mode) is Some,
        goes_on(cfg, t, p, r),
    ensures
        !(r is Ready),
        step_is_provisioned(t, p) ==> r is Fail && r->Fail_reason@ == tier_fault(
            t.vl_sequential,
            t.mode,
        )->Some_0,
        r is Fail && completed(p, x) ==> r->Fail_give_back@.contains(x),
{
    law_rollback_leaks_nothing(p, x);
}

/// Whenever a build fails, each part it has taken is given back.
pub proof fn law_failed_builds_give_everything_back(
    p: BuildProgress,
    reason: Seq<char>,
    r: BuildStep,
    x: RigPart,
)
    requires
        fails_with(p, reason, r),
        completed(p, x),
    ensures
        r->Fail_give_back@.contains(x),
{
    law_rollback_leaks_nothing(p, x);
}

/// A build that is ready holds all of its parts.
pub proof fn law_ready_rigs_are_whole(b: RigBuild)
    requires
        b.wf(),
        next_part(b.targets, b.progress) is None,
    ensures
        ({
            let p = b.progress;
            let t = b.targets;
            &&& p.k_arenas == t.n_fa_layers && p.v_arenas == t.n_fa_layers
            &&& p.recurrent_states == t.n_slots && p.repeat_windows == t.n_slots
            &&& p.kv_tier && p.descriptor_staging && p.batch_scratch && p.scratch && p.logits
                && p.out_tokens && p.head_hidden
            &&& t.head ==> p.head_scratch && p.head_rotation
            &&& t.head && t.mtp_k > 0 ==> p.verify_tape
        }),
{
}

/// Parts are taken in order: the keys of a layer before its values, a layer after
/// the one before it, and each later part only once all earlier ones are there.
pub proof fn law_parts_are_taken_in_order(t: BuildTargets, p: BuildProgress)
    requires
        p.v_arenas <= p.k_arenas <= t.n_fa_layers,
        p.recurrent_states <= t.n_slots,
        p.repeat_windows <= t.n_slots,
    ensures
        match next_part(t, p) {
            Some(RigPart::KArena(i)) => i == p.k_arenas && p.v_arenas == p.k_arenas && i
                < t.n_fa_layers,
            Some(RigPart::VArena(i)) => i == p.v_arenas && i + 1 <= p.k_arenas,
            Some(RigPart::KvTier) => p.v_arenas == t.n_fa_layers && !p.kv_tier,
            Some(RigPart::RecurrentState(i)) => p.kv_tier && i == p.recurrent_states && i
                < t.n_slots,
            Some(RigPart::DescriptorStaging) => p.recurrent_states == t.n_slots,
            Some(RigPart::BatchScratch) => p.descriptor_staging,
            Some(RigPart::Scratch) => p.batch_scratch,
            Some(RigPart::Logits) => p.scratch,
            Some(RigPart::OutTokens) => p.logits,
            Some(RigPart::RepeatWindow(i)) => p.out_tokens && i == p.repeat_windows && i
                < t.n_slots,
            Some(RigPart::HeadScratch) => t.head && p.repeat_windows == t.n_slots,
            Some(RigPart::HeadRotation) => t.head && p.head_scratch,
            Some(RigPart::VerifyTape) => t.head && t.mtp_k > 0 && p.head_rotation,
            Some(RigPart::HeadHidden) => p.repeat_windows == t.n_slots,
            Some(_) => false,
            None => true,
        },
{
}

/// A build without faults gets ready: while parts are missing the next one is
/// taken, and then the rig is ready.
pub proof fn law_sound_builds_get_ready(
    cfg: EngineConfig,
    t: BuildTargets,
    p: BuildProgress,
    r: BuildStep,
)
    requires
        tier_fault(t.vl_sequential, t.mode) is None,
        queue_fault(cfg) is None,
        goes_on(cfg, t, p, r),
    ensures
        !(r is Fail),
        next_part(t, p) is Some ==> r is Take && Some(r->Take_0) == next_part(t, p),
        next_part(t, p) is None ==> r is Ready,
{
}

} // verus!
