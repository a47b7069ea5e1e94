//! Route state for the fixed-size speculative verify forward.
//!
//! Phase, admission binding, counters, and the state machine that decides which
//! forward route a verify window takes. No device work happens here: the caller
//! owns capture, preparation, replay and every fallback, and reports each
//! outcome back.
//!
//! The replay controller is optional so that a disabled route holds none as a
//! matter of ownership. Its device work is done by the caller: the controller
//! here keeps the commands that the route has issued to it, in order.

pub use crate::fingerprint::fingerprint_u64;
use crate::json::{json_quoted, quote};
use crate::text::{append_decimal, decimal_text, joined_texts, lemma_pieces_occur, occurs};
use vstd::prelude::*;
use vstd::string::StringExecFns;

verus! {

/// The one admitted verify block size. Every other size stays on the ordinary
/// route; final partial blocks are never captured, prepared or replayed.
pub const DFLASH_VERIFY_PM4_BLOCK: usize = 16;

/// Externally visible route phase.
#[derive(Clone, Debug, PartialEq, Eq)]
pub enum DflashVerifyPm4Phase {
    /// Never admitted for this model. Carries the admission reason.
    Disabled { reason: String },
    /// Admitted, but no window has materialised lazy code and scratch yet.
    Armed,
    /// One direct capture-safe window has run; pointer identity is stable.
    Primed,
    /// One calibration capture is held; a second one at a different position is
    /// required before a route may be prepared.
    Calibrating,
    /// A prepared route exists and matches the live binding.
    Ready,
    /// Sticky route failure. The ordinary route remains correct.
    Poisoned { reason: String },
    /// Replay failed without proven queue quiescence.
    Quarantined { reason: String },
}

/// A phase as a mathematical value.
pub enum PhaseView {
    Disabled(Seq<char>),
    Armed,
    Primed,
    Calibrating,
    Ready,
    Poisoned(Seq<char>),
    Quarantined(Seq<char>),
}

impl View for DflashVerifyPm4Phase {
    type V = PhaseView;

    open spec fn view(&self) -> PhaseView {
        match *self {
            DflashVerifyPm4Phase::Disabled { reason } => PhaseView::Disabled(reason@),
            DflashVerifyPm4Phase::Armed => PhaseView::Armed,
            DflashVerifyPm4Phase::Primed => PhaseView::Primed,
            DflashVerifyPm4Phase::Calibrating => PhaseView::Calibrating,
            DflashVerifyPm4Phase::Ready => PhaseView::Ready,
            DflashVerifyPm4Phase::Poisoned { reason } => PhaseView::Poisoned(reason@),
            DflashVerifyPm4Phase::Quarantined { reason } => PhaseView::Quarantined(reason@),
        }
    }
}

impl PhaseView {
    /// The route may still do retained work.
    pub open spec fn live(self) -> bool {
        self is Armed || self is Primed || self is Calibrating || self is Ready
    }

    /// Name of the phase.
    pub open spec fn label(self) -> Seq<char> {
        match self {
            PhaseView::Disabled(_) => "disabled"@,
            PhaseView::Armed => "armed"@,
            PhaseView::Primed => "primed"@,
            PhaseView::Calibrating => "calibrating"@,
            PhaseView::Ready => "ready"@,
            PhaseView::Poisoned(_) => "poisoned"@,
            PhaseView::Quarantined(_) => "quarantined"@,
        }
    }

    /// Why the route is not live.
    pub open spec fn reason(self) -> Option<Seq<char>> {
        match self {
            PhaseView::Disabled(t) => Some(t),
            PhaseView::Poisoned(t) => Some(t),
            PhaseView::Quarantined(t) => Some(t),
            _ => None,
        }
    }
}

impl DflashVerifyPm4Phase {
    /// Name of the phase.
    pub fn label(&self) -> (r: &'static str)
        ensures
            r@ == self@.label(),
    {
        match self {
            DflashVerifyPm4Phase::Disabled { .. } => "disabled",
            DflashVerifyPm4Phase::Armed => "armed",
            DflashVerifyPm4Phase::Primed => "primed",
            DflashVerifyPm4Phase::Calibrating => "calibrating",
            DflashVerifyPm4Phase::Ready => "ready",
            DflashVerifyPm4Phase::Poisoned { .. } => "poisoned",
            DflashVerifyPm4Phase::Quarantined { .. } => "quarantined",
        }
    }

    /// Why the route is not live, for the phases that carry a reason.
    pub fn reason(&self) -> (r: Option<&str>)
        ensures
            match r {
                Some(t) => self@.reason() == Some(t@),
                None => self@.reason() is None,
            },
    {
        match self {
            DflashVerifyPm4Phase::Disabled { reason } => Some(reason.as_str()),
            DflashVerifyPm4Phase::Poisoned { reason } => Some(reason.as_str()),
            DflashVerifyPm4Phase::Quarantined { reason } => Some(reason.as_str()),
            _ => None,
        }
    }

    /// True while the route may still do retained work.
    pub fn is_live(&self) -> (r: bool)
        ensures
            r == self@.live(),
    {
        match self {
            DflashVerifyPm4Phase::Armed => true,
            DflashVerifyPm4Phase::Primed => true,
            DflashVerifyPm4Phase::Calibrating => true,
            DflashVerifyPm4Phase::Ready => true,
            _ => false,
        }
    }
}

/// Monotonic route-proof counters for the loaded model.
#[derive(Clone, Copy, Debug, Default, PartialEq, Eq)]
pub struct DflashVerifyPm4Counters {
    /// Full-size windows that ran the ordinary route.
    pub full_hip: u64,
    /// Windows that ran the ordinary route because of another block size.
    pub partial_hip: u64,
    /// Direct capture-safe windows run to materialise lazy code and scratch.
    pub prime_windows: u64,
    /// Windows on which a recording capture was started.
    pub capture_attempts: u64,
    /// Captures that completed and produced launch blobs.
    pub captures: u64,
    /// Calibration captures taken.
    pub calibration_captures: u64,
    /// Contract probe rejections.
    pub contract_failures: u64,
    /// Preparation rejections.
    pub prepare_failures: u64,
    /// Successful retained submissions.
    pub replays: u64,
    /// Retained submissions that failed.
    pub replay_failures: u64,
    /// Direct reruns after a proven-quiescent replay failure.
    pub safe_hip_retries: u64,
    /// Poison transitions.
    pub poison_count: u64,
    /// Binding or layout rearms (expected growth, not poison).
    pub rearms: u64,
    /// Position-tracking kernel arguments that calibration found and bound.
    pub position_bindings: u64,
    pub first_replay_position: Option<usize>,
    pub last_replay_position: Option<usize>,
}

/// The counters as mathematical values.
pub struct CountersView {
    pub full_hip: int,
    pub partial_hip: int,
    pub prime_windows: int,
    pub capture_attempts: int,
    pub captures: int,
    pub calibration_captures: int,
    pub contract_failures: int,
    pub prepare_failures: int,
    pub replays: int,
    pub replay_failures: int,
    pub safe_hip_retries: int,
    pub poison_count: int,
    pub rearms: int,
    pub position_bindings: int,
    pub first_replay_position: Option<usize>,
    pub last_replay_position: Option<usize>,
}

impl View for DflashVerifyPm4Counters {
    type V = CountersView;

    open spec fn view(&self) -> CountersView {
        CountersView {
            full_hip: self.full_hip as int,
            partial_hip: self.partial_hip as int,
            prime_windows: self.prime_windows as int,
            capture_attempts: self.capture_attempts as int,
            captures: self.captures as int,
            calibration_captures: self.calibration_captures as int,
            contract_failures: self.contract_failures as int,
            prepare_failures: self.prepare_failures as int,
            replays: self.replays as int,
            replay_failures: self.replay_failures as int,
            safe_hip_retries: self.safe_hip_retries as int,
            poison_count: self.poison_count as int,
            rearms: self.rearms as int,
            position_bindings: self.position_bindings as int,
            first_replay_position: self.first_replay_position,
            last_replay_position: self.last_replay_position,
        }
    }
}

impl CountersView {
    /// No counter has counted anything.
    pub open spec fn zero() -> CountersView {
        CountersView {
            full_hip: 0,
            partial_hip: 0,
            prime_windows: 0,
            capture_attempts: 0,
            captures: 0,
            calibration_captures: 0,
            contract_failures: 0,
            prepare_failures: 0,
            replays: 0,
            replay_failures: 0,
            safe_hip_retries: 0,
            poison_count: 0,
            rearms: 0,
            position_bindings: 0,
            first_replay_position: None,
            last_replay_position: None,
        }
    }

    /// Every counter is a 64-bit word.
    pub open spec fn fits(self) -> bool {
        &&& self.full_hip <= u64::MAX
        &&& self.partial_hip <= u64::MAX
        &&& self.prime_windows <= u64::MAX
        &&& self.capture_attempts <= u64::MAX
        &&& self.captures <= u64::MAX
        &&& self.calibration_captures <= u64::MAX
        &&& self.contract_failures <= u64::MAX
        &&& self.prepare_failures <= u64::MAX
        &&& self.replays <= u64::MAX
        &&& self.replay_failures <= u64::MAX
        &&& self.safe_hip_retries <= u64::MAX
        &&& self.poison_count <= u64::MAX
        &&& self.rearms <= u64::MAX
    }

    /// No counter of events has gone down.
    pub open spec fn at_least(self, before: CountersView) -> bool {
        &&& self.full_hip >= before.full_hip
        &&& self.partial_hip >= before.partial_hip
        &&& self.prime_windows >= before.prime_windows
        &&& self.capture_attempts >= before.capture_attempts
        &&& self.captures >= before.captures
        &&& self.calibration_captures >= before.calibration_captures
        &&& self.contract_failures >= before.contract_failures
        &&& self.prepare_failures >= before.prepare_failures
        &&& self.replays >= before.replays
        &&& self.replay_failures >= before.replay_failures
        &&& self.safe_hip_retries >= before.safe_hip_retries
        &&& self.poison_count >= before.poison_count
        &&& self.rearms >= before.rearms
    }
}

/// Identity a prepared route is valid for.
#[derive(Clone, Debug, PartialEq, Eq)]
pub struct DflashVerifyBinding {
    pub batch: usize,
    pub arch: String,
    pub model_fingerprint: u64,
    pub layout_generation: u64,
    /// Largest `start_pos + batch` the prepared geometry is sized for.
    pub max_position: usize,
    pub kv_mode: String,
    pub dn_state_quant: String,
}

/// A binding as a mathematical value.
pub struct BindingView {
    pub batch: usize,
    pub arch: Seq<char>,
    pub model_fingerprint: u64,
    pub layout_generation: u64,
    pub max_position: usize,
    pub kv_mode: Seq<char>,
    pub dn_state_quant: Seq<char>,
}

impl View for DflashVerifyBinding {
    type V = BindingView;

    open spec fn view(&self) -> BindingView {
        BindingView {
            batch: self.batch,
            arch: self.arch@,
            model_fingerprint: self.model_fingerprint,
            layout_generation: self.layout_generation,
            max_position: self.max_position,
            kv_mode: self.kv_mode@,
            dn_state_quant: self.dn_state_quant@,
        }
    }
}

impl BindingView {
    /// The same identity, whatever the position bound.
    pub open spec fn same_route(self, other: BindingView) -> bool {
        self == (BindingView { max_position: self.max_position, ..other })
    }
}

impl DflashVerifyBinding {
    /// A binding in the 8-bit cache and state layout.
    pub fn new(
        batch: usize,
        arch: &str,
        model_fingerprint: u64,
        layout_generation: u64,
        max_position: usize,
    ) -> (b: DflashVerifyBinding)
        ensures
            b@ == (BindingView {
                batch,
                arch: arch@,
                model_fingerprint,
                layout_generation,
                max_position,
                kv_mode: "q8"@,
                dn_state_quant: "q8"@,
            }),
    {
        DflashVerifyBinding {
            batch,
            arch: String::from_str(arch),
            model_fingerprint,
            layout_generation,
            max_position,
            kv_mode: String::from_str("q8"),
            dn_state_quant: String::from_str("q8"),
        }
    }

    /// Identity match ignoring `max_position`, which only bounds admission.
    pub fn same_route(&self, other: &DflashVerifyBinding) -> (r: bool)
        ensures
            r == self@.same_route(other@),
    {
        self.batch == other.batch && self.arch == other.arch && self.model_fingerprint
            == other.model_fingerprint && self.layout_generation == other.layout_generation
            && self.kv_mode == other.kv_mode && self.dn_state_quant == other.dn_state_quant
    }
}

/// The shape of one verify window, as seen before any device work.
#[derive(Clone, Debug)]
pub struct DflashVerifyWindow<'a> {
    pub batch: usize,
    pub tree: bool,
    pub want_full_logits: bool,
    /// First position of this window.
    pub position: usize,
    pub binding: &'a DflashVerifyBinding,
}

/// A window as a mathematical value.
pub struct WindowView {
    pub batch: usize,
    pub tree: bool,
    pub want_full_logits: bool,
    pub position: usize,
    pub binding: BindingView,
}

impl View for DflashVerifyWindow<'_> {
    type V = WindowView;

    open spec fn view(&self) -> WindowView {
        WindowView {
            batch: self.batch,
            tree: self.tree,
            want_full_logits: self.want_full_logits,
            position: self.position,
            binding: self.binding@,
        }
    }
}

impl WindowView {
    /// The one shape that may leave the ordinary route.
    pub open spec fn eligible(self) -> bool {
        self.batch == DFLASH_VERIFY_PM4_BLOCK && !self.tree && !self.want_full_logits
    }
}

impl DflashVerifyWindow<'_> {
    /// Whether the window has the one shape that may leave the ordinary route.
    pub fn eligible_shape(&self) -> (r: bool)
        ensures
            r == self@.eligible(),
    {
        self.batch == DFLASH_VERIFY_PM4_BLOCK && !self.tree && !self.want_full_logits
    }
}

/// Route selected for one verify window.
#[derive(Clone, Copy, Debug, PartialEq, Eq, Structural)]
pub enum DflashVerifyRoute {
    /// Ordinary behaviour, including automatic graph selection.
    HipAuto,
    /// Forced direct capture-safe forward, no graph, no recording.
    PrimeDirect,
    /// Forced direct capture-safe forward under an active recording capture.
    CaptureRecord,
    /// Prepared retained submission.
    Pm4,
}

/// Whether a failed replay left the queue provably idle.
#[derive(Clone, Copy, Debug, PartialEq, Eq, Structural)]
pub enum ReplayQuiescence {
    Proven,
    Unknown,
}

/// What identifies a prepared replay on its queue.
#[derive(Clone, Copy, Debug, PartialEq, Eq, Structural)]
pub struct PreparedReplayIdentity {
    pub dispatch_count: usize,
    pub packet_count: Option<usize>,
    pub queue_id: u64,
    pub command_dwords: Option<usize>,
    pub queue_count: usize,
    pub phase_count: usize,
}

/// Kernel argument bytes of one recording.
#[derive(Clone, Debug, PartialEq, Eq)]
pub struct RecordedKernargSnapshot {
    pub kernargs: Vec<Vec<u8>>,
}

/// A command to the replay controller.
#[derive(Clone, Debug, PartialEq, Eq)]
pub enum ReplayCommand {
    /// Stop replaying for good.
    Poison(String),
    /// Drop the prepared route: the layout has grown.
    RearmAfterLayoutGrowth,
}

/// A command as a mathematical value.
pub enum CommandView {
    Poison(Seq<char>),
    RearmAfterLayoutGrowth,
}

impl View for ReplayCommand {
    type V = CommandView;

    open spec fn view(&self) -> CommandView {
        match *self {
            ReplayCommand::Poison(reason) => CommandView::Poison(reason@),
            ReplayCommand::RearmAfterLayoutGrowth => CommandView::RearmAfterLayoutGrowth,
        }
    }
}

/// The commands that a route has issued to its replay controller and that have
/// not been carried out yet.
#[derive(Debug)]
pub struct ReplayController {
    pub pending: Vec<ReplayCommand>,
}

impl View for ReplayController {
    type V = Seq<CommandView>;

    open spec fn view(&self) -> Seq<CommandView> {
        Seq::new(self.pending@.len(), |i: int| self.pending@[i]@)
    }
}

impl ReplayController {
    /// A controller with nothing to carry out.
    pub fn new_manual_pm4() -> (c: ReplayController)
        ensures
            c@ == Seq::<CommandView>::empty(),
    {
        let c = ReplayController { pending: Vec::new() };
        assert(c@ =~= Seq::empty());
        c
    }

    /// Orders the controller to stop replaying.
    pub fn poison(&mut self, reason: &str)
        ensures
            final(self)@ == old(self)@.push(CommandView::Poison(reason@)),
    {
        let ghost before = self@;
        self.pending.push(ReplayCommand::Poison(String::from_str(reason)));
        assert(self@ =~= before.push(CommandView::Poison(reason@)));
    }

    /// Orders the controller to drop its prepared route.
    pub fn rearm_after_layout_growth(&mut self)
        ensures
            final(self)@ == old(self)@.push(CommandView::RearmAfterLayoutGrowth),
    {
        let ghost before = self@;
        self.pending.push(ReplayCommand::RearmAfterLayoutGrowth);
        assert(self@ =~= before.push(CommandView::RearmAfterLayoutGrowth));
    }

    /// Takes the commands to carry out, oldest first.
    pub fn take_commands(&mut self) -> (r: Vec<ReplayCommand>)
        ensures
            Seq::new(r@.len(), |i: int| r@[i]@) == old(self)@,
            final(self)@ == Seq::<CommandView>::empty(),
    {
        let mut out: Vec<ReplayCommand> = Vec::new();
        std::mem::swap(&mut out, &mut self.pending);
        assert(self@ =~= Seq::empty());
        out
    }
}

/// A verify route as a mathematical value.
pub struct RouteView {
    pub phase: PhaseView,
    /// Commands waiting for the controller; `None` without a controller.
    pub controller: Option<Seq<CommandView>>,
    pub binding: Option<BindingView>,
    pub identity: Option<PreparedReplayIdentity>,
    pub calibration: Option<(RecordedKernargSnapshot, usize)>,
    pub counters: CountersView,
}

impl RouteView {
    /// The live binding is that of the window.
    pub open spec fn matches(self, w: WindowView) -> bool {
        self.binding is Some && self.binding->Some_0.same_route(w.binding)
    }

    /// The window ends within the prepared geometry.
    pub open spec fn admits_position(self, w: WindowView) -> bool {
        self.binding is Some && w.position + w.batch <= self.binding->Some_0.max_position
    }

    /// One more window on the ordinary route.
    pub open spec fn counted_hip(self, w: WindowView) -> RouteView {
        let c = self.counters;
        RouteView {
            counters: if w.batch != DFLASH_VERIFY_PM4_BLOCK {
                CountersView { partial_hip: c.partial_hip + 1, ..c }
            } else {
                CountersView { full_hip: c.full_hip + 1, ..c }
            },
            ..self
        }
    }

    /// One more direct capture-safe window.
    pub open spec fn counted_prime(self) -> RouteView {
        let c = self.counters;
        RouteView { counters: CountersView { prime_windows: c.prime_windows + 1, ..c }, ..self }
    }

    /// One more capture attempt.
    pub open spec fn counted_attempt(self) -> RouteView {
        let c = self.counters;
        RouteView {
            counters: CountersView { capture_attempts: c.capture_attempts + 1, ..c },
            ..self
        }
    }

    /// The prepared route and all that was learnt for it is dropped.
    pub open spec fn rearmed(self) -> RouteView {
        let c = self.counters;
        RouteView {
            phase: PhaseView::Armed,
            controller: match self.controller {
                Some(q) => Some(q.push(CommandView::RearmAfterLayoutGrowth)),
                None => None,
            },
            binding: None,
            identity: None,
            calibration: None,
            counters: CountersView { rearms: c.rearms + 1, ..c },
        }
    }

    /// The route of a window, and the route state after the decision.
    pub open spec fn planned(self, w: WindowView) -> (RouteView, DflashVerifyRoute) {
        if !self.phase.live() || !w.eligible() {
            (self.counted_hip(w), DflashVerifyRoute::HipAuto)
        } else if self.phase is Armed {
            (self.counted_prime(), DflashVerifyRoute::PrimeDirect)
        } else if !self.matches(w) || (self.phase is Ready && !self.admits_position(w)) {
            (self.rearmed().counted_prime(), DflashVerifyRoute::PrimeDirect)
        } else if self.phase is Ready {
            (self, DflashVerifyRoute::Pm4)
        } else if self.phase is Calibrating && self.calibration is Some
            && self.calibration->Some_0.1 == w.position {
            // Two recordings at one position tell nothing apart.
            (self.counted_prime(), DflashVerifyRoute::PrimeDirect)
        } else {
            (self.counted_attempt(), DflashVerifyRoute::CaptureRecord)
        }
    }

    /// The route after a calibration capture.
    pub open spec fn calibrated(
        self,
        snapshot: RecordedKernargSnapshot,
        position: usize,
    ) -> RouteView {
        let counted = RouteView {
            counters: CountersView {
                captures: self.counters.captures + 1,
                calibration_captures: self.counters.calibration_captures + 1,
                ..self.counters
            },
            ..self
        };
        if self.phase.live() {
            RouteView {
                phase: PhaseView::Calibrating,
                calibration: Some((snapshot, position)),
                ..counted
            }
        } else {
            counted
        }
    }

    /// The route once it is prepared for a binding.
    pub open spec fn prepared(
        self,
        binding: BindingView,
        identity: PreparedReplayIdentity,
    ) -> RouteView {
        if self.phase.live() {
            RouteView {
                phase: PhaseView::Ready,
                binding: Some(binding),
                identity: Some(identity),
                calibration: None,
                ..self
            }
        } else {
            self
        }
    }

    /// The route after a poison: quarantine is kept, anything else stops.
    pub open spec fn poisoned(self, reason: Seq<char>) -> RouteView {
        let c = self.counters;
        if self.phase is Quarantined {
            self
        } else {
            RouteView {
                phase: PhaseView::Poisoned(reason),
                controller: match self.controller {
                    Some(q) => Some(q.push(CommandView::Poison(reason))),
                    None => None,
                },
                identity: None,
                calibration: None,
                counters: CountersView { poison_count: c.poison_count + 1, ..c },
                ..self
            }
        }
    }

    /// The route after a failed replay.
    pub open spec fn replay_failed(
        self,
        position: usize,
        quiescence: ReplayQuiescence,
        reason: Seq<char>,
    ) -> RouteView {
        let c = CountersView {
            replay_failures: self.counters.replay_failures + 1,
            last_replay_position: Some(position),
            ..self.counters
        };
        let noted = RouteView { counters: c, ..self };
        match quiescence {
            ReplayQuiescence::Proven => noted.poisoned(reason),
            ReplayQuiescence::Unknown => RouteView {
                phase: PhaseView::Quarantined(reason),
                identity: None,
                counters: CountersView { poison_count: c.poison_count + 1, ..c },
                ..self
            },
        }
    }
}

/// Retained verify route of one speculator.
pub struct DflashVerifyPm4 {
    phase: DflashVerifyPm4Phase,
    controller: Option<ReplayController>,
    binding: Option<DflashVerifyBinding>,
    identity: Option<PreparedReplayIdentity>,
    calibration: Option<(RecordedKernargSnapshot, usize)>,
    counters: DflashVerifyPm4Counters,
}

impl View for DflashVerifyPm4 {
    type V = RouteView;

    closed spec fn view(&self) -> RouteView {
        RouteView {
            phase: self.phase@,
            controller: match self.controller {
                Some(c) => Some(c@),
                None => None,
            },
            binding: match self.binding {
                Some(b) => Some(b@),
                None => None,
            },
            identity: self.identity,
            calibration: self.calibration,
            counters: self.counters@,
        }
    }
}

fn zero_counters() -> (c: DflashVerifyPm4Counters)
    ensures
        c@ == CountersView::zero(),
{
    DflashVerifyPm4Counters {
        full_hip: 0,
        partial_hip: 0,
        prime_windows: 0,
        capture_attempts: 0,
        captures: 0,
        calibration_captures: 0,
        contract_failures: 0,
        prepare_failures: 0,
        replays: 0,
        replay_failures: 0,
        safe_hip_retries: 0,
        poison_count: 0,
        rearms: 0,
        position_bindings: 0,
        first_replay_position: None,
        last_replay_position: None,
    }
}

impl DflashVerifyPm4 {
    /// Never-admitted route. Holds no controller.
    pub fn disabled(reason: &str) -> (r: DflashVerifyPm4)
        ensures
            r@ == (RouteView {
                phase: PhaseView::Disabled(reason@),
                controller: None,
                binding: None,
                identity: None,
                calibration: None,
                counters: CountersView::zero(),
            }),
    {
        DflashVerifyPm4 {
            phase: DflashVerifyPm4Phase::Disabled { reason: String::from_str(reason) },
            controller: None,
            binding: None,
            identity: None,
            calibration: None,
            counters: zero_counters(),
        }
    }

    /// Admitted route with a controller of its own.
    pub fn armed() -> (r: DflashVerifyPm4)
        ensures
            r@ == (RouteView {
                phase: PhaseView::Armed,
                controller: Some(Seq::<CommandView>::empty()),
                binding: None,
                identity: None,
                calibration: None,
                counters: CountersView::zero(),
            }),
    {
        DflashVerifyPm4 {
            phase: DflashVerifyPm4Phase::Armed,
            controller: Some(ReplayController::new_manual_pm4()),
            binding: None,
            identity: None,
            calibration: None,
            counters: zero_counters(),
        }
    }

    /// Current phase.
    pub fn phase(&self) -> (r: &DflashVerifyPm4Phase)
        ensures
            r@ == self@.phase,
    {
        &self.phase
    }

    /// Counters so far.
    pub fn counters(&self) -> (r: &DflashVerifyPm4Counters)
        ensures
            r@ == self@.counters,
    {
        &self.counters
    }

    /// The live binding, if any.
    pub fn binding(&self) -> (r: Option<&DflashVerifyBinding>)
        ensures
            match r {
                Some(b) => self@.binding == Some(b@),
                None => self@.binding is None,
            },
    {
        match &self.binding {
            Some(b) => Some(b),
            None => None,
        }
    }

    /// Identity of the prepared replay, if any.
    pub fn prepared_identity(&self) -> (r: Option<PreparedReplayIdentity>)
        ensures
            r == self@.identity,
    {
        self.identity
    }

    /// Borrows the controller; `None` whenever the route holds none.
    pub fn controller_mut(&mut self) -> (r: Option<&mut ReplayController>)
        ensures
            match r {
                Some(c) => {
                    &&& old(self)@.controller == Some(c@)
                    &&& final(self)@ == (RouteView {
                        controller: Some(final(c)@),
                        ..old(self)@
                    })
                },
                None => old(self)@.controller is None && final(self)@ == old(self)@,
            },
    {
        match &mut self.controller {
            Some(c) => Some(c),
            None => None,
        }
    }

    fn route_matches(&self, window: &DflashVerifyWindow<'_>) -> (r: bool)
        ensures
            r == self@.matches(window@),
    {
        match &self.binding {
            Some(bound) => bound.same_route(window.binding),
            None => false,
        }
    }

    fn position_admitted(&self, window: &DflashVerifyWindow<'_>) -> (r: bool)
        ensures
            r == self@.admits_position(window@),
    {
        match &self.binding {
            Some(bound) => match window.position.checked_add(window.batch) {
                Some(end) => end <= bound.max_position,
                None => false,
            },
            None => false,
        }
    }

    fn note_hip_window(&mut self, window: &DflashVerifyWindow<'_>)
        requires
            old(self)@.counted_hip(window@).counters.fits(),
        ensures
            final(self)@ == old(self)@.counted_hip(window@),
    {
        if window.batch != DFLASH_VERIFY_PM4_BLOCK {
            self.counters.partial_hip = self.counters.partial_hip + 1;
        } else {
            self.counters.full_hip = self.counters.full_hip + 1;
        }
    }

    /// Drops a prepared route because the admitted layout changed. Not poison.
    fn rearm(&mut self)
        requires
            old(self)@.rearmed().counters.fits(),
        ensures
            final(self)@ == old(self)@.rearmed(),
    {
        match &mut self.controller {
            Some(c) => {
                c.rearm_after_layout_growth();
            },
            None => {},
        }
        self.counters.rearms = self.counters.rearms + 1;
        self.identity = None;
        self.binding = None;
        self.calibration = None;
        self.phase = DflashVerifyPm4Phase::Armed;
    }

    /// Decides this window's route and records the decision.
    pub fn plan_route(&mut self, window: &DflashVerifyWindow<'_>) -> (r: DflashVerifyRoute)
        requires
            old(self)@.planned(window@).0.counters.fits(),
        ensures
            (final(self)@, r) == old(self)@.planned(window@),
    {
        if !self.phase.is_live() || !window.eligible_shape() {
            self.note_hip_window(window);
            return DflashVerifyRoute::HipAuto;
        }
        let matched: bool = self.route_matches(window);
        let (armed, ready): (bool, bool) = match &self.phase {
            DflashVerifyPm4Phase::Armed => (true, false),
            DflashVerifyPm4Phase::Ready => (false, true),
            _ => (false, false),
        };
        if armed {
            self.counters.prime_windows = self.counters.prime_windows + 1;
            return DflashVerifyRoute::PrimeDirect;
        }
        if !matched || (ready && !self.position_admitted(window)) {
            self.rearm();
            self.counters.prime_windows = self.counters.prime_windows + 1;
            return DflashVerifyRoute::PrimeDirect;
        }
        if ready {
            return DflashVerifyRoute::Pm4;
        }
        let same_position: bool = match (&self.phase, &self.calibration) {
            (DflashVerifyPm4Phase::Calibrating, Some(c)) => c.1 == window.position,
            _ => false,
        };
        if same_position {
            self.counters.prime_windows = self.counters.prime_windows + 1;
            DflashVerifyRoute::PrimeDirect
        } else {
            self.counters.capture_attempts = self.counters.capture_attempts + 1;
            DflashVerifyRoute::CaptureRecord
        }
    }

    /// A direct capture-safe window completed; pointer identity is now stable.
    pub fn note_prime_success(&mut self, binding: DflashVerifyBinding)
        ensures
            final(self)@ == (RouteView {
                phase: if old(self)@.phase is Armed {
                    PhaseView::Primed
                } else {
                    old(self)@.phase
                },
                binding: Some(binding@),
                ..old(self)@
            }),
    {
        if matches!(self.phase, DflashVerifyPm4Phase::Armed) {
            self.phase = DflashVerifyPm4Phase::Primed;
        }
        self.binding = Some(binding);
    }

    /// A capture completed and produced launch blobs.
    pub fn note_capture(&mut self)
        requires
            old(self)@.counters.captures < u64::MAX,
        ensures
            final(self)@ == (RouteView {
                counters: CountersView {
                    captures: old(self)@.counters.captures + 1,
                    ..old(self)@.counters
                },
                ..old(self)@
            }),
    {
        self.counters.captures = self.counters.captures + 1;
    }

    /// Holds the first calibration recording. On a route that is no longer live
    /// the capture is counted and nothing else.
    pub fn note_calibration_capture(&mut self, snapshot: RecordedKernargSnapshot, position: usize)
        requires
            old(self)@.counters.captures < u64::MAX,
            old(self)@.counters.calibration_captures < u64::MAX,
        ensures
            final(self)@ == old(self)@.calibrated(snapshot, position),
    {
        self.counters.captures = self.counters.captures + 1;
        self.counters.calibration_captures = self.counters.calibration_captures + 1;
        if self.phase.is_live() {
            self.calibration = Some((snapshot, position));
            self.phase = DflashVerifyPm4Phase::Calibrating;
        }
    }

    /// The held calibration recording and the position it was taken at.
    pub fn calibration(&self) -> (r: Option<(&RecordedKernargSnapshot, usize)>)
        ensures
            match r {
                Some(c) => self@.calibration == Some((*c.0, c.1)),
                None => self@.calibration is None,
            },
    {
        match &self.calibration {
            Some(c) => Some((&c.0, c.1)),
            None => None,
        }
    }

    /// Records how many position-tracking kernel arguments were bound.
    pub fn note_position_bindings(&mut self, count: usize)
        ensures
            final(self)@ == (RouteView {
                counters: CountersView {
                    position_bindings: count as int,
                    ..old(self)@.counters
                },
                ..old(self)@
            }),
    {
        self.counters.position_bindings = count as u64;
    }

    /// Capture, contract probe and preparation all succeeded. A route that was
    /// never admitted, or that has stopped in the meantime, stays as it is.
    pub fn note_ready(&mut self, binding: DflashVerifyBinding, identity: PreparedReplayIdentity)
        ensures
            final(self)@ == old(self)@.prepared(binding@, identity),
    {
        if !self.phase.is_live() {
            return;
        }
        self.binding = Some(binding);
        self.identity = Some(identity);
        self.calibration = None;
        self.phase = DflashVerifyPm4Phase::Ready;
    }

    /// The contract probe rejected the capture. The current result stands.
    pub fn note_contract_failure(&mut self, reason: &str)
        requires
            old(self)@.counters.contract_failures < u64::MAX,
            old(self)@.poisoned(reason@).counters.fits(),
        ensures
            final(self)@ == (RouteView {
                counters: CountersView {
                    contract_failures: old(self)@.counters.contract_failures + 1,
                    ..old(self)@.counters
                },
                ..old(self)@
            }).poisoned(reason@),
    {
        self.counters.contract_failures = self.counters.contract_failures + 1;
        self.poison(reason);
    }

    /// Preparation failed. No model kernel ran; the current result stands.
    pub fn note_prepare_failure(&mut self, reason: &str)
        requires
            old(self)@.counters.prepare_failures < u64::MAX,
            old(self)@.poisoned(reason@).counters.fits(),
        ensures
            final(self)@ == (RouteView {
                counters: CountersView {
                    prepare_failures: old(self)@.counters.prepare_failures + 1,
                    ..old(self)@.counters
                },
                ..old(self)@
            }).poisoned(reason@),
    {
        self.counters.prepare_failures = self.counters.prepare_failures + 1;
        self.poison(reason);
    }

    /// A retained submission succeeded at `position`.
    pub fn note_replay_success(&mut self, position: usize)
        requires
            old(self)@.counters.replays < u64::MAX,
        ensures
            final(self)@ == (RouteView {
                counters: CountersView {
                    replays: old(self)@.counters.replays + 1,
                    first_replay_position: match old(self)@.counters.first_replay_position {
                        Some(p) => Some(p),
                        None => Some(position),
                    },
                    last_replay_position: Some(position),
                    ..old(self)@.counters
                },
                ..old(self)@
            }),
    {
        self.counters.replays = self.counters.replays + 1;
        if self.counters.first_replay_position.is_none() {
            self.counters.first_replay_position = Some(position);
        }
        self.counters.last_replay_position = Some(position);
    }

    /// A retained submission failed. Proven quiescence permits a direct rerun
    /// of the window; unknown quiescence quarantines the model.
    pub fn note_replay_failure(
        &mut self,
        position: usize,
        quiescence: ReplayQuiescence,
        reason: &str,
    )
        requires
            old(self)@.replay_failed(position, quiescence, reason@).counters.fits(),
        ensures
            final(self)@ == old(self)@.replay_failed(position, quiescence, reason@),
    {
        self.counters.replay_failures = self.counters.replay_failures + 1;
        self.counters.last_replay_position = Some(position);
        match quiescence {
            ReplayQuiescence::Proven => {
                self.poison(reason);
            },
            ReplayQuiescence::Unknown => {
                self.counters.poison_count = self.counters.poison_count + 1;
                self.identity = None;
                self.phase = DflashVerifyPm4Phase::Quarantined {
                    reason: String::from_str(reason),
                };
            },
        }
    }

    /// A window was rerun directly after a proven-quiescent failure.
    pub fn note_safe_hip_retry(&mut self)
        requires
            old(self)@.counters.safe_hip_retries < u64::MAX,
        ensures
            final(self)@ == (RouteView {
                counters: CountersView {
                    safe_hip_retries: old(self)@.counters.safe_hip_retries + 1,
                    ..old(self)@.counters
                },
                ..old(self)@
            }),
    {
        self.counters.safe_hip_retries = self.counters.safe_hip_retries + 1;
    }

    /// Sticky poison. The route stops; the ordinary route is unchanged.
    pub fn poison(&mut self, reason: &str)
        requires
            old(self)@.poisoned(reason@).counters.fits(),
        ensures
            final(self)@ == old(self)@.poisoned(reason@),
    {
        if matches!(self.phase, DflashVerifyPm4Phase::Quarantined { .. }) {
            return;
        }
        match &mut self.controller {
            Some(c) => {
                c.poison(reason);
            },
            None => {},
        }
        self.counters.poison_count = self.counters.poison_count + 1;
        self.identity = None;
        self.calibration = None;
        self.phase = DflashVerifyPm4Phase::Poisoned { reason: String::from_str(reason) };
    }

    /// Releases the controller once the caller has shut it down, which reports
    /// whether no retained work is in flight.
    ///
    /// Must complete before any captured allocation is freed. An error means
    /// that quiescence is unknown: the controller is kept, the model stays
    /// quarantined, and nothing it names may be deallocated. Without a
    /// controller there is nothing to shut down and `outcome` is not read.
    pub fn shutdown(&mut self, outcome: Result<(), String>) -> (r: Result<(), String>)
        ensures
            ({
                let before = old(self)@;
                let after = final(self)@;
                if before.controller is None {
                    &&& r is Ok
                    &&& after == (RouteView { identity: None, binding: None, ..before })
                } else {
                    match outcome {
                        Ok(_) => {
                            &&& r is Ok
                            &&& after == (RouteView {
                                controller: None,
                                identity: None,
                                binding: None,
                                phase: if before.phase.live() {
                                    PhaseView::Disabled("shut down"@)
                                } else {
                                    before.phase
                                },
                                ..before
                            })
                        },
                        Err(error) => {
                            let reason = "dflash verify PM4 shutdown failed: "@ + error@;
                            &&& r is Err
                            &&& r->Err_0@ == reason
                            &&& after == (RouteView {
                                phase: PhaseView::Quarantined(reason),
                                ..before
                            })
                        },
                    }
                }
            }),
    {
        if self.controller.is_none() {
            self.identity = None;
            self.binding = None;
            return Ok(());
        }
        match outcome {
            Ok(_) => {
                self.controller = None;
                self.identity = None;
                self.binding = None;
                if self.phase.is_live() {
                    self.phase = DflashVerifyPm4Phase::Disabled {
                        reason: String::from_str("shut down"),
                    };
                }
                Ok(())
            },
            Err(error) => {
                let mut reason: String = String::from_str("dflash verify PM4 shutdown failed: ");
                reason.append(error.as_str());
                self.phase = DflashVerifyPm4Phase::Quarantined { reason: reason.clone() };
                Err(reason)
            },
        }
    }
}

// ---- Report ----

/// A count as JSON, `null` where there is none.
pub open spec fn count_or_null(n: Option<usize>) -> Seq<char> {
    match n {
        Some(n) => decimal_text(n as int),
        None => "null"@,
    }
}

/// A text as JSON, `null` where there is none.
pub open spec fn text_or_null(t: Option<Seq<char>>) -> Seq<char> {
    match t {
        Some(t) => json_quoted(t),
        None => "null"@,
    }
}

impl BindingView {
    /// The binding as a JSON object.
    pub open spec fn json(self) -> Seq<char> {
        "{\"arch\":"@ + json_quoted(self.arch) + ",\"batch\":"@ + decimal_text(self.batch as int)
            + ",\"dn_state_quant\":"@ + json_quoted(self.dn_state_quant) + ",\"kv_mode\":"@
            + json_quoted(self.kv_mode) + ",\"layout_generation\":"@ + decimal_text(
            self.layout_generation as int,
        ) + ",\"max_position\":"@ + decimal_text(self.max_position as int)
            + ",\"model_fingerprint\":"@ + decimal_text(self.model_fingerprint as int) + "}"@
    }
}

impl CountersView {
    /// The counters as a JSON object.
    pub open spec fn json(self) -> Seq<char> {
        "{\"calibration_captures\":"@ + decimal_text(self.calibration_captures)
            + ",\"capture_attempts\":"@ + decimal_text(self.capture_attempts) + ",\"captures\":"@
            + decimal_text(self.captures) + ",\"contract_failures\":"@ + decimal_text(
            self.contract_failures,
        ) + ",\"first_replay_position\":"@ + count_or_null(self.first_replay_position)
            + ",\"full_hip\":"@ + decimal_text(self.full_hip) + ",\"last_replay_position\":"@
            + count_or_null(self.last_replay_position) + ",\"partial_hip\":"@ + decimal_text(
            self.partial_hip,
        ) + ",\"poison_count\":"@ + decimal_text(self.poison_count) + ",\"position_bindings\":"@
            + decimal_text(self.position_bindings) + ",\"prepare_failures\":"@ + decimal_text(
            self.prepare_failures,
        ) + ",\"prime_windows\":"@ + decimal_text(self.prime_windows) + ",\"rearms\":"@
            + decimal_text(self.rearms) + ",\"replay_failures\":"@ + decimal_text(
            self.replay_failures,
        ) + ",\"replays\":"@ + decimal_text(self.replays) + ",\"safe_hip_retries\":"@
            + decimal_text(self.safe_hip_retries) + "}"@
    }
}

impl RouteView {
    /// The route's evidence as a JSON object.
    pub open spec fn json(self) -> Seq<char> {
        let id = self.identity;
        let of = |n: usize| if id is Some {
            Some(n)
        } else {
            None::<usize>
        };
        "{\"binding\":"@ + (match self.binding {
            Some(b) => b.json(),
            None => "null"@,
        }) + ",\"counters\":"@ + self.counters.json()
            + ",\"dn_state_quant\":\"q8\",\"kv_mode\":\"q8\",\"phase\":"@ + json_quoted(
            self.phase.label(),
        ) + ",\"prepared_dispatch_count\":"@ + count_or_null(of(id->Some_0.dispatch_count))
            + ",\"prepared_packet_count\":"@ + count_or_null(
            if id is Some {
                id->Some_0.packet_count
            } else {
                None
            },
        ) + ",\"prepared_phase_count\":"@ + count_or_null(of(id->Some_0.phase_count))
            + ",\"prepared_queue_count\":"@ + count_or_null(of(id->Some_0.queue_count))
            + ",\"prepared_queue_id\":"@ + (match id {
            Some(i) => decimal_text(i.queue_id as int),
            None => "null"@,
        }) + ",\"reason\":"@ + text_or_null(self.phase.reason()) + "}"@
    }
}

fn append_number(out: &mut String, key: &str, n: u64)
    ensures
        final(out)@ == old(out)@ + key@ + decimal_text(n as int),
{
    out.append(key);
    append_decimal(out, n);
}

fn append_count(out: &mut String, key: &str, n: Option<usize>)
    ensures
        final(out)@ == old(out)@ + key@ + count_or_null(n),
{
    out.append(key);
    match n {
        Some(n) => append_decimal(out, n as u64),
        None => out.append("null"),
    }
}

fn append_text(out: &mut String, key: &str, t: Option<&str>)
    ensures
        final(out)@ == old(out)@ + key@ + text_or_null(
            match t {
                Some(t) => Some(t@),
                None => None,
            },
        ),
{
    out.append(key);
    match t {
        Some(t) => out.append(quote(t).as_str()),
        None => out.append("null"),
    }
}

fn append_binding(out: &mut String, b: &DflashVerifyBinding)
    ensures
        final(out)@ == old(out)@ + b@.json(),
{
    let mut t: String = String::new();
    append_text(&mut t, "{\"arch\":", Some(b.arch.as_str()));
    append_number(&mut t, ",\"batch\":", b.batch as u64);
    append_text(&mut t, ",\"dn_state_quant\":", Some(b.dn_state_quant.as_str()));
    append_text(&mut t, ",\"kv_mode\":", Some(b.kv_mode.as_str()));
    append_number(&mut t, ",\"layout_generation\":", b.layout_generation);
    append_number(&mut t, ",\"max_position\":", b.max_position as u64);
    append_number(&mut t, ",\"model_fingerprint\":", b.model_fingerprint);
    t.append("}");
    assert(t@ =~= b@.json());
    out.append(t.as_str());
}

fn append_counters(out: &mut String, c: &DflashVerifyPm4Counters)
    ensures
        final(out)@ == old(out)@ + c@.json(),
{
    let mut t: String = String::new();
    append_number(&mut t, "{\"calibration_captures\":", c.calibration_captures);
    append_number(&mut t, ",\"capture_attempts\":", c.capture_attempts);
    append_number(&mut t, ",\"captures\":", c.captures);
    append_number(&mut t, ",\"contract_failures\":", c.contract_failures);
    append_count(&mut t, ",\"first_replay_position\":", c.first_replay_position);
    append_number(&mut t, ",\"full_hip\":", c.full_hip);
    append_count(&mut t, ",\"last_replay_position\":", c.last_replay_position);
    append_number(&mut t, ",\"partial_hip\":", c.partial_hip);
    append_number(&mut t, ",\"poison_count\":", c.poison_count);
    append_number(&mut t, ",\"position_bindings\":", c.position_bindings);
    append_number(&mut t, ",\"prepare_failures\":", c.prepare_failures);
    append_number(&mut t, ",\"prime_windows\":", c.prime_windows);
    append_number(&mut t, ",\"rearms\":", c.rearms);
    append_number(&mut t, ",\"replay_failures\":", c.replay_failures);
    append_number(&mut t, ",\"replays\":", c.replays);
    append_number(&mut t, ",\"safe_hip_retries\":", c.safe_hip_retries);
    t.append("}");
    assert(t@ =~= c@.json());
    out.append(t.as_str());
}

impl DflashVerifyPm4 {
    /// Route-proof evidence for the daemon and its request markers, as JSON
    /// text.
    pub fn report_json(&self) -> (r: String)
        ensures
            r@ == self@.json(),
    {
        let mut t: String = String::from_str("{\"binding\":");
        match &self.binding {
            Some(b) => append_binding(&mut t, b),
            None => t.append("null"),
        }
        t.append(",\"counters\":");
        append_counters(&mut t, &self.counters);
        append_text(
            &mut t,
            ",\"dn_state_quant\":\"q8\",\"kv_mode\":\"q8\",\"phase\":",
            Some(self.phase.label()),
        );
        match &self.identity {
            Some(id) => {
                append_count(&mut t, ",\"prepared_dispatch_count\":", Some(id.dispatch_count));
                append_count(&mut t, ",\"prepared_packet_count\":", id.packet_count);
                append_count(&mut t, ",\"prepared_phase_count\":", Some(id.phase_count));
                append_count(&mut t, ",\"prepared_queue_count\":", Some(id.queue_count));
                append_number(&mut t, ",\"prepared_queue_id\":", id.queue_id);
            },
            None => {
                append_count(&mut t, ",\"prepared_dispatch_count\":", None);
                append_count(&mut t, ",\"prepared_packet_count\":", None);
                append_count(&mut t, ",\"prepared_phase_count\":", None);
                append_count(&mut t, ",\"prepared_queue_count\":", None);
                append_count(&mut t, ",\"prepared_queue_id\":", None);
            },
        }
        append_text(&mut t, ",\"reason\":", self.phase.reason());
        t.append("}");
        assert(t@ =~= self@.json());
        t
    }
}

// ---- Laws ----

/// A route that is not live never leaves the ordinary route, and planning a
/// window does not bring it back.
pub proof fn law_not_live_stays_on_hip(r: RouteView, w: WindowView)
    requires
        !r.phase.live(),
    ensures
        r.planned(w).1 == DflashVerifyRoute::HipAuto,
        r.planned(w).0.phase == r.phase,
{
}

/// A route that is not live stays that way: neither a window nor any notice
/// brings it back.
pub proof fn law_stopped_routes_stay_stopped(
    r: RouteView,
    w: WindowView,
    snapshot: RecordedKernargSnapshot,
    position: usize,
    binding: BindingView,
    identity: PreparedReplayIdentity,
    quiescence: ReplayQuiescence,
    reason: Seq<char>,
)
    requires
        !r.phase.live(),
    ensures
        !r.planned(w).0.phase.live(),
        r.calibrated(snapshot, position).phase == r.phase,
        r.prepared(binding, identity) == r,
        !r.poisoned(reason).phase.live(),
        !r.replay_failed(position, quiescence, reason).phase.live(),
{
}

/// A retained submission is chosen only for a full block on a prepared route
/// whose binding is the window's and whose geometry covers it.
pub proof fn law_pm4_only_when_prepared(r: RouteView, w: WindowView)
    ensures
        r.planned(w).1 == DflashVerifyRoute::Pm4 <==> r.phase is Ready && w.eligible()
            && r.matches(w) && r.admits_position(w),
        r.planned(w).1 == DflashVerifyRoute::Pm4 ==> r.planned(w).0 == r,
{
}

/// A window of another shape stays on the ordinary route and leaves everything
/// but its counter as it was.
pub proof fn law_other_shapes_stay_on_hip(r: RouteView, w: WindowView)
    requires
        !w.eligible(),
    ensures
        r.planned(w).1 == DflashVerifyRoute::HipAuto,
        r.planned(w).0 == (RouteView { counters: r.planned(w).0.counters, ..r }),
{
}

/// A changed binding or a position past the prepared geometry rearms the route:
/// it drops what was prepared and counts a rearm, never a poison.
pub proof fn law_rearm_is_not_poison(r: RouteView, w: WindowView)
    requires
        r.phase is Ready,
        w.eligible(),
        !r.matches(w) || !r.admits_position(w),
    ensures
        r.planned(w).1 == DflashVerifyRoute::PrimeDirect,
        r.planned(w).0.phase is Armed,
        r.planned(w).0.identity is None,
        r.planned(w).0.counters.rearms == r.counters.rearms + 1,
        r.planned(w).0.counters.poison_count == r.counters.poison_count,
{
}

/// Quarantine is never downgraded to poison.
pub proof fn law_quarantine_outlasts_poison(r: RouteView, reason: Seq<char>)
    requires
        r.phase is Quarantined,
    ensures
        r.poisoned(reason) == r,
{
}

/// A failed replay always takes the route out of service, and unknown
/// quiescence always quarantines it.
pub proof fn law_replay_failure_stops_the_route(
    r: RouteView,
    position: usize,
    quiescence: ReplayQuiescence,
    reason: Seq<char>,
)
    ensures
        !r.replay_failed(position, quiescence, reason).phase.live(),
        quiescence == ReplayQuiescence::Unknown ==> r.replay_failed(
            position,
            quiescence,
            reason,
        ).phase is Quarantined,
        r.phase is Quarantined ==> r.replay_failed(
            position,
            quiescence,
            reason,
        ).phase is Quarantined,
{
}

/// Event counters never go down, and a decision counts exactly one window
/// unless it replays.
pub proof fn law_counters_are_monotonic(
    r: RouteView,
    w: WindowView,
    position: usize,
    quiescence: ReplayQuiescence,
    reason: Seq<char>,
)
    ensures
        r.planned(w).0.counters.at_least(r.counters),
        r.poisoned(reason).counters.at_least(r.counters),
        r.replay_failed(position, quiescence, reason).counters.at_least(r.counters),
        ({
            let a = r.planned(w).0.counters;
            let b = r.counters;
            a.full_hip + a.partial_hip + a.prime_windows + a.capture_attempts == b.full_hip
                + b.partial_hip + b.prime_windows + b.capture_attempts + if r.planned(w).1
                == DflashVerifyRoute::Pm4 {
                0int
            } else {
                1
            }
        }),
{
}

/// A second capture is recorded only at another position than the first.
pub proof fn law_calibration_needs_another_position(r: RouteView, w: WindowView)
    requires
        r.phase is Calibrating,
        r.calibration is Some,
        r.planned(w).1 == DflashVerifyRoute::CaptureRecord,
    ensures
        r.calibration->Some_0.1 != w.position,
{
}

/// The windows of a live route, in the order of its phases: an armed route primes,
/// a primed one captures, a calibrating one captures at another position than
/// before, and a ready one replays.
pub proof fn law_live_routes_move_on(r: RouteView, w: WindowView)
    requires
        w.batch == DFLASH_VERIFY_PM4_BLOCK,
        !w.tree,
        !w.want_full_logits,
    ensures
        r.phase is Armed ==> r.planned(w).1 == DflashVerifyRoute::PrimeDirect,
        r.phase is Primed && r.matches(w) ==> r.planned(w).1 == DflashVerifyRoute::CaptureRecord,
        r.phase is Calibrating && r.matches(w) && r.calibration is Some
            && r.calibration->Some_0.1 != w.position ==> r.planned(w).1
            == DflashVerifyRoute::CaptureRecord,
        r.phase is Calibrating && r.matches(w) && r.calibration is Some
            && r.calibration->Some_0.1 == w.position ==> r.planned(w).1
            == DflashVerifyRoute::PrimeDirect && r.planned(w).0.phase == r.phase
            && r.planned(w).0.calibration == r.calibration,
        r.phase is Ready && r.matches(w) && w.position + w.batch
            <= r.binding->Some_0.max_position ==> r.planned(w).1 == DflashVerifyRoute::Pm4,
        (r.phase is Primed || r.phase is Calibrating || r.phase is Ready) && !r.matches(w)
            ==> r.planned(w).1 == DflashVerifyRoute::PrimeDirect && r.planned(w).0.phase
            == PhaseView::Armed && r.planned(w).0.binding is None
            && r.planned(w).0.calibration is None,
{
}

/// A route is a window's exactly where everything it was prepared for is the same:
/// block, architecture, model, layout, cache and state; the position bound alone
/// may differ.
pub proof fn law_bindings_are_compared_whole(a: BindingView, b: BindingView)
    ensures
        a.same_route(b) <==> a.batch == b.batch && a.arch == b.arch && a.model_fingerprint
            == b.model_fingerprint && a.layout_generation == b.layout_generation && a.kv_mode
            == b.kv_mode && a.dn_state_quant == b.dn_state_quant,
{
}

/// Each window is counted under its own name: ordinary ones by whether they are
/// full blocks, direct ones as primes, captures as attempts.
pub proof fn law_windows_are_counted_by_name(r: RouteView, w: WindowView)
    ensures
        ({
            let (after, route) = r.planned(w);
            let (a, b) = (after.counters, r.counters);
            &&& route == DflashVerifyRoute::HipAuto ==> a.prime_windows == b.prime_windows
                && a.capture_attempts == b.capture_attempts
            &&& route == DflashVerifyRoute::HipAuto && w.batch == DFLASH_VERIFY_PM4_BLOCK
                ==> a.full_hip == b.full_hip + 1 && a.partial_hip == b.partial_hip
            &&& route == DflashVerifyRoute::HipAuto && w.batch != DFLASH_VERIFY_PM4_BLOCK
                ==> a.partial_hip == b.partial_hip + 1 && a.full_hip == b.full_hip
            &&& route == DflashVerifyRoute::PrimeDirect ==> a.prime_windows == b.prime_windows + 1
                && a.capture_attempts == b.capture_attempts
            &&& route == DflashVerifyRoute::CaptureRecord ==> a.capture_attempts
                == b.capture_attempts + 1 && a.prime_windows == b.prime_windows
            &&& a.replays == b.replays && a.captures == b.captures && a.replay_failures
                == b.replay_failures
        }),
{
}

/// A live route that is prepared replays for its binding, with the identity it was
/// prepared under and nothing left of its calibration; a capture is remembered
/// with its position and counted.
pub proof fn law_prepared_routes_replay(
    r: RouteView,
    w: WindowView,
    binding: BindingView,
    identity: PreparedReplayIdentity,
    snapshot: RecordedKernargSnapshot,
    position: usize,
)
    requires
        r.phase.live(),
    ensures
        ({
            let p = r.prepared(binding, identity);
            &&& p.phase == PhaseView::Ready
            &&& p.binding == Some(binding)
            &&& p.identity == Some(identity)
            &&& p.calibration is None
            &&& p.counters == r.counters
            &&& binding.same_route(w.binding) && w.batch == DFLASH_VERIFY_PM4_BLOCK && !w.tree
                && !w.want_full_logits && w.position + w.batch <= binding.max_position
                ==> p.planned(w).1 == DflashVerifyRoute::Pm4
        }),
        ({
            let c = r.calibrated(snapshot, position);
            &&& c.phase == PhaseView::Calibrating
            &&& c.calibration == Some((snapshot, position))
            &&& c.counters.captures == r.counters.captures + 1
            &&& c.counters.calibration_captures == r.counters.calibration_captures + 1
            &&& c.binding == r.binding
        }),
{
}

/// A poisoned route drops what it prepared, keeps the reason, tells the controller
/// and counts it; a failed replay is counted with its position.
pub proof fn law_poison_drops_what_was_prepared(
    r: RouteView,
    reason: Seq<char>,
    position: usize,
    quiescence: ReplayQuiescence,
)
    requires
        !(r.phase is Quarantined),
    ensures
        ({
            let p = r.poisoned(reason);
            &&& p.phase == PhaseView::Poisoned(reason)
            &&& p.identity is None
            &&& p.calibration is None
            &&& p.counters.poison_count == r.counters.poison_count + 1
            &&& r.controller is Some ==> p.controller == Some(
                r.controller->Some_0.push(CommandView::Poison(reason)),
            )
        }),
        ({
            let f = r.replay_failed(position, quiescence, reason);
            &&& f.identity is None
            &&& f.counters.replay_failures == r.counters.replay_failures + 1
            &&& f.counters.last_replay_position == Some(position)
            &&& f.counters.poison_count == r.counters.poison_count + 1
            &&& quiescence == ReplayQuiescence::Proven ==> f.phase == PhaseView::Poisoned(reason)
            &&& quiescence == ReplayQuiescence::Unknown ==> f.phase == PhaseView::Quarantined(
                reason,
            )
        }),
{
}

/// A route is live until it is disabled, poisoned or quarantined, and then says
/// why.
pub proof fn law_stopped_routes_say_why(p: PhaseView)
    ensures
        p.live() <==> p is Armed || p is Primed || p is Calibrating || p is Ready,
        p.live() <==> p.reason() is None,
        p is Disabled ==> p.reason() == Some(p->Disabled_0),
        p is Poisoned ==> p.reason() == Some(p->Poisoned_0),
        p is Quarantined ==> p.reason() == Some(p->Quarantined_0),
{
}

spec fn counter_pieces(c: CountersView) -> Seq<Seq<char>> {
    seq![
        "{\"calibration_captures\":"@,
        decimal_text(c.calibration_captures),
        ",\"capture_attempts\":"@,
        decimal_text(c.capture_attempts),
        ",\"captures\":"@,
        decimal_text(c.captures),
        ",\"contract_failures\":"@,
        decimal_text(c.contract_failures),
        ",\"first_replay_position\":"@,
        count_or_null(c.first_replay_position),
        ",\"full_hip\":"@,
        decimal_text(c.full_hip),
        ",\"last_replay_position\":"@,
        count_or_null(c.last_replay_position),
        ",\"partial_hip\":"@,
        decimal_text(c.partial_hip),
        ",\"poison_count\":"@,
        decimal_text(c.poison_count),
        ",\"position_bindings\":"@,
        decimal_text(c.position_bindings),
        ",\"prepare_failures\":"@,
        decimal_text(c.prepare_failures),
        ",\"prime_windows\":"@,
        decimal_text(c.prime_windows),
        ",\"rearms\":"@,
        decimal_text(c.rearms),
        ",\"replay_failures\":"@,
        decimal_text(c.replay_failures),
        ",\"replays\":"@,
        decimal_text(c.replays),
        ",\"safe_hip_retries\":"@,
        decimal_text(c.safe_hip_retries),
        "}"@,
    ]
}

proof fn lemma_join_33(p: Seq<Seq<char>>)
    requires
        p.len() == 33,
    ensures
        joined_texts(p, 33) == p[0] + p[1] + p[2] + p[3] + p[4] + p[5] + p[6] + p[7] + p[8] + p[9]
            + p[10] + p[11] + p[12] + p[13] + p[14] + p[15] + p[16] + p[17] + p[18] + p[19]
            + p[20] + p[21] + p[22] + p[23] + p[24] + p[25] + p[26] + p[27] + p[28] + p[29]
            + p[30] + p[31] + p[32],
{
    reveal_with_fuel(joined_texts, 34);
}

/// Each counter is reported under its own name.
pub proof fn law_counters_are_reported_under_their_names(c: CountersView)
    ensures
        occurs(c.json(), "{\"calibration_captures\":"@ + decimal_text(c.calibration_captures)),
        occurs(c.json(), ",\"capture_attempts\":"@ + decimal_text(c.capture_attempts)),
        occurs(c.json(), ",\"captures\":"@ + decimal_text(c.captures)),
        occurs(c.json(), ",\"contract_failures\":"@ + decimal_text(c.contract_failures)),
        occurs(
            c.json(),
            ",\"first_replay_position\":"@ + count_or_null(c.first_replay_position),
        ),
        occurs(c.json(), ",\"full_hip\":"@ + decimal_text(c.full_hip)),
        occurs(c.json(), ",\"last_replay_position\":"@ + count_or_null(c.last_replay_position)),
        occurs(c.json(), ",\"partial_hip\":"@ + decimal_text(c.partial_hip)),
        occurs(c.json(), ",\"poison_count\":"@ + decimal_text(c.poison_count)),
        occurs(c.json(), ",\"position_bindings\":"@ + decimal_text(c.position_bindings)),
        occurs(c.json(), ",\"prepare_failures\":"@ + decimal_text(c.prepare_failures)),
        occurs(c.json(), ",\"prime_windows\":"@ + decimal_text(c.prime_windows)),
        occurs(c.json(), ",\"rearms\":"@ + decimal_text(c.rearms)),
        occurs(c.json(), ",\"replay_failures\":"@ + decimal_text(c.replay_failures)),
        occurs(c.json(), ",\"replays\":"@ + decimal_text(c.replays)),
        occurs(c.json(), ",\"safe_hip_retries\":"@ + decimal_text(c.safe_hip_retries)),
{
    let p = counter_pieces(c);
    lemma_join_33(p);
    assert(c.json() == joined_texts(p, 33));
    lemma_pieces_occur(p, 33, 0);
    lemma_pieces_occur(p, 33, 2);
    lemma_pieces_occur(p, 33, 4);
    lemma_pieces_occur(p, 33, 6);
    lemma_pieces_occur(p, 33, 8);
    lemma_pieces_occur(p, 33, 10);
    lemma_pieces_occur(p, 33, 12);
    lemma_pieces_occur(p, 33, 14);
    lemma_pieces_occur(p, 33, 16);
    lemma_pieces_occur(p, 33, 18);
    lemma_pieces_occur(p, 33, 20);
    lemma_pieces_occur(p, 33, 22);
    lemma_pieces_occur(p, 33, 24);
    lemma_pieces_occur(p, 33, 26);
    lemma_pieces_occur(p, 33, 28);
    lemma_pieces_occur(p, 33, 30);
}

/// A route's report tells what it holds: its binding, its counters, its phase and
/// why it stopped, and what it prepared, each under its own name.
pub proof fn law_reports_tell_the_route(r: RouteView, b: BindingView, id: PreparedReplayIdentity)
    requires
        r.binding == Some(b),
        r.identity == Some(id),
    ensures
        ({
            let t = r.json();
            &&& occurs(t, "{\"binding\":"@ + b.json())
            &&& occurs(t, ",\"counters\":"@ + r.counters.json())
            &&& occurs(
                t,
                ",\"dn_state_quant\":\"q8\",\"kv_mode\":\"q8\",\"phase\":"@ + json_quoted(
                    r.phase.label(),
                ),
            )
            &&& occurs(
                t,
                ",\"prepared_dispatch_count\":"@ + count_or_null(Some(id.dispatch_count)),
            )
            &&& occurs(t, ",\"prepared_packet_count\":"@ + count_or_null(id.packet_count))
            &&& occurs(t, ",\"prepared_phase_count\":"@ + count_or_null(Some(id.phase_count)))
            &&& occurs(t, ",\"prepared_queue_count\":"@ + count_or_null(Some(id.queue_count)))
            &&& occurs(t, ",\"prepared_queue_id\":"@ + decimal_text(id.queue_id as int))
            &&& occurs(t, ",\"reason\":"@ + text_or_null(r.phase.reason()))
        }),
{
    let p = seq![
        "{\"binding\":"@,
        b.json(),
        ",\"counters\":"@,
        r.counters.json(),
        ",\"dn_state_quant\":\"q8\",\"kv_mode\":\"q8\",\"phase\":"@,
        json_quoted(r.phase.label()),
        ",\"prepared_dispatch_count\":"@,
        count_or_null(Some(id.dispatch_count)),
        ",\"prepared_packet_count\":"@,
        count_or_null(id.packet_count),
        ",\"prepared_phase_count\":"@,
        count_or_null(Some(id.phase_count)),
        ",\"prepared_queue_count\":"@,
        count_or_null(Some(id.queue_count)),
        ",\"prepared_queue_id\":"@,
        decimal_text(id.queue_id as int),
        ",\"reason\":"@,
        text_or_null(r.phase.reason()),
        "}"@,
    ];
    lemma_join_19(p);
    assert(r.json() == joined_texts(p, 19));
    lemma_pieces_occur(p, 19, 0);
    lemma_pieces_occur(p, 19, 2);
    lemma_pieces_occur(p, 19, 4);
    lemma_pieces_occur(p, 19, 6);
    lemma_pieces_occur(p, 19, 8);
    lemma_pieces_occur(p, 19, 10);
    lemma_pieces_occur(p, 19, 12);
    lemma_pieces_occur(p, 19, 14);
    lemma_pieces_occur(p, 19, 16);
}

proof fn lemma_join_19(p: Seq<Seq<char>>)
    requires
        p.len() == 19,
    ensures
        joined_texts(p, 19) == p[0] + p[1] + p[2] + p[3] + p[4] + p[5] + p[6] + p[7] + p[8] + p[9]
            + p[10] + p[11] + p[12] + p[13] + p[14] + p[15] + p[16] + p[17] + p[18],
{
    reveal_with_fuel(joined_texts, 20);
}

/// A binding's report tells everything it is compared by.
pub proof fn law_reports_tell_the_binding(b: BindingView)
    ensures
        occurs(b.json(), "{\"arch\":"@ + json_quoted(b.arch)),
        occurs(b.json(), ",\"batch\":"@ + decimal_text(b.batch as int)),
        occurs(b.json(), ",\"dn_state_quant\":"@ + json_quoted(b.dn_state_quant)),
        occurs(b.json(), ",\"kv_mode\":"@ + json_quoted(b.kv_mode)),
        occurs(b.json(), ",\"layout_generation\":"@ + decimal_text(b.layout_generation as int)),
        occurs(b.json(), ",\"max_position\":"@ + decimal_text(b.max_position as int)),
        occurs(b.json(), ",\"model_fingerprint\":"@ + decimal_text(b.model_fingerprint as int)),
{
    let p = seq![
        "{\"arch\":"@,
        json_quoted(b.arch),
        ",\"batch\":"@,
        decimal_text(b.batch as int),
        ",\"dn_state_quant\":"@,
        json_quoted(b.dn_state_quant),
        ",\"kv_mode\":"@,
        json_quoted(b.kv_mode),
        ",\"layout_generation\":"@,
        decimal_text(b.layout_generation as int),
        ",\"max_position\":"@,
        decimal_text(b.max_position as int),
        ",\"model_fingerprint\":"@,
        decimal_text(b.model_fingerprint as int),
        "}"@,
    ];
    lemma_join_15(p);
    assert(b.json() == joined_texts(p, 15));
    lemma_pieces_occur(p, 15, 0);
    lemma_pieces_occur(p, 15, 2);
    lemma_pieces_occur(p, 15, 4);
    lemma_pieces_occur(p, 15, 6);
    lemma_pieces_occur(p, 15, 8);
    lemma_pieces_occur(p, 15, 10);
    lemma_pieces_occur(p, 15, 12);
}

proof fn lemma_join_15(p: Seq<Seq<char>>)
    requires
        p.len() == 15,
    ensures
        joined_texts(p, 15) == p[0] + p[1] + p[2] + p[3] + p[4] + p[5] + p[6] + p[7] + p[8] + p[9]
            + p[10] + p[11] + p[12] + p[13] + p[14],
{
    reveal_with_fuel(joined_texts, 16);
}

/// A count that is there is told in decimal, one that is not as null; a phase is told
/// by a name of its own.
pub proof fn law_phases_have_names_of_their_own(p: PhaseView, q: PhaseView, n: usize)
    ensures
        count_or_null(Some(n)) == decimal_text(n as int),
        count_or_null(None) == "null"@,
        p.label() == q.label() ==> {
            ||| p is Armed && q is Armed
            ||| p is Primed && q is Primed
            ||| p is Calibrating && q is Calibrating
            ||| p is Ready && q is Ready
            ||| p is Disabled && q is Disabled
            ||| p is Poisoned && q is Poisoned
            ||| p is Quarantined && q is Quarantined
        },
{
    reveal_strlit("disabled");
    reveal_strlit("armed");
    reveal_strlit("primed");
    reveal_strlit("calibrating");
    reveal_strlit("ready");
    reveal_strlit("poisoned");
    reveal_strlit("quarantined");
    assert("disabled"@.len() == 8 && "disabled"@[0] == 'd');
    assert("armed"@.len() == 5 && "armed"@[0] == 'a');
    assert("primed"@.len() == 6 && "primed"@[0] == 'p');
    assert("calibrating"@.len() == 11 && "calibrating"@[0] == 'c');
    assert("ready"@.len() == 5 && "ready"@[0] == 'r');
    assert("poisoned"@.len() == 8 && "poisoned"@[0] == 'p');
    assert("quarantined"@.len() == 11 && "quarantined"@[0] == 'q');
    if p.label() == q.label() {
        assert(p.label().len() == q.label().len() && p.label()[0] == q.label()[0]);
    }
}

/// A replay stays within what was prepared: only a full block without a tree and
/// without full scores, on the binding it was prepared for, that ends within the
/// prepared positions.
pub proof fn law_replays_stay_within_what_was_prepared(r: RouteView, w: WindowView)
    requires
        r.planned(w).1 == DflashVerifyRoute::Pm4,
    ensures
        r.phase == PhaseView::Ready,
        w.batch == DFLASH_VERIFY_PM4_BLOCK,
        !w.tree,
        !w.want_full_logits,
        r.binding is Some,
        r.binding->Some_0.arch == w.binding.arch,
        r.binding->Some_0.model_fingerprint == w.binding.model_fingerprint,
        r.binding->Some_0.layout_generation == w.binding.layout_generation,
        w.position + w.batch <= r.binding->Some_0.max_position,
{
}

} // verus!
