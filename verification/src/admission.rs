//! Admission of one request as a state machine.
//!
//! The engine performs each action (matching a conversation, opening a session,
//! restoring a snapshot, telling the client) and hands back the event; the
//! machine decides what comes next. A continuation is tried first; a request
//! that cannot continue a conversation is prefilled cold.

use crate::policy::{
    mtp_allowed, reused_tokens_from_plan, should_lookup_prefix, should_wait_instead_of_reject,
};
use crate::scheduler::{greatest, least, PendingWork, VlPrefill};
use crate::serve_contract::PAGE_TOKENS;
use crate::text::{append_decimal, decimal_text, join2, joined_texts, lemma_pieces_occur, occurs};
use vstd::prelude::*;
use vstd::string::StringExecFns;

verus! {

/// How a request's suffix continues a conversation.
#[derive(Debug, Clone, Copy, PartialEq, Eq, Structural)]
pub enum ContinuationKind {
    /// It does not.
    Cold,
    /// A new user turn of the conversation one turn behind.
    UserTurn,
    /// Results for the tool calls of this session.
    ToolResults(u64),
}

/// What admission knows of the request and the rig.
#[derive(Debug, Clone, Copy, PartialEq, Eq, Structural)]
pub struct AdmitFacts {
    pub has_visual: bool,
    pub vision_loaded: bool,
    pub paged: bool,
    pub vl_sequential: bool,
    pub image_pad_known: bool,
    pub n_visual_tokens: usize,
    /// Rotary phase rows of a request with images.
    pub phase_rows: usize,
    pub prompt_len: usize,
    pub continuation: ContinuationKind,
    /// Tokens to append when a conversation is continued.
    pub suffix_len: usize,
    pub max_tokens: usize,
    pub cap_tokens: usize,
    pub prefix_cache: bool,
    pub wait_enabled: bool,
    pub has_schema: bool,
    /// Canonical input bytes of the request; 0 if it never went through a queue
    /// that counts them.
    pub queue_bytes: u64,
}

/// Why a request is refused.
#[derive(Debug, Clone, Copy, PartialEq, Eq, Structural)]
pub enum Refusal {
    NoVisionEncoder,
    NeedsContiguousSlots,
    NoImagePad,
    NoVisualTokens,
    PhaseRows { rows: usize, prompt: usize },
    /// The conversation cannot grow any more.
    ContextFull { held: usize, cap: usize },
    /// The conversation and the requested tokens do not fit.
    ContextBudget { held: usize, asked: usize, cap: usize },
    PromptTooLong { prompt: usize, cap: usize },
    EvictionFailed,
    /// The waiting room refused the request, for the reason it gave.
    QueueFull,
    /// Opening failed, for the reason it gave, and there is no waiting room.
    NotOpened,
    NoSlot,
    /// The slot's recurrent state could not be reset, for the reason given.
    ResetFailed,
    /// The turn could not begin, for the reason given.
    TurnFailed,
    /// The schema did not compile, for the reason given.
    SchemaFailed,
}

/// Text of a refusal. `detail` is the reason that the failed action gave.
pub open spec fn refusal_chars(r: Refusal, detail: Seq<char>) -> Seq<char> {
    match r {
        Refusal::NoVisionEncoder => "VL request but model has no vision encoder"@,
        Refusal::NeedsContiguousSlots => "VL sequential path requires contiguous KV slots"@,
        Refusal::NoImagePad => "VL tokenizer missing <|image_pad|>"@,
        Refusal::NoVisualTokens => "VL request has no visual tokens"@,
        Refusal::PhaseRows { rows, prompt } => "VL mrope_positions length "@ + decimal_text(
            rows as int,
        ) + " != prompt_tokens "@ + decimal_text(prompt as int),
        Refusal::ContextFull { held, cap } => "context window full: the conversation holds "@
            + decimal_text(held as int) + " of "@ + decimal_text(cap as int)
            + " tokens and cannot extend — start a new conversation"@,
        Refusal::ContextBudget { held, asked, cap } =>
            "context window budget: the conversation would hold "@ + decimal_text(held as int)
            + " tokens and the request asks for "@ + decimal_text(asked as int)
            + " more, beyond the "@ + decimal_text(cap as int)
            + " token context — reduce max_tokens or start a new conversation"@,
        Refusal::PromptTooLong { prompt, cap } => "prompt of "@ + decimal_text(prompt as int)
            + " tokens exceeds the slot context cap of "@ + decimal_text(cap as int)
            + " tokens"@,
        Refusal::EvictionFailed => "eviction failed"@,
        Refusal::QueueFull => "serve queue full: "@ + detail,
        Refusal::NotOpened => detail,
        Refusal::NoSlot => "admitted session holds no slot"@,
        Refusal::ResetFailed => "state reset failed: "@ + detail,
        Refusal::TurnFailed => detail,
        Refusal::SchemaFailed => "json_schema compile failed on admit: "@ + detail,
    }
}

/// Text of a refusal.
pub fn refusal_text(r: Refusal, detail: &str) -> (t: String)
    ensures
        t@ == refusal_chars(r, detail@),
{
    match r {
        Refusal::NoVisionEncoder => String::from_str("VL request but model has no vision encoder"),
        Refusal::NeedsContiguousSlots => String::from_str(
            "VL sequential path requires contiguous KV slots",
        ),
        Refusal::NoImagePad => String::from_str("VL tokenizer missing <|image_pad|>"),
        Refusal::NoVisualTokens => String::from_str("VL request has no visual tokens"),
        Refusal::PhaseRows { rows, prompt } => {
            let mut t: String = String::from_str("VL mrope_positions length ");
            append_decimal(&mut t, rows as u64);
            t.append(" != prompt_tokens ");
            append_decimal(&mut t, prompt as u64);
            t
        },
        Refusal::ContextFull { held, cap } => {
            let mut t: String = String::from_str("context window full: the conversation holds ");
            append_decimal(&mut t, held as u64);
            t.append(" of ");
            append_decimal(&mut t, cap as u64);
            t.append(" tokens and cannot extend — start a new conversation");
            t
        },
        Refusal::ContextBudget { held, asked, cap } => {
            let mut t: String = String::from_str(
                "context window budget: the conversation would hold ",
            );
            append_decimal(&mut t, held as u64);
            t.append(" tokens and the request asks for ");
            append_decimal(&mut t, asked as u64);
            t.append(" more, beyond the ");
            append_decimal(&mut t, cap as u64);
            t.append(" token context — reduce max_tokens or start a new conversation");
            t
        },
        Refusal::PromptTooLong { prompt, cap } => {
            let mut t: String = String::from_str("prompt of ");
            append_decimal(&mut t, prompt as u64);
            t.append(" tokens exceeds the slot context cap of ");
            append_decimal(&mut t, cap as u64);
            t.append(" tokens");
            t
        },
        Refusal::EvictionFailed => String::from_str("eviction failed"),
        Refusal::QueueFull => join2("serve queue full: ", detail),
        Refusal::NotOpened => String::from_str(detail),
        Refusal::NoSlot => String::from_str("admitted session holds no slot"),
        Refusal::ResetFailed => join2("state reset failed: ", detail),
        Refusal::TurnFailed => String::from_str(detail),
        Refusal::SchemaFailed => join2("json_schema compile failed on admit: ", detail),
    }
}

/// A conversation that the request continues.
#[derive(Debug, Clone, Copy, PartialEq, Eq, Structural)]
pub struct MatchedSession {
    pub session: u64,
    /// Tokens it holds.
    pub held: usize,
    /// Its slot; `None` when it is swapped out.
    pub slot: Option<usize>,
}

/// What opening a session gave.
#[derive(Debug, Clone, Copy, PartialEq, Eq, Structural)]
pub enum OpenOutcome {
    Opened(u64),
    /// No slot is free.
    PoolFull,
    /// Context bytes are short.
    OverBudget,
}

/// What came of an action.
#[derive(Debug, Clone, Copy, PartialEq, Eq, Structural)]
pub enum AdmitEvent {
    Submitted,
    Matched(Option<MatchedSession>),
    /// A slot for a swapped session.
    Acquired(Option<usize>),
    Restored(bool),
    /// The turn began, with this many tokens reused.
    TurnBegun(Option<usize>),
    /// The client was told that it is accepted.
    Told(bool),
    SchemaCompiled(bool),
    Opened(OpenOutcome),
    /// The least recently used idle session.
    Victim(Option<u64>),
    Closed,
    Evicted(bool),
    Located(Option<usize>),
    StateReset(bool),
    /// What the prefix cache found, on a hit.
    LookedUp(Option<PrefixHit>),
    Shared(bool),
    /// The waiting room took the request.
    Enqueued(bool),
}

/// A resume plan's boundary and the published pages found for it.
#[derive(Debug, Clone, Copy, PartialEq, Eq, Structural)]
pub struct PrefixHit {
    pub boundary: usize,
    pub pages_found: usize,
}

/// Where admission stands.
#[derive(Debug, Clone, Copy, PartialEq, Eq, Structural)]
pub enum AdmitState {
    Start,
    Matching,
    Acquiring { session: u64, held: usize },
    /// No slot is free for the swapped session.
    ChoosingSwapVictim { session: u64, held: usize },
    Reacquiring { session: u64, held: usize },
    Restoring { session: u64, held: usize, slot: usize },
    Extending { session: u64, slot: usize, extended: usize, head_kept: bool },
    TellingContinued {
        session: u64,
        slot: usize,
        extended: usize,
        reused: usize,
        head_kept: bool,
    },
    CompilingContinued { session: u64, slot: usize, reused: usize, head_kept: bool },
    Opening,
    ChoosingVictim { over_budget: bool },
    Closing,
    Evicting,
    Enqueueing,
    Locating { session: u64 },
    Resetting { session: u64, slot: usize },
    LookingUp { session: u64, slot: usize },
    Sharing { session: u64, slot: usize, boundary: usize },
    BeginningCold { session: u64, slot: usize },
    TellingCold { session: u64, slot: usize, reused: usize, prefix_hit: bool },
    CompilingCold { session: u64, slot: usize, reused: usize, prefix_hit: bool },
    Done,
}

/// What to do next.
#[derive(Debug, Clone, Copy, PartialEq, Eq, Structural)]
pub enum AdmitAction {
    /// Find the conversation that the request continues.
    Match(ContinuationKind),
    /// Take a free slot for a swapped session.
    Acquire { session: u64 },
    /// Park an idle session, however that ends, then take a free slot.
    ParkThenAcquire { victim: u64 },
    Restore { session: u64, slot: usize },
    /// Give the slot back, then open a session.
    ReleaseThenOpen { slot: usize },
    /// Give the slot back, then reject.
    ReleaseThenReject { slot: usize, why: Refusal },
    BeginTurn { session: u64 },
    /// Give the pins of a lookup back that led to nothing, then begin the turn.
    UnpinThenBegin { session: u64 },
    /// Record the turn in its session, then tell the client: tokens reused and
    /// tokens to prefill.
    Tell { session: u64, reused: usize, prefill: usize },
    Compile,
    Open,
    PickVictim,
    /// Close an idle session, so that its grant returns to the budget.
    CloseVictim(u64),
    /// Park an idle session, so that its slot is free.
    ParkVictim(u64),
    /// Put the request in the waiting room, at this charge.
    Enqueue { bytes: u64 },
    Locate { session: u64 },
    ResetState { slot: usize },
    LookUp,
    /// Share this many published pages with the slot.
    Share { slot: usize, pages: usize },
    Reject(Refusal),
    /// Reject and close the session.
    RejectAndClose { why: Refusal, session: u64 },
    /// Close the session: the client has gone.
    DropSession { session: u64 },
    /// Start the continued turn. The speculative head's cache is kept only if
    /// the session never left its slot.
    InstallContinued { session: u64, slot: usize, reused: usize, head_kept: bool },
    /// Start the cold turn.
    InstallCold { session: u64, slot: usize, reused: usize, prefix_hit: bool },
    /// Nothing.
    Stop,
}

/// Why a request with images is refused, if it is.
pub open spec fn visual_refusal(f: AdmitFacts) -> Option<Refusal> {
    if !f.has_visual {
        None
    } else if !f.vision_loaded {
        Some(Refusal::NoVisionEncoder)
    } else if f.paged && f.vl_sequential {
        Some(Refusal::NeedsContiguousSlots)
    } else if !f.image_pad_known {
        Some(Refusal::NoImagePad)
    } else if f.n_visual_tokens == 0 {
        Some(Refusal::NoVisualTokens)
    } else if f.phase_rows != f.prompt_len {
        Some(Refusal::PhaseRows { rows: f.phase_rows, prompt: f.prompt_len })
    } else {
        None
    }
}

/// The tokens that a request asks for: at least one.
pub open spec fn asked(f: AdmitFacts) -> int {
    greatest(f.max_tokens as int, 1)
}

/// The refusal of a prompt that does not fit the context.
pub open spec fn too_long(f: AdmitFacts) -> Refusal {
    Refusal::PromptTooLong { prompt: f.prompt_len, cap: f.cap_tokens }
}

/// Bytes that a waiter is charged: those of its input, and at least one, for a
/// waiter without a charge would never trip the byte cap.
pub open spec fn charge_of(queue_bytes: u64) -> u64 {
    greatest(queue_bytes as int, 1) as u64
}

/// The session that makes room for a swapped one: the oldest idle session,
/// unless that is the swapped session itself.
pub open spec fn swap_victim(session: u64, oldest_idle: Option<u64>) -> Option<u64> {
    match oldest_idle {
        Some(v) => if v != session {
            Some(v)
        } else {
            None
        },
        None => None,
    }
}

/// The start of the cold path.
pub open spec fn cold_start(f: AdmitFacts) -> (AdmitState, AdmitAction) {
    if f.prompt_len >= f.cap_tokens {
        (AdmitState::Done, AdmitAction::Reject(too_long(f)))
    } else {
        (AdmitState::Opening, AdmitAction::Open)
    }
}

/// A matched session is in slot `slot`: whether its conversation can grow by
/// the suffix and the tokens asked for.
pub open spec fn extend(
    f: AdmitFacts,
    session: u64,
    held: usize,
    slot: usize,
    head_kept: bool,
) -> (AdmitState, AdmitAction) {
    let extended = held + f.suffix_len;
    if extended >= f.cap_tokens {
        (
            AdmitState::Done,
            AdmitAction::RejectAndClose {
                why: Refusal::ContextFull { held: extended as usize, cap: f.cap_tokens },
                session,
            },
        )
    } else if extended + asked(f) > f.cap_tokens {
        (
            AdmitState::Done,
            AdmitAction::Reject(
                Refusal::ContextBudget {
                    held: extended as usize,
                    asked: asked(f) as usize,
                    cap: f.cap_tokens,
                },
            ),
        )
    } else {
        (
            AdmitState::Extending { session, slot, extended: extended as usize, head_kept },
            AdmitAction::BeginTurn { session },
        )
    }
}

/// A cold turn with `reused` tokens is ready to be announced.
pub open spec fn tell_cold(
    f: AdmitFacts,
    session: u64,
    slot: usize,
    reused: usize,
    prefix_hit: bool,
) -> (AdmitState, AdmitAction) {
    (
        AdmitState::TellingCold { session, slot, reused, prefix_hit },
        AdmitAction::Tell { session, reused, prefill: (f.prompt_len - reused) as usize },
    )
}

/// The published pages that a resume plan lets the slot share: whole pages, all
/// of them found.
pub open spec fn shareable_pages(f: AdmitFacts, hit: PrefixHit) -> Option<int> {
    let pages = hit.boundary as int / (PAGE_TOKENS as int);
    if least(hit.boundary as int, f.prompt_len as int) > 0 && pages > 0 && hit.pages_found
        >= pages {
        Some(pages)
    } else {
        None
    }
}

/// The machine: from a state and an event to the next state and an action. An
/// event that a state does not wait for ends the admission.
pub open spec fn admit_next(f: AdmitFacts, s: AdmitState, e: AdmitEvent) -> (
    AdmitState,
    AdmitAction,
) {
    match (s, e) {
        (AdmitState::Start, AdmitEvent::Submitted) => match visual_refusal(f) {
            Some(why) => (AdmitState::Done, AdmitAction::Reject(why)),
            None => if !f.has_visual && f.suffix_len > 0 && f.continuation
                != ContinuationKind::Cold {
                (AdmitState::Matching, AdmitAction::Match(f.continuation))
            } else {
                cold_start(f)
            },
        },
        (AdmitState::Matching, AdmitEvent::Matched(None)) => cold_start(f),
        (AdmitState::Matching, AdmitEvent::Matched(Some(m))) => match m.slot {
            Some(slot) => extend(f, m.session, m.held, slot, true),
            None => (
                AdmitState::Acquiring { session: m.session, held: m.held },
                AdmitAction::Acquire { session: m.session },
            ),
        },
        (AdmitState::Acquiring { session, held }, AdmitEvent::Acquired(None)) => (
            AdmitState::ChoosingSwapVictim { session, held },
            AdmitAction::PickVictim,
        ),
        (AdmitState::Acquiring { session, held }, AdmitEvent::Acquired(Some(slot))) => (
            AdmitState::Restoring { session, held, slot },
            AdmitAction::Restore { session, slot },
        ),
        (AdmitState::ChoosingSwapVictim { session, held }, AdmitEvent::Victim(victim)) =>
        match swap_victim(session, victim) {
            Some(v) => (
                AdmitState::Reacquiring { session, held },
                AdmitAction::ParkThenAcquire { victim: v },
            ),
            None => cold_start(f),
        },
        (AdmitState::Reacquiring { session, held }, AdmitEvent::Acquired(Some(slot))) => (
            AdmitState::Restoring { session, held, slot },
            AdmitAction::Restore { session, slot },
        ),
        (AdmitState::Reacquiring { .. }, AdmitEvent::Acquired(None)) => cold_start(f),
        (AdmitState::Restoring { session, held, slot }, AdmitEvent::Restored(true)) => extend(
            f,
            session,
            held,
            slot,
            false,
        ),
        // The session keeps its tokens and is prefilled cold.
        (AdmitState::Restoring { session: _, held: _, slot }, AdmitEvent::Restored(false)) =>
        if f.prompt_len >= f.cap_tokens {
            (AdmitState::Done, AdmitAction::ReleaseThenReject { slot, why: too_long(f) })
        } else {
            (AdmitState::Opening, AdmitAction::ReleaseThenOpen { slot })
        },
        (AdmitState::Extending { .. }, AdmitEvent::TurnBegun(None)) => cold_start(f),
        (
            AdmitState::Extending { session, slot, extended, head_kept },
            AdmitEvent::TurnBegun(Some(reused)),
        ) => (
            AdmitState::TellingContinued { session, slot, extended, reused, head_kept },
            AdmitAction::Tell {
                session,
                reused,
                prefill: (extended - reused) as usize,
            },
        ),
        (AdmitState::TellingContinued { session, .. }, AdmitEvent::Told(false)) => (
            AdmitState::Done,
            AdmitAction::DropSession { session },
        ),
        (
            AdmitState::TellingContinued { session, slot, extended: _, reused, head_kept },
            AdmitEvent::Told(true),
        ) => if f.has_schema {
            (
                AdmitState::CompilingContinued { session, slot, reused, head_kept },
                AdmitAction::Compile,
            )
        } else {
            (
                AdmitState::Done,
                AdmitAction::InstallContinued { session, slot, reused, head_kept },
            )
        },
        (AdmitState::CompilingContinued { session, .. }, AdmitEvent::SchemaCompiled(false)) => (
            AdmitState::Done,
            AdmitAction::RejectAndClose { why: Refusal::SchemaFailed, session },
        ),
        (
            AdmitState::CompilingContinued { session, slot, reused, head_kept },
            AdmitEvent::SchemaCompiled(true),
        ) => (
            AdmitState::Done,
            AdmitAction::InstallContinued { session, slot, reused, head_kept },
        ),
        (AdmitState::Opening, AdmitEvent::Opened(OpenOutcome::Opened(session))) => (
            AdmitState::Locating { session },
            AdmitAction::Locate { session },
        ),
        (AdmitState::Opening, AdmitEvent::Opened(why)) => (
            AdmitState::ChoosingVictim { over_budget: why == OpenOutcome::OverBudget },
            AdmitAction::PickVictim,
        ),
        // Parking moves where a grant's bytes live but does not return them, so
        // a shortage of bytes takes closing.
        (AdmitState::ChoosingVictim { over_budget }, AdmitEvent::Victim(Some(v))) => if over_budget {
            (AdmitState::Closing, AdmitAction::CloseVictim(v))
        } else {
            (AdmitState::Evicting, AdmitAction::ParkVictim(v))
        },
        (AdmitState::ChoosingVictim { over_budget: _ }, AdmitEvent::Victim(None)) =>
        if f.wait_enabled {
            (AdmitState::Enqueueing, AdmitAction::Enqueue { bytes: charge_of(f.queue_bytes) })
        } else {
            (AdmitState::Done, AdmitAction::Reject(Refusal::NotOpened))
        },
        (AdmitState::Enqueueing, AdmitEvent::Enqueued(true)) => (
            AdmitState::Done,
            AdmitAction::Stop,
        ),
        (AdmitState::Enqueueing, AdmitEvent::Enqueued(false)) => (
            AdmitState::Done,
            AdmitAction::Reject(Refusal::QueueFull),
        ),
        (AdmitState::Closing, AdmitEvent::Closed) => (AdmitState::Opening, AdmitAction::Open),
        (AdmitState::Evicting, AdmitEvent::Evicted(true)) => (
            AdmitState::Opening,
            AdmitAction::Open,
        ),
        (AdmitState::Evicting, AdmitEvent::Evicted(false)) => (
            AdmitState::Done,
            AdmitAction::Reject(Refusal::EvictionFailed),
        ),
        (AdmitState::Locating { session: _ }, AdmitEvent::Located(None)) => (
            AdmitState::Done,
            AdmitAction::Reject(Refusal::NoSlot),
        ),
        (AdmitState::Locating { session }, AdmitEvent::Located(Some(slot))) => (
            AdmitState::Resetting { session, slot },
            AdmitAction::ResetState { slot },
        ),
        (AdmitState::Resetting { session, slot: _ }, AdmitEvent::StateReset(false)) => (
            AdmitState::Done,
            AdmitAction::RejectAndClose { why: Refusal::ResetFailed, session },
        ),
        (AdmitState::Resetting { session, slot }, AdmitEvent::StateReset(true)) =>
        if f.prefix_cache && !f.has_visual {
            (AdmitState::LookingUp { session, slot }, AdmitAction::LookUp)
        } else {
            (
                AdmitState::BeginningCold { session, slot },
                AdmitAction::BeginTurn { session },
            )
        },
        (AdmitState::LookingUp { session, slot }, AdmitEvent::LookedUp(None)) => (
            AdmitState::BeginningCold { session, slot },
            AdmitAction::UnpinThenBegin { session },
        ),
        (AdmitState::LookingUp { session, slot }, AdmitEvent::LookedUp(Some(hit))) =>
        match shareable_pages(f, hit) {
            Some(pages) => (
                AdmitState::Sharing { session, slot, boundary: hit.boundary },
                AdmitAction::Share { slot, pages: pages as usize },
            ),
            None => (
                AdmitState::BeginningCold { session, slot },
                AdmitAction::UnpinThenBegin { session },
            ),
        },
        (AdmitState::Sharing { session, slot, boundary: _ }, AdmitEvent::Shared(false)) => (
            AdmitState::BeginningCold { session, slot },
            AdmitAction::UnpinThenBegin { session },
        ),
        // The shared pages stand for the turn's prefix: beginning a turn would
        // drop them.
        (AdmitState::Sharing { session, slot, boundary }, AdmitEvent::Shared(true)) => tell_cold(
            f,
            session,
            slot,
            boundary,
            true,
        ),
        (AdmitState::BeginningCold { session, slot: _ }, AdmitEvent::TurnBegun(None)) => (
            AdmitState::Done,
            AdmitAction::RejectAndClose { why: Refusal::TurnFailed, session },
        ),
        (AdmitState::BeginningCold { session, slot }, AdmitEvent::TurnBegun(Some(reused))) =>
        tell_cold(f, session, slot, reused, false),
        (AdmitState::TellingCold { session, .. }, AdmitEvent::Told(false)) => (
            AdmitState::Done,
            AdmitAction::DropSession { session },
        ),
        (
            AdmitState::TellingCold { session, slot, reused, prefix_hit },
            AdmitEvent::Told(true),
        ) => if f.has_schema {
            (
                AdmitState::CompilingCold { session, slot, reused, prefix_hit },
                AdmitAction::Compile,
            )
        } else {
            (
                AdmitState::Done,
                AdmitAction::InstallCold { session, slot, reused, prefix_hit },
            )
        },
        (AdmitState::CompilingCold { session, .. }, AdmitEvent::SchemaCompiled(false)) => (
            AdmitState::Done,
            AdmitAction::RejectAndClose { why: Refusal::SchemaFailed, session },
        ),
        (
            AdmitState::CompilingCold { session, slot, reused, prefix_hit },
            AdmitEvent::SchemaCompiled(true),
        ) => (
            AdmitState::Done,
            AdmitAction::InstallCold { session, slot, reused, prefix_hit },
        ),
        _ => (AdmitState::Done, AdmitAction::Stop),
    }
}

/// The event's numbers are possible in this state: a turn reuses no more tokens
/// than it has, and lengths add up to machine words.
pub open spec fn admit_possible(f: AdmitFacts, s: AdmitState, e: AdmitEvent) -> bool {
    match (s, e) {
        (AdmitState::Matching, AdmitEvent::Matched(Some(m))) => m.held + f.suffix_len + asked(f)
            <= usize::MAX,
        (AdmitState::Restoring { held, .. }, AdmitEvent::Restored(true)) => held + f.suffix_len
            + asked(f) <= usize::MAX,
        (AdmitState::Extending { extended, .. }, AdmitEvent::TurnBegun(Some(r))) => r <= extended,
        (AdmitState::BeginningCold { .. }, AdmitEvent::TurnBegun(Some(r))) => r <= f.prompt_len,
        (AdmitState::Sharing { boundary, .. }, AdmitEvent::Shared(true)) => boundary
            <= f.prompt_len,
        _ => true,
    }
}

fn visual_check(f: &AdmitFacts) -> (r: Option<Refusal>)
    ensures
        r == visual_refusal(*f),
{
    if !f.has_visual {
        None
    } else if !f.vision_loaded {
        Some(Refusal::NoVisionEncoder)
    } else if f.paged && f.vl_sequential {
        Some(Refusal::NeedsContiguousSlots)
    } else if !f.image_pad_known {
        Some(Refusal::NoImagePad)
    } else if f.n_visual_tokens == 0 {
        Some(Refusal::NoVisualTokens)
    } else if f.phase_rows != f.prompt_len {
        Some(Refusal::PhaseRows { rows: f.phase_rows, prompt: f.prompt_len })
    } else {
        None
    }
}

/// Bytes that a waiter is charged in the waiting room.
pub fn queue_charge(queue_bytes: u64) -> (r: u64)
    ensures
        r == charge_of(queue_bytes),
        r >= 1,
{
    if queue_bytes >= 1 {
        queue_bytes
    } else {
        1
    }
}

/// Chooses the session that makes room for a swapped one.
pub fn choose_swap_victim(session: u64, oldest_idle: Option<u64>) -> (r: Option<u64>)
    ensures
        r == swap_victim(session, oldest_idle),
{
    match oldest_idle {
        Some(v) => if v != session {
            Some(v)
        } else {
            None
        },
        None => None,
    }
}

/// Whether a refusal counts as a rejected request. A conversation that has no
/// room left for the request is told so without being counted.
pub fn counts_as_rejected(why: Refusal) -> (r: bool)
    ensures
        r == !(why is ContextFull || why is ContextBudget),
{
    match why {
        Refusal::ContextFull { .. } => false,
        Refusal::ContextBudget { .. } => false,
        _ => true,
    }
}

fn start_cold(f: &AdmitFacts) -> (r: (AdmitState, AdmitAction))
    ensures
        r == cold_start(*f),
{
    if f.prompt_len >= f.cap_tokens {
        (
            AdmitState::Done,
            AdmitAction::Reject(
                Refusal::PromptTooLong { prompt: f.prompt_len, cap: f.cap_tokens },
            ),
        )
    } else {
        (AdmitState::Opening, AdmitAction::Open)
    }
}

fn check_extension(f: &AdmitFacts, session: u64, held: usize, slot: usize, head_kept: bool) -> (r: (
    AdmitState,
    AdmitAction,
))
    requires
        held + f.suffix_len + asked(*f) <= usize::MAX,
    ensures
        r == extend(*f, session, held, slot, head_kept),
{
    let extended: usize = held + f.suffix_len;
    let more: usize = if f.max_tokens >= 1 {
        f.max_tokens
    } else {
        1
    };
    if extended >= f.cap_tokens {
        (
            AdmitState::Done,
            AdmitAction::RejectAndClose {
                why: Refusal::ContextFull { held: extended, cap: f.cap_tokens },
                session,
            },
        )
    } else if extended + more > f.cap_tokens {
        (
            AdmitState::Done,
            AdmitAction::Reject(
                Refusal::ContextBudget { held: extended, asked: more, cap: f.cap_tokens },
            ),
        )
    } else {
        (
            AdmitState::Extending { session, slot, extended, head_kept },
            AdmitAction::BeginTurn { session },
        )
    }
}

fn announce_cold(f: &AdmitFacts, session: u64, slot: usize, reused: usize, prefix_hit: bool) -> (r: (
    AdmitState,
    AdmitAction,
))
    requires
        reused <= f.prompt_len,
    ensures
        r == tell_cold(*f, session, slot, reused, prefix_hit),
{
    (
        AdmitState::TellingCold { session, slot, reused, prefix_hit },
        AdmitAction::Tell { session, reused, prefill: f.prompt_len - reused },
    )
}

fn pages_to_share(f: &AdmitFacts, hit: PrefixHit) -> (r: Option<usize>)
    ensures
        match r {
            Some(n) => shareable_pages(*f, hit) == Some(n as int),
            None => shareable_pages(*f, hit) is None,
        },
{
    let pages: usize = hit.boundary / PAGE_TOKENS;
    if reused_tokens_from_plan(hit.boundary, f.prompt_len) > 0 && pages > 0 && hit.pages_found
        >= pages {
        Some(pages)
    } else {
        None
    }
}

/// Decides what comes next in an admission.
pub fn admit_step(f: &AdmitFacts, state: AdmitState, event: AdmitEvent) -> (r: (
    AdmitState,
    AdmitAction,
))
    requires
        admit_possible(*f, state, event),
    ensures
        r == admit_next(*f, state, event),
{
    match (state, event) {
        (AdmitState::Start, AdmitEvent::Submitted) => match visual_check(f) {
            Some(why) => (AdmitState::Done, AdmitAction::Reject(why)),
            None => if !f.has_visual && f.suffix_len > 0 && f.continuation
                != ContinuationKind::Cold {
                (AdmitState::Matching, AdmitAction::Match(f.continuation))
            } else {
                start_cold(f)
            },
        },
        (AdmitState::Matching, AdmitEvent::Matched(None)) => start_cold(f),
        (AdmitState::Matching, AdmitEvent::Matched(Some(m))) => match m.slot {
            Some(slot) => check_extension(f, m.session, m.held, slot, true),
            None => (
                AdmitState::Acquiring { session: m.session, held: m.held },
                AdmitAction::Acquire { session: m.session },
            ),
        },
        (AdmitState::Acquiring { session, held }, AdmitEvent::Acquired(None)) => (
            AdmitState::ChoosingSwapVictim { session, held },
            AdmitAction::PickVictim,
        ),
        (AdmitState::Acquiring { session, held }, AdmitEvent::Acquired(Some(slot))) => (
            AdmitState::Restoring { session, held, slot },
            AdmitAction::Restore { session, slot },
        ),
        (AdmitState::ChoosingSwapVictim { session, held }, AdmitEvent::Victim(victim)) =>
        match choose_swap_victim(session, victim) {
            Some(v) => (
                AdmitState::Reacquiring { session, held },
                AdmitAction::ParkThenAcquire { victim: v },
            ),
            None => start_cold(f),
        },
        (AdmitState::Reacquiring { session, held }, AdmitEvent::Acquired(Some(slot))) => (
            AdmitState::Restoring { session, held, slot },
            AdmitAction::Restore { session, slot },
        ),
        (AdmitState::Reacquiring { .. }, AdmitEvent::Acquired(None)) => start_cold(f),
        (AdmitState::Restoring { session, held, slot }, AdmitEvent::Restored(ok)) => if ok {
            check_extension(f, session, held, slot, false)
        } else if f.prompt_len >= f.cap_tokens {
            (
                AdmitState::Done,
                AdmitAction::ReleaseThenReject {
                    slot,
                    why: Refusal::PromptTooLong { prompt: f.prompt_len, cap: f.cap_tokens },
                },
            )
        } else {
            (AdmitState::Opening, AdmitAction::ReleaseThenOpen { slot })
        },
        (AdmitState::Extending { .. }, AdmitEvent::TurnBegun(None)) => start_cold(f),
        (
            AdmitState::Extending { session, slot, extended, head_kept },
            AdmitEvent::TurnBegun(Some(reused)),
        ) => (
            AdmitState::TellingContinued { session, slot, extended, reused, head_kept },
            AdmitAction::Tell { session, reused, prefill: extended - reused },
        ),
        (
            AdmitState::TellingContinued { session, slot, reused, head_kept, .. },
            AdmitEvent::Told(ok),
        ) => if !ok {
            (AdmitState::Done, AdmitAction::DropSession { session })
        } else if f.has_schema {
            (
                AdmitState::CompilingContinued { session, slot, reused, head_kept },
                AdmitAction::Compile,
            )
        } else {
            (
                AdmitState::Done,
                AdmitAction::InstallContinued { session, slot, reused, head_kept },
            )
        },
        (
            AdmitState::CompilingContinued { session, slot, reused, head_kept },
            AdmitEvent::SchemaCompiled(ok),
        ) => if ok {
            (
                AdmitState::Done,
                AdmitAction::InstallContinued { session, slot, reused, head_kept },
            )
        } else {
            (
                AdmitState::Done,
                AdmitAction::RejectAndClose { why: Refusal::SchemaFailed, session },
            )
        },
        (AdmitState::Opening, AdmitEvent::Opened(outcome)) => match outcome {
            OpenOutcome::Opened(session) => (
                AdmitState::Locating { session },
                AdmitAction::Locate { session },
            ),
            OpenOutcome::PoolFull => (
                AdmitState::ChoosingVictim { over_budget: false },
                AdmitAction::PickVictim,
            ),
            OpenOutcome::OverBudget => (
                AdmitState::ChoosingVictim { over_budget: true },
                AdmitAction::PickVictim,
            ),
        },
        (AdmitState::ChoosingVictim { over_budget }, AdmitEvent::Victim(Some(v))) => if over_budget {
            (AdmitState::Closing, AdmitAction::CloseVictim(v))
        } else {
            (AdmitState::Evicting, AdmitAction::ParkVictim(v))
        },
        (AdmitState::ChoosingVictim { .. }, AdmitEvent::Victim(None)) =>
        if should_wait_instead_of_reject(true, f.wait_enabled) {
            (
                AdmitState::Enqueueing,
                AdmitAction::Enqueue { bytes: queue_charge(f.queue_bytes) },
            )
        } else {
            (AdmitState::Done, AdmitAction::Reject(Refusal::NotOpened))
        },
        (AdmitState::Enqueueing, AdmitEvent::Enqueued(ok)) => if ok {
            (AdmitState::Done, AdmitAction::Stop)
        } else {
            (AdmitState::Done, AdmitAction::Reject(Refusal::QueueFull))
        },
        (AdmitState::Closing, AdmitEvent::Closed) => (AdmitState::Opening, AdmitAction::Open),
        (AdmitState::Evicting, AdmitEvent::Evicted(ok)) => if ok {
            (AdmitState::Opening, AdmitAction::Open)
        } else {
            (AdmitState::Done, AdmitAction::Reject(Refusal::EvictionFailed))
        },
        (AdmitState::Locating { .. }, AdmitEvent::Located(None)) => (
            AdmitState::Done,
            AdmitAction::Reject(Refusal::NoSlot),
        ),
        (AdmitState::Locating { session }, AdmitEvent::Located(Some(slot))) => (
            AdmitState::Resetting { session, slot },
            AdmitAction::ResetState { slot },
        ),
        (AdmitState::Resetting { session, slot }, AdmitEvent::StateReset(ok)) => if !ok {
            (
                AdmitState::Done,
                AdmitAction::RejectAndClose { why: Refusal::ResetFailed, session },
            )
        } else if should_lookup_prefix(f.prefix_cache, f.has_visual) {
            (AdmitState::LookingUp { session, slot }, AdmitAction::LookUp)
        } else {
            (AdmitState::BeginningCold { session, slot }, AdmitAction::BeginTurn { session })
        },
        (AdmitState::LookingUp { session, slot }, AdmitEvent::LookedUp(None)) => (
            AdmitState::BeginningCold { session, slot },
            AdmitAction::UnpinThenBegin { session },
        ),
        (AdmitState::LookingUp { session, slot }, AdmitEvent::LookedUp(Some(hit))) =>
        match pages_to_share(f, hit) {
            Some(pages) => (
                AdmitState::Sharing { session, slot, boundary: hit.boundary },
                AdmitAction::Share { slot, pages },
            ),
            None => (
                AdmitState::BeginningCold { session, slot },
                AdmitAction::UnpinThenBegin { session },
            ),
        },
        (AdmitState::Sharing { session, slot, boundary }, AdmitEvent::Shared(ok)) => if ok {
            announce_cold(f, session, slot, boundary, true)
        } else {
            (AdmitState::BeginningCold { session, slot }, AdmitAction::UnpinThenBegin { session })
        },
        (AdmitState::BeginningCold { session, .. }, AdmitEvent::TurnBegun(None)) => (
            AdmitState::Done,
            AdmitAction::RejectAndClose { why: Refusal::TurnFailed, session },
        ),
        (AdmitState::BeginningCold { session, slot }, AdmitEvent::TurnBegun(Some(reused))) => {
            announce_cold(f, session, slot, reused, false)
        },
        (AdmitState::TellingCold { session, slot, reused, prefix_hit }, AdmitEvent::Told(ok)) =>
        if !ok {
            (AdmitState::Done, AdmitAction::DropSession { session })
        } else if f.has_schema {
            (
                AdmitState::CompilingCold { session, slot, reused, prefix_hit },
                AdmitAction::Compile,
            )
        } else {
            (AdmitState::Done, AdmitAction::InstallCold { session, slot, reused, prefix_hit })
        },
        (
            AdmitState::CompilingCold { session, slot, reused, prefix_hit },
            AdmitEvent::SchemaCompiled(ok),
        ) => if ok {
            (AdmitState::Done, AdmitAction::InstallCold { session, slot, reused, prefix_hit })
        } else {
            (
                AdmitState::Done,
                AdmitAction::RejectAndClose { why: Refusal::SchemaFailed, session },
            )
        },
        _ => (AdmitState::Done, AdmitAction::Stop),
    }
}

// ---- Laws ----

/// The request turns to the cold path with this event: it continues nothing, or
/// the conversation that it continues cannot be brought back.
pub open spec fn goes_cold(f: AdmitFacts, s: AdmitState, e: AdmitEvent) -> bool {
    match (s, e) {
        (AdmitState::Start, AdmitEvent::Submitted) => visual_refusal(f) is None && (f.has_visual
            || f.suffix_len == 0 || f.continuation == ContinuationKind::Cold),
        (AdmitState::Matching, AdmitEvent::Matched(None)) => true,
        (AdmitState::ChoosingSwapVictim { session, .. }, AdmitEvent::Victim(v)) => swap_victim(
            session,
            v,
        ) is None,
        (AdmitState::Reacquiring { .. }, AdmitEvent::Acquired(None)) => true,
        (AdmitState::Restoring { .. }, AdmitEvent::Restored(false)) => true,
        (AdmitState::Extending { .. }, AdmitEvent::TurnBegun(None)) => true,
        _ => false,
    }
}

/// A prompt that does not fit the context is never opened a session for; where
/// its admission turns to the cold path, it is refused as too long.
pub proof fn law_long_prompts_open_nothing(f: AdmitFacts, s: AdmitState, e: AdmitEvent)
    requires
        f.prompt_len >= f.cap_tokens,
        before_opening(s),
    ensures
        !(admit_next(f, s, e).1 is Open),
        !(admit_next(f, s, e).1 is ReleaseThenOpen),
        admit_next(f, s, e).0 != AdmitState::Opening,
        goes_cold(f, s, e) ==> match admit_next(f, s, e).1 {
            AdmitAction::Reject(why) => why == too_long(f),
            AdmitAction::ReleaseThenReject { why, .. } => why == too_long(f),
            _ => false,
        },
{
}

/// No session has been opened yet.
pub open spec fn before_opening(s: AdmitState) -> bool {
    s is Start || s is Matching || s is Acquiring || s is ChoosingSwapVictim || s is Reacquiring
        || s is Restoring || s is Extending
}

/// A prompt that fits the context and turns to the cold path is opened a
/// session for.
pub proof fn law_fitting_prompts_are_opened(f: AdmitFacts, s: AdmitState, e: AdmitEvent)
    requires
        f.prompt_len < f.cap_tokens,
        goes_cold(f, s, e),
    ensures
        admit_next(f, s, e).0 == AdmitState::Opening,
        admit_next(f, s, e).1 is Open || admit_next(f, s, e).1 is ReleaseThenOpen,
{
}

/// A slot that was taken for a swapped session is never lost. The next thing is
/// to restore the session into it. If that fails, the slot is given back. If it
/// succeeds, the slot is the session's: the turn goes on in it, or the session
/// is closed, or it stays resident there for a request that fits.
pub proof fn law_acquired_slots_are_not_lost(
    f: AdmitFacts,
    session: u64,
    held: usize,
    slot: usize,
)
    ensures
        admit_next(
            f,
            AdmitState::Acquiring { session, held },
            AdmitEvent::Acquired(Some(slot)),
        ) == (
            AdmitState::Restoring { session, held, slot },
            AdmitAction::Restore { session, slot },
        ),
        admit_next(
            f,
            AdmitState::Reacquiring { session, held },
            AdmitEvent::Acquired(Some(slot)),
        ) == (
            AdmitState::Restoring { session, held, slot },
            AdmitAction::Restore { session, slot },
        ),
        ({
            let s = AdmitState::Restoring { session, held, slot };
            match admit_next(f, s, AdmitEvent::Restored(false)).1 {
                AdmitAction::ReleaseThenOpen { slot: back } => back == slot,
                AdmitAction::ReleaseThenReject { slot: back, .. } => back == slot,
                _ => false,
            }
        }),
        ({
            let s = AdmitState::Restoring { session, held, slot };
            let (next, action) = admit_next(f, s, AdmitEvent::Restored(true));
            match action {
                AdmitAction::BeginTurn { session: id } => id == session
                    && next is Extending && next->Extending_slot == slot
                    && next->Extending_session == session,
                AdmitAction::RejectAndClose { session: id, .. } => id == session,
                AdmitAction::Reject(why) => why is ContextBudget,
                _ => false,
            }
        }),
{
}

/// The slot and the session of a conversation that is being continued.
pub open spec fn continued_in(s: AdmitState) -> Option<(u64, usize)> {
    match s {
        AdmitState::Extending { session, slot, .. } => Some((session, slot)),
        AdmitState::TellingContinued { session, slot, .. } => Some((session, slot)),
        AdmitState::CompilingContinued { session, slot, .. } => Some((session, slot)),
        _ => None,
    }
}

/// A continued conversation runs in the slot that its session holds: each step
/// keeps session and slot, installs the turn there, or closes the session; if
/// the turn cannot begin, the session stays resident and the request goes cold.
pub proof fn law_continued_slots_are_kept(f: AdmitFacts, s: AdmitState, e: AdmitEvent)
    requires
        continued_in(s) is Some,
        !(admit_next(f, s, e).1 is Stop),
    ensures
        ({
            let (session, slot) = continued_in(s)->Some_0;
            let (next, action) = admit_next(f, s, e);
            ||| continued_in(next) == Some((session, slot))
            ||| action is InstallContinued && action->InstallContinued_session == session
                && action->InstallContinued_slot == slot
            ||| action is RejectAndClose && action->RejectAndClose_session == session
            ||| action is DropSession && action->DropSession_session == session
            ||| s is Extending && e == AdmitEvent::TurnBegun(None) && goes_cold(f, s, e)
        }),
{
}

/// A swapped session is never parked to make room for itself.
pub proof fn law_a_session_does_not_evict_itself(
    f: AdmitFacts,
    session: u64,
    held: usize,
    e: AdmitEvent,
)
    ensures
        ({
            let s = AdmitState::ChoosingSwapVictim { session, held };
            match admit_next(f, s, e).1 {
                AdmitAction::ParkThenAcquire { victim } => victim != session,
                _ => true,
            }
        }),
{
}

/// What a lookup pinned is used or given back: a turn that starts after a
/// lookup shares the pages it found, and on every miss the pins go back before
/// the turn begins.
pub proof fn law_looked_up_prefixes_are_shared_or_unpinned(
    f: AdmitFacts,
    session: u64,
    slot: usize,
    hit: Option<PrefixHit>,
    boundary: usize,
)
    ensures
        match admit_next(
            f,
            AdmitState::LookingUp { session, slot },
            AdmitEvent::LookedUp(hit),
        ) {
            (AdmitState::Sharing { session: a, slot: b, .. }, AdmitAction::Share { slot: c, .. })
                => a == session && b == slot && c == slot && hit is Some,
            (AdmitState::BeginningCold { .. }, AdmitAction::UnpinThenBegin { session: a }) => a
                == session,
            _ => false,
        },
        admit_next(
            f,
            AdmitState::Sharing { session, slot, boundary },
            AdmitEvent::Shared(false),
        ) == (
            AdmitState::BeginningCold { session, slot },
            AdmitAction::UnpinThenBegin { session },
        ),
        admit_next(
            f,
            AdmitState::Sharing { session, slot, boundary },
            AdmitEvent::Shared(true),
        ).0 == (AdmitState::TellingCold { session, slot, reused: boundary, prefix_hit: true }),
{
}

/// A waiter is always charged at least one byte.
pub proof fn law_waiters_are_charged(f: AdmitFacts, s: AdmitState, e: AdmitEvent)
    ensures
        match admit_next(f, s, e).1 {
            AdmitAction::Enqueue { bytes } => bytes >= 1 && bytes >= f.queue_bytes,
            _ => true,
        },
{
}

/// A conversation is extended only if it and the tokens asked for fit the
/// context.
pub proof fn law_continuations_fit_the_context(f: AdmitFacts, s: AdmitState, e: AdmitEvent)
    requires
        admit_next(f, s, e).0 is Extending,
        admit_possible(f, s, e),
    ensures
        admit_next(f, s, e).0->Extending_extended + asked(f) <= f.cap_tokens,
{
}

/// A request with images never continues a conversation and never consults the
/// prefix cache.
pub proof fn law_images_are_always_cold(f: AdmitFacts, s: AdmitState, e: AdmitEvent)
    requires
        f.has_visual,
    ensures
        !(admit_next(f, s, e).1 is Match),
        !(admit_next(f, s, e).1 is LookUp),
{
}

/// A shortage of context bytes closes the victim, a shortage of slots parks it;
/// either way opening is tried again.
pub proof fn law_remedy_fits_the_shortage(f: AdmitFacts, v: u64)
    ensures
        admit_next(
            f,
            admit_next(
                f,
                AdmitState::Opening,
                AdmitEvent::Opened(OpenOutcome::OverBudget),
            ).0,
            AdmitEvent::Victim(Some(v)),
        ) == (AdmitState::Closing, AdmitAction::CloseVictim(v)),
        admit_next(
            f,
            admit_next(f, AdmitState::Opening, AdmitEvent::Opened(OpenOutcome::PoolFull)).0,
            AdmitEvent::Victim(Some(v)),
        ) == (AdmitState::Evicting, AdmitAction::ParkVictim(v)),
        admit_next(f, AdmitState::Closing, AdmitEvent::Closed) == (
            AdmitState::Opening,
            AdmitAction::Open,
        ),
        admit_next(f, AdmitState::Evicting, AdmitEvent::Evicted(true)) == (
            AdmitState::Opening,
            AdmitAction::Open,
        ),
{
}

/// The session that a cold admission has opened and placed in a slot.
pub open spec fn opened_session(s: AdmitState) -> Option<u64> {
    match s {
        AdmitState::Resetting { session, .. } => Some(session),
        AdmitState::LookingUp { session, .. } => Some(session),
        AdmitState::Sharing { session, .. } => Some(session),
        AdmitState::BeginningCold { session, .. } => Some(session),
        AdmitState::TellingCold { session, .. } => Some(session),
        AdmitState::CompilingCold { session, .. } => Some(session),
        _ => None,
    }
}

/// A session that admission opened is never left behind: each step keeps it,
/// starts its turn, or closes it, unless the event is one that the state does
/// not wait for.
pub proof fn law_opened_sessions_are_not_leaked(f: AdmitFacts, s: AdmitState, e: AdmitEvent)
    requires
        opened_session(s) is Some,
        !(admit_next(f, s, e).1 is Stop),
    ensures
        ({
            let id = opened_session(s)->Some_0;
            let (next, action) = admit_next(f, s, e);
            ||| opened_session(next) == Some(id)
            ||| action is InstallCold && action->InstallCold_session == id
            ||| action is RejectAndClose && action->RejectAndClose_session == id
            ||| action is DropSession && action->DropSession_session == id
        }),
{
}

/// Once an admission is done, nothing more happens.
pub proof fn law_done_is_done(f: AdmitFacts, e: AdmitEvent)
    ensures
        admit_next(f, AdmitState::Done, e) == (AdmitState::Done, AdmitAction::Stop),
{
}

// ---- What a session remembers ----

/// What a session keeps from one turn to the next.
pub struct SessionRecord {
    /// Tokens that the session holds or is about to hold.
    pub tokens: Vec<u32>,
    /// Identity of the conversation: one hash per turn.
    pub convo: Vec<u64>,
    /// Next position to be written.
    pub next_pos: usize,
    /// Phase offset that the conversation's image turn left, 0 without one.
    pub rope_delta: i32,
}

/// The turn that a session has accepted.
pub enum AcceptedTurn {
    /// The session goes on with these tokens.
    Continued { suffix: Vec<u32> },
    /// The session starts over with this prompt. On a prefix hit so many of its
    /// tokens are there already; a turn with images has a phase offset.
    Cold { prompt: Vec<u32>, prefix_reused: Option<usize>, image_delta: Option<i32> },
}

/// `after` is what a session remembers of `before` once it accepted the turn.
pub open spec fn session_accepted(
    before: SessionRecord,
    turn: AcceptedTurn,
    convo: Seq<u64>,
    after: SessionRecord,
) -> bool {
    &&& after.convo@ == convo
    &&& match turn {
        AcceptedTurn::Continued { suffix } => {
            &&& after.tokens@ == before.tokens@ + suffix@
            &&& after.next_pos == before.next_pos
            &&& after.rope_delta == before.rope_delta
        },
        AcceptedTurn::Cold { prompt, prefix_reused, image_delta } => {
            &&& after.tokens@ == prompt@
            &&& after.next_pos == match prefix_reused {
                Some(n) => n,
                None => before.next_pos,
            }
            &&& after.rope_delta == match image_delta {
                Some(d) => d,
                None => 0,
            }
        },
    }
}

/// What a session remembers once it accepted a turn. A continued turn keeps the
/// phase offset of the conversation's image turn; a cold turn defines it anew,
/// so that nothing stale is inherited.
pub fn session_after_accept(
    record: SessionRecord,
    turn: AcceptedTurn,
    convo: Vec<u64>,
) -> (r: SessionRecord)
    ensures
        session_accepted(record, turn, convo@, r),
{
    match turn {
        AcceptedTurn::Continued { suffix } => {
            let mut tokens: Vec<u32> = record.tokens;
            let mut more: Vec<u32> = suffix;
            tokens.append(&mut more);
            SessionRecord {
                tokens,
                convo,
                next_pos: record.next_pos,
                rope_delta: record.rope_delta,
            }
        },
        AcceptedTurn::Cold { prompt, prefix_reused, image_delta } => SessionRecord {
            tokens: prompt,
            convo,
            next_pos: match prefix_reused {
                Some(n) => n,
                None => record.next_pos,
            },
            rope_delta: match image_delta {
                Some(d) => d,
                None => 0,
            },
        },
    }
}

/// Turn `k` leaves the session with the phase offset of its first turn.
proof fn lemma_offset_kept(
    turns: Seq<AcceptedTurn>,
    convos: Seq<Seq<u64>>,
    before: Seq<SessionRecord>,
    after: Seq<SessionRecord>,
    k: int,
)
    requires
        0 <= k < turns.len(),
        turns[0] is Cold,
        forall|i: int| 1 <= i < turns.len() ==> (#[trigger] turns[i]) is Continued,
        forall|i: int|
            0 <= i < turns.len() ==> session_accepted(
                before[i],
                #[trigger] turns[i],
                convos[i],
                after[i],
            ),
        forall|i: int|
            1 <= i < turns.len() ==> (#[trigger] before[i]).rope_delta == after[i - 1].rope_delta,
    ensures
        after[k].rope_delta == match turns[0]->image_delta {
            Some(d) => d,
            None => 0,
        },
    decreases k,
{
    assert(session_accepted(before[k], turns[k], convos[k], after[k]));
    if k > 0 {
        lemma_offset_kept(turns, convos, before, after, k - 1);
        assert(before[k].rope_delta == after[k - 1].rope_delta);
    }
}

/// A text follow-up is installed with the phase offset of the conversation's
/// image turn, however many follow-ups came before it, and with none if the
/// conversation began without an image. `before[i]` and `after[i]` are the
/// session as turn `i` found and left it.
pub proof fn law_follow_ups_keep_the_image_offset(
    turns: Seq<AcceptedTurn>,
    convos: Seq<Seq<u64>>,
    before: Seq<SessionRecord>,
    after: Seq<SessionRecord>,
    work: PendingWork,
    reused: usize,
    spec: Speculation,
    installed: PendingWork,
)
    requires
        turns.len() > 0,
        convos.len() == turns.len(),
        before.len() == turns.len(),
        after.len() == turns.len(),
        turns[0] is Cold,
        forall|i: int| 1 <= i < turns.len() ==> (#[trigger] turns[i]) is Continued,
        forall|i: int|
            0 <= i < turns.len() ==> session_accepted(
                before[i],
                #[trigger] turns[i],
                convos[i],
                after[i],
            ),
        forall|i: int|
            1 <= i < turns.len() ==> (#[trigger] before[i]).rope_delta == after[i - 1].rope_delta,
        turn_continued(
            work,
            after.last().tokens@,
            reused,
            after.last().rope_delta,
            spec,
            installed,
        ),
    ensures
        installed.pos3_delta == match turns[0]->image_delta {
            Some(d) => d,
            None => 0,
        },
{
    lemma_offset_kept(turns, convos, before, after, turns.len() - 1);
}

// ---- Starting the turn ----

/// The tokens from `reused` on.
fn suffix_of(tokens: &Vec<u32>, reused: usize) -> (r: Vec<u32>)
    requires
        reused <= tokens@.len(),
    ensures
        r@ == tokens@.skip(reused as int),
{
    let mut out: Vec<u32> = Vec::new();
    let mut i: usize = reused;
    while i < tokens.len()
        invariant
            reused <= i <= tokens@.len(),
            out@ =~= tokens@.subrange(reused as int, i as int),
        decreases tokens@.len() - i,
    {
        out.push(tokens[i]);
        i = i + 1;
    }
    assert(out@ =~= tokens@.skip(reused as int));
    out
}

/// What decides whether a request speculates.
#[derive(Debug, Clone, Copy, PartialEq, Eq, Structural)]
pub struct Speculation {
    pub head_loaded: bool,
    pub mtp_k: usize,
    pub penalized: bool,
    pub sampled: bool,
    pub constrained: bool,
}

impl Speculation {
    /// A text request of this kind speculates.
    pub open spec fn allowed(self) -> bool {
        self.head_loaded && self.mtp_k > 0 && !self.penalized && !self.sampled
            && !self.constrained
    }
}

/// `after` is `before` with a continued turn: the tokens from `reused` on are to
/// be fed at the session's phase offset.
pub open spec fn turn_continued(
    before: PendingWork,
    extended: Seq<u32>,
    reused: usize,
    rope_delta: i32,
    spec: Speculation,
    after: PendingWork,
) -> bool {
    &&& after.remaining_prompt@ == extended.skip(reused as int)
    &&& after == (PendingWork {
        remaining_prompt: after.remaining_prompt,
        next_pos: reused,
        decoding: false,
        pos3_delta: rope_delta,
        mtp_active: spec.allowed(),
        ..before
    })
}

/// Starts a continued turn in a slot: what the session does not hold yet is to
/// be fed, and a conversation that carries an image turn keeps that turn's
/// phase offset. Returns whether the speculative head's cache must be reset.
pub fn install_continuation(
    work: &mut PendingWork,
    extended: &Vec<u32>,
    reused: usize,
    rope_delta: i32,
    spec: Speculation,
    head_kept: bool,
    head_state_present: bool,
) -> (r: bool)
    requires
        reused <= extended@.len(),
    ensures
        turn_continued(*old(work), extended@, reused, rope_delta, spec, *final(work)),
        r == (spec.allowed() && !(head_kept && head_state_present)),
{
    work.remaining_prompt = suffix_of(extended, reused);
    work.next_pos = reused;
    work.decoding = false;
    work.pos3_delta = rope_delta;
    work.mtp_active = mtp_allowed(
        spec.head_loaded,
        spec.mtp_k,
        false,
        spec.penalized,
        spec.sampled,
        spec.constrained,
    );
    work.mtp_active && !(head_kept && head_state_present)
}

/// Starts a cold text turn in a slot.
pub fn install_cold_text(
    work: &mut PendingWork,
    prompt: &Vec<u32>,
    reused: usize,
    spec: Speculation,
)
    requires
        reused <= prompt@.len(),
    ensures
        final(work).remaining_prompt@ == prompt@.skip(reused as int),
        *final(work) == (PendingWork {
            remaining_prompt: final(work).remaining_prompt,
            next_pos: reused,
            decoding: false,
            vl_prefill: None,
            pos3_delta: 0,
            mtp_active: spec.allowed(),
            ..*old(work)
        }),
{
    work.remaining_prompt = suffix_of(prompt, reused);
    work.next_pos = reused;
    work.decoding = false;
    work.vl_prefill = None;
    work.pos3_delta = 0;
    work.mtp_active = mtp_allowed(
        spec.head_loaded,
        spec.mtp_k,
        false,
        spec.penalized,
        spec.sampled,
        spec.constrained,
    );
}

/// Image data of a request.
pub struct VisualData {
    /// Bit patterns of the patches.
    pub patches: Vec<u32>,
    pub grid_h: usize,
    pub grid_w: usize,
    pub n_visual_tokens: usize,
    pub mrope_positions: Vec<[i32; 3]>,
    pub rope_delta: i32,
}

/// Starts a cold turn with images in a slot: the whole prompt is fed from
/// position 0, and image requests never speculate.
pub fn install_cold_visual(
    work: &mut PendingWork,
    prompt: Vec<u32>,
    vd: VisualData,
    dim: usize,
    image_pad_id: Option<u32>,
)
    ensures
        *final(work) == (PendingWork {
            remaining_prompt: prompt,
            next_pos: 0,
            decoding: false,
            vl_prefill: final(work).vl_prefill,
            pos3_delta: 0,
            mtp_active: false,
            ..*old(work)
        }),
        final(work).vl_prefill is Some,
        ({
            let vl = final(work).vl_prefill->Some_0;
            &&& vl.embeddings@.len() == 0
            &&& vl == (VlPrefill {
                patches: vd.patches,
                grid_h: vd.grid_h,
                grid_w: vd.grid_w,
                n_visual_tokens: vd.n_visual_tokens,
                embeddings: vl.embeddings,
                dim,
                visual_idx: 0,
                image_pad_id: match image_pad_id {
                    Some(id) => id,
                    None => u32::MAX,
                },
                mrope_positions: vd.mrope_positions,
                rope_delta: vd.rope_delta,
                base: 0,
            })
        }),
{
    work.remaining_prompt = prompt;
    work.next_pos = 0;
    work.decoding = false;
    work.pos3_delta = 0;
    work.mtp_active = false;
    work.vl_prefill = Some(
        VlPrefill {
            patches: vd.patches,
            grid_h: vd.grid_h,
            grid_w: vd.grid_w,
            n_visual_tokens: vd.n_visual_tokens,
            embeddings: Vec::new(),
            dim,
            visual_idx: 0,
            image_pad_id: match image_pad_id {
                Some(id) => id,
                None => u32::MAX,
            },
            mrope_positions: vd.mrope_positions,
            rope_delta: vd.rope_delta,
            base: 0,
        },
    );
}

// ---- Laws of an admission, over its facts, events and actions ----

/// The state waits for an event of this sort.
pub open spec fn waits_for(s: AdmitState, e: AdmitEvent) -> bool {
    match s {
        AdmitState::Start => e is Submitted,
        AdmitState::Matching => e is Matched,
        AdmitState::Acquiring { .. } => e is Acquired,
        AdmitState::ChoosingSwapVictim { .. } => e is Victim,
        AdmitState::Reacquiring { .. } => e is Acquired,
        AdmitState::Restoring { .. } => e is Restored,
        AdmitState::Extending { .. } => e is TurnBegun,
        AdmitState::TellingContinued { .. } => e is Told,
        AdmitState::CompilingContinued { .. } => e is SchemaCompiled,
        AdmitState::Opening => e is Opened,
        AdmitState::ChoosingVictim { .. } => e is Victim,
        AdmitState::Closing => e is Closed,
        AdmitState::Evicting => e is Evicted,
        AdmitState::Enqueueing => e is Enqueued,
        AdmitState::Locating { .. } => e is Located,
        AdmitState::Resetting { .. } => e is StateReset,
        AdmitState::LookingUp { .. } => e is LookedUp,
        AdmitState::Sharing { .. } => e is Shared,
        AdmitState::BeginningCold { .. } => e is TurnBegun,
        AdmitState::TellingCold { .. } => e is Told,
        AdmitState::CompilingCold { .. } => e is SchemaCompiled,
        AdmitState::Done => false,
    }
}

/// The action asks for the event that the state waits for.
pub open spec fn asks_for(a: AdmitAction, s: AdmitState) -> bool {
    match a {
        AdmitAction::Match(_) => s is Matching,
        AdmitAction::Acquire { .. } => s is Acquiring,
        AdmitAction::ParkThenAcquire { .. } => s is Reacquiring,
        AdmitAction::Restore { .. } => s is Restoring,
        AdmitAction::ReleaseThenOpen { .. } => s is Opening,
        AdmitAction::BeginTurn { .. } => s is Extending || s is BeginningCold,
        AdmitAction::UnpinThenBegin { .. } => s is BeginningCold,
        AdmitAction::Tell { .. } => s is TellingContinued || s is TellingCold,
        AdmitAction::Compile => s is CompilingContinued || s is CompilingCold,
        AdmitAction::Open => s is Opening,
        AdmitAction::PickVictim => s is ChoosingSwapVictim || s is ChoosingVictim,
        AdmitAction::CloseVictim(_) => s is Closing,
        AdmitAction::ParkVictim(_) => s is Evicting,
        AdmitAction::Enqueue { .. } => s is Enqueueing,
        AdmitAction::Locate { .. } => s is Locating,
        AdmitAction::ResetState { .. } => s is Resetting,
        AdmitAction::LookUp => s is LookingUp,
        AdmitAction::Share { .. } => s is Sharing,
        _ => s is Done,
    }
}

/// No admission hangs: each event that a state waits for leads to an action whose
/// outcome the next state waits for, or ends the admission; it ends without a
/// word to the client only in the waiting room or where the client has gone.
pub proof fn law_no_admission_hangs(f: AdmitFacts, s: AdmitState, e: AdmitEvent)
    requires
        waits_for(s, e),
    ensures
        asks_for(admit_next(f, s, e).1, admit_next(f, s, e).0),
        admit_next(f, s, e).1 is Stop ==> e == AdmitEvent::Enqueued(true),
        e == AdmitEvent::Enqueued(true) ==> admit_next(f, s, e).1 is Stop,
        admit_next(f, s, e).1 is DropSession <==> e == AdmitEvent::Told(false),
{
}

/// The reason of a refusal.
pub open spec fn refused(a: AdmitAction) -> Option<Refusal> {
    match a {
        AdmitAction::Reject(why) => Some(why),
        AdmitAction::ReleaseThenReject { why, .. } => Some(why),
        AdmitAction::RejectAndClose { why, .. } => Some(why),
        _ => None,
    }
}

/// The tokens that the conversation in question holds: those that its match or
/// its restoring was about.
pub open spec fn held_before(s: AdmitState, e: AdmitEvent) -> int {
    match (s, e) {
        (AdmitState::Matching, AdmitEvent::Matched(Some(m))) => m.held as int,
        (AdmitState::Restoring { held, .. }, AdmitEvent::Restored(true)) => held as int,
        _ => -1,
    }
}

/// Every refusal is justified: a request is refused only for what its facts or
/// the event say, and the numbers in the refusal are theirs.
pub proof fn law_refusals_are_justified(f: AdmitFacts, s: AdmitState, e: AdmitEvent)
    requires
        admit_possible(f, s, e),
        refused(admit_next(f, s, e).1) is Some,
    ensures
        match refused(admit_next(f, s, e).1)->Some_0 {
            Refusal::NoVisionEncoder => e is Submitted && f.has_visual && !f.vision_loaded,
            Refusal::NeedsContiguousSlots => e is Submitted && f.has_visual && f.paged
                && f.vl_sequential,
            Refusal::NoImagePad => e is Submitted && f.has_visual && !f.image_pad_known,
            Refusal::NoVisualTokens => e is Submitted && f.has_visual && f.n_visual_tokens == 0,
            Refusal::PhaseRows { rows, prompt } => e is Submitted && f.has_visual && rows
                == f.phase_rows && prompt == f.prompt_len && rows != prompt,
            Refusal::ContextFull { held, cap } => held == held_before(s, e) + f.suffix_len && cap
                == f.cap_tokens && held >= cap && admit_next(f, s, e).1 is RejectAndClose,
            Refusal::ContextBudget { held, asked, cap } => held == held_before(s, e) + f.suffix_len
                && cap == f.cap_tokens && held < cap && held + asked > cap && (asked
                == f.max_tokens || (asked == 1 && f.max_tokens == 0)) && admit_next(
                f,
                s,
                e,
            ).1 is Reject,
            Refusal::PromptTooLong { prompt, cap } => prompt == f.prompt_len && cap
                == f.cap_tokens && prompt >= cap,
            Refusal::EvictionFailed => e == AdmitEvent::Evicted(false),
            Refusal::QueueFull => e == AdmitEvent::Enqueued(false),
            Refusal::NotOpened => e == AdmitEvent::Victim(None::<u64>) && !f.wait_enabled
                && s is ChoosingVictim,
            Refusal::NoSlot => e == AdmitEvent::Located(None::<usize>),
            Refusal::ResetFailed => e == AdmitEvent::StateReset(false),
            Refusal::TurnFailed => e == AdmitEvent::TurnBegun(None::<usize>) && s is BeginningCold,
            Refusal::SchemaFailed => e == AdmitEvent::SchemaCompiled(false),
        },
{
}

/// A failure that the admission cannot mend is refused under its own name, and a
/// session that was opened for the request is closed.
pub proof fn law_failures_are_refused_by_name(f: AdmitFacts, s: AdmitState, e: AdmitEvent)
    requires
        waits_for(s, e),
    ensures
        e == AdmitEvent::Evicted(false) ==> refused(admit_next(f, s, e).1) == Some(
            Refusal::EvictionFailed,
        ),
        e == AdmitEvent::Enqueued(false) ==> refused(admit_next(f, s, e).1) == Some(
            Refusal::QueueFull,
        ),
        e == AdmitEvent::Located(None::<usize>) ==> refused(admit_next(f, s, e).1) == Some(
            Refusal::NoSlot,
        ),
        e == AdmitEvent::StateReset(false) ==> refused(admit_next(f, s, e).1) == Some(
            Refusal::ResetFailed,
        ) && admit_next(f, s, e).1 is RejectAndClose,
        e == AdmitEvent::SchemaCompiled(false) ==> refused(admit_next(f, s, e).1) == Some(
            Refusal::SchemaFailed,
        ) && admit_next(f, s, e).1 is RejectAndClose,
        e == AdmitEvent::TurnBegun(None::<usize>) && s is BeginningCold ==> refused(
            admit_next(f, s, e).1,
        ) == Some(Refusal::TurnFailed) && admit_next(f, s, e).1 is RejectAndClose,
        s is ChoosingVictim && e == AdmitEvent::Victim(None::<u64>) && !f.wait_enabled
            ==> refused(admit_next(f, s, e).1) == Some(Refusal::NotOpened),
        s is ChoosingVictim && e == AdmitEvent::Victim(None::<u64>) && f.wait_enabled ==> {
            let a = admit_next(f, s, e).1;
            &&& a is Enqueue
            &&& f.queue_bytes > 0 ==> a->Enqueue_bytes == f.queue_bytes
            &&& f.queue_bytes == 0 ==> a->Enqueue_bytes == 1
        },
{
}

/// A turn of a request with a schema starts only once its schema has compiled,
/// and a request without one is never made to compile: an accepted turn is
/// installed at once exactly where there is no schema.
pub proof fn law_schemas_compile_before_turns_start(f: AdmitFacts, s: AdmitState, e: AdmitEvent)
    ensures
        ({
            let a = admit_next(f, s, e).1;
            let starts = a is InstallContinued || a is InstallCold;
            &&& starts && f.has_schema ==> e == AdmitEvent::SchemaCompiled(true)
            &&& a is Compile ==> f.has_schema && e == AdmitEvent::Told(true)
            &&& waits_for(s, e) && e == AdmitEvent::Told(true) && f.has_schema ==> a is Compile
            &&& waits_for(s, e) && e == AdmitEvent::Told(true) && !f.has_schema ==> starts
            &&& waits_for(s, e) && e == AdmitEvent::SchemaCompiled(true) ==> starts
            &&& starts ==> e == AdmitEvent::Told(true) || e == AdmitEvent::SchemaCompiled(true)
        }),
{
}

/// The turn that a client has been told of: its session, slot, tokens reused, and
/// whether it continues a conversation.
pub open spec fn told_turn(s: AdmitState) -> Option<(u64, usize, usize, bool)> {
    match s {
        AdmitState::TellingContinued { session, slot, reused, .. } => Some(
            (session, slot, reused, true),
        ),
        AdmitState::CompilingContinued { session, slot, reused, .. } => Some(
            (session, slot, reused, true),
        ),
        AdmitState::TellingCold { session, slot, reused, .. } => Some(
            (session, slot, reused, false),
        ),
        AdmitState::CompilingCold { session, slot, reused, .. } => Some(
            (session, slot, reused, false),
        ),
        _ => None,
    }
}

/// The turn that starts is the one that was told: the client hears the session
/// and the tokens reused of the turn that is then installed, and the tokens to
/// prefill are all the others. A conversation's turn is installed as continued,
/// any other as cold.
pub proof fn law_the_turn_told_is_the_turn_started(f: AdmitFacts, s: AdmitState, e: AdmitEvent)
    requires
        admit_possible(f, s, e),
    ensures
        match admit_next(f, s, e) {
            (next, AdmitAction::Tell { session, reused, prefill }) => {
                &&& told_turn(next) is Some
                &&& told_turn(next)->Some_0.0 == session
                &&& told_turn(next)->Some_0.2 == reused
                &&& s is Extending ==> reused + prefill == s->Extending_extended && told_turn(
                    next,
                ) == Some((s->Extending_session, s->Extending_slot, reused, true)) && e
                    == AdmitEvent::TurnBegun(Some(reused))
                &&& !(s is Extending) ==> reused + prefill == f.prompt_len && !told_turn(
                    next,
                )->Some_0.3
                &&& s is BeginningCold ==> told_turn(next) == Some(
                    (s->BeginningCold_session, s->BeginningCold_slot, reused, false),
                ) && e == AdmitEvent::TurnBegun(Some(reused))
                &&& s is Sharing ==> told_turn(next) == Some(
                    (s->Sharing_session, s->Sharing_slot, s->Sharing_boundary, false),
                )
            },
            (next, AdmitAction::Compile) => told_turn(s) is Some && told_turn(next) == told_turn(s),
            (_, AdmitAction::InstallContinued { session, slot, reused, .. }) => told_turn(s)
                == Some((session, slot, reused, true)),
            (_, AdmitAction::InstallCold { session, slot, reused, .. }) => told_turn(s) == Some(
                (session, slot, reused, false),
            ),
            _ => true,
        },
        waits_for(s, e) && (s is Extending || s is BeginningCold) && e
            != AdmitEvent::TurnBegun(None::<usize>) ==> admit_next(f, s, e).1 is Tell,
        s is Sharing && e == AdmitEvent::Shared(true) ==> admit_next(f, s, e).1 is Tell,
{
}

/// The speculative head's cache is kept exactly where the session never left its
/// slot: a conversation found in a slot keeps it, one that was restored does not,
/// and nothing on the way to its turn changes that.
pub proof fn law_the_heads_cache_is_kept_in_place(f: AdmitFacts, s: AdmitState, e: AdmitEvent)
    ensures
        match admit_next(f, s, e).0 {
            AdmitState::Extending { head_kept, .. } => head_kept == (s is Matching),
            AdmitState::TellingContinued { head_kept, .. } => s is Extending && head_kept
                == s->Extending_head_kept,
            AdmitState::CompilingContinued { head_kept, .. } => s is TellingContinued && head_kept
                == s->TellingContinued_head_kept,
            _ => true,
        },
        match admit_next(f, s, e).1 {
            AdmitAction::InstallContinued { head_kept, .. } => match s {
                AdmitState::TellingContinued { head_kept: kept, .. } => head_kept == kept,
                AdmitState::CompilingContinued { head_kept: kept, .. } => head_kept == kept,
                _ => false,
            },
            _ => true,
        },
{
}

/// A prefix hit is remembered as one: the cold turn that starts says that it
/// shares a prefix exactly where published pages were shared with its slot.
pub proof fn law_prefix_hits_are_remembered(f: AdmitFacts, s: AdmitState, e: AdmitEvent)
    ensures
        match admit_next(f, s, e).0 {
            AdmitState::TellingCold { prefix_hit, .. } => prefix_hit == (e
                == AdmitEvent::Shared(true)),
            AdmitState::CompilingCold { prefix_hit, .. } => s is TellingCold && prefix_hit
                == s->TellingCold_prefix_hit,
            _ => true,
        },
        match admit_next(f, s, e).1 {
            AdmitAction::InstallCold { prefix_hit, .. } => match s {
                AdmitState::TellingCold { prefix_hit: hit, .. } => prefix_hit == hit,
                AdmitState::CompilingCold { prefix_hit: hit, .. } => prefix_hit == hit,
                _ => false,
            },
            _ => true,
        },
{
}

/// A conversation is looked for exactly where there is something to continue it
/// with: a request without images that brings tokens to append.
pub proof fn law_conversations_are_looked_for(f: AdmitFacts, s: AdmitState, e: AdmitEvent)
    ensures
        admit_next(f, s, e).1 is Match ==> e is Submitted && !f.has_visual && f.suffix_len > 0
            && f.continuation != ContinuationKind::Cold,
        s is Start && e is Submitted && !f.has_visual && f.suffix_len > 0 && f.continuation
            != ContinuationKind::Cold ==> admit_next(f, s, e).1 == AdmitAction::Match(
            f.continuation,
        ),
{
}

/// A conversation that is found is continued: if it sits in a slot and the tokens
/// fit, its turn begins there; if it is swapped out, a slot is acquired for it.
pub proof fn law_found_conversations_are_continued(
    f: AdmitFacts,
    m: MatchedSession,
    held: usize,
    slot: usize,
)
    requires
        m.held + f.suffix_len + f.max_tokens + 1 <= usize::MAX,
        held + f.suffix_len + f.max_tokens + 1 <= usize::MAX,
    ensures
        ({
            let (next, a) = admit_next(f, AdmitState::Matching, AdmitEvent::Matched(Some(m)));
            &&& m.slot is None ==> a == AdmitAction::Acquire { session: m.session } && next
                == (AdmitState::Acquiring { session: m.session, held: m.held })
            &&& m.slot is Some && m.held + f.suffix_len < f.cap_tokens && m.held + f.suffix_len
                + f.max_tokens <= f.cap_tokens ==> a == AdmitAction::BeginTurn {
                session: m.session,
            } && next is Extending && next->Extending_slot == m.slot->Some_0
                && next->Extending_session == m.session && next->Extending_extended == m.held
                + f.suffix_len
            &&& m.slot is Some && m.held + f.suffix_len >= f.cap_tokens ==> a is RejectAndClose
                && a->RejectAndClose_session == m.session
        }),
        ({
            let s = AdmitState::Restoring { session: m.session, held, slot };
            let (next, a) = admit_next(f, s, AdmitEvent::Restored(true));
            &&& held + f.suffix_len < f.cap_tokens && held + f.suffix_len + f.max_tokens
                <= f.cap_tokens ==> a == AdmitAction::BeginTurn { session: m.session } && next
                is Extending && next->Extending_extended == held + f.suffix_len
            &&& held + f.suffix_len >= f.cap_tokens ==> a is RejectAndClose
        }),
        admit_next(
            f,
            AdmitState::Acquiring { session: m.session, held },
            AdmitEvent::Acquired(None),
        ) == (
            AdmitState::ChoosingSwapVictim { session: m.session, held },
            AdmitAction::PickVictim,
        ),
{
}

/// Room for a swapped session is made by parking another idle one, if there is
/// one; without, the request goes cold.
pub proof fn law_swapped_sessions_make_room_by_parking(
    f: AdmitFacts,
    session: u64,
    held: usize,
    idle: Option<u64>,
)
    ensures
        ({
            let s = AdmitState::ChoosingSwapVictim { session, held };
            let (next, a) = admit_next(f, s, AdmitEvent::Victim(idle));
            &&& idle is Some && idle->Some_0 != session ==> a == AdmitAction::ParkThenAcquire {
                victim: idle->Some_0,
            } && next == (AdmitState::Reacquiring { session, held })
            &&& idle is None || idle->Some_0 == session ==> a is Open || (refused(a) is Some
                && f.prompt_len >= f.cap_tokens)
        }),
{
}

/// The prefix cache is asked exactly for text requests where there is one, and a
/// hit is shared exactly where it covers whole pages that are all there: the
/// pages shared cover the boundary, and no more.
pub proof fn law_prefix_pages_are_shared(
    f: AdmitFacts,
    session: u64,
    slot: usize,
    hit: PrefixHit,
)
    ensures
        ({
            let a = admit_next(
                f,
                AdmitState::Resetting { session, slot },
                AdmitEvent::StateReset(true),
            ).1;
            &&& a is LookUp <==> f.prefix_cache && !f.has_visual
            &&& !(a is LookUp) ==> a == AdmitAction::BeginTurn { session }
        }),
        ({
            let (next, a) = admit_next(
                f,
                AdmitState::LookingUp { session, slot },
                AdmitEvent::LookedUp(Some(hit)),
            );
            &&& a is Share ==> {
                &&& a->Share_slot == slot
                &&& 0 < a->Share_pages <= hit.pages_found
                &&& a->Share_pages * PAGE_TOKENS <= hit.boundary
                &&& hit.boundary < (a->Share_pages + 1) * PAGE_TOKENS
                &&& next == (AdmitState::Sharing { session, slot, boundary: hit.boundary })
            }
            &&& f.prompt_len > 0 && hit.boundary >= PAGE_TOKENS && hit.pages_found * PAGE_TOKENS
                >= hit.boundary ==> a is Share
        }),
{
    let page = PAGE_TOKENS as int;
    let b = hit.boundary as int;
    vstd::arithmetic::div_mod::lemma_fundamental_div_mod(b, page);
    vstd::arithmetic::div_mod::lemma_mod_bound(b, page);
    if hit.pages_found * page >= b && hit.pages_found < b / page {
        assert(false) by (nonlinear_arith)
            requires
                hit.pages_found * page >= b,
                hit.pages_found < b / page,
                b == page * (b / page) + b % page,
                b % page >= 0,
                page > 0,
        ;
    }
}

/// A request with images is taken exactly where the rig can run it: the first
/// thing wrong with it is what it is refused for, and otherwise it is opened or
/// found too long like any other.
pub proof fn law_image_requests_are_checked(f: AdmitFacts)
    requires
        f.has_visual,
    ensures
        ({
            let a = admit_next(f, AdmitState::Start, AdmitEvent::Submitted).1;
            let sound = f.vision_loaded && !(f.paged && f.vl_sequential) && f.image_pad_known
                && f.n_visual_tokens > 0 && f.phase_rows == f.prompt_len;
            &&& sound && f.prompt_len < f.cap_tokens ==> a is Open
            &&& !sound ==> a is Reject && !(a->Reject_0 is PromptTooLong)
            &&& !f.vision_loaded ==> a == AdmitAction::Reject(Refusal::NoVisionEncoder)
            &&& f.vision_loaded && f.paged && f.vl_sequential ==> a == AdmitAction::Reject(
                Refusal::NeedsContiguousSlots,
            )
            &&& f.vision_loaded && !(f.paged && f.vl_sequential) && !f.image_pad_known ==> a
                == AdmitAction::Reject(Refusal::NoImagePad)
            &&& f.vision_loaded && !(f.paged && f.vl_sequential) && f.image_pad_known
                && f.n_visual_tokens == 0 ==> a == AdmitAction::Reject(Refusal::NoVisualTokens)
        }),
{
}

/// An opened session is placed, reset and begun in the slot that it was located
/// in, with nothing done to another session.
pub proof fn law_opened_sessions_start_in_their_slot(
    f: AdmitFacts,
    session: u64,
    slot: usize,
)
    ensures
        admit_next(f, AdmitState::Opening, AdmitEvent::Opened(OpenOutcome::Opened(session)))
            == (AdmitState::Locating { session }, AdmitAction::Locate { session }),
        admit_next(f, AdmitState::Locating { session }, AdmitEvent::Located(Some(slot))) == (
            AdmitState::Resetting { session, slot },
            AdmitAction::ResetState { slot },
        ),
        ({
            let (next, a) = admit_next(
                f,
                AdmitState::Resetting { session, slot },
                AdmitEvent::StateReset(true),
            );
            ||| a is LookUp && next == (AdmitState::LookingUp { session, slot })
            ||| a == (AdmitAction::BeginTurn { session }) && next == (AdmitState::BeginningCold {
                session,
                slot,
            })
        }),
        admit_next(
            f,
            AdmitState::LookingUp { session, slot },
            AdmitEvent::LookedUp(None),
        ).0 == (AdmitState::BeginningCold { session, slot }),
{
}

/// A shortage leads to a victim, and the victim's going leads back to opening.
pub proof fn law_shortages_look_for_a_victim(f: AdmitFacts, why: OpenOutcome)
    requires
        !(why is Opened),
    ensures
        admit_next(f, AdmitState::Opening, AdmitEvent::Opened(why)).1 is PickVictim,
        admit_next(f, AdmitState::Opening, AdmitEvent::Opened(why)).0 is ChoosingVictim,
{
}

/// What a session remembers of a turn: the tokens it will hold, and the
/// conversation it now is. A continued turn adds to what was there and keeps the
/// phase offset; a cold one starts over, at the reused position on a prefix hit,
/// and with an image's own offset or none.
pub proof fn law_sessions_remember_their_turn(
    before: SessionRecord,
    turn: AcceptedTurn,
    convo: Seq<u64>,
    after: SessionRecord,
)
    requires
        session_accepted(before, turn, convo, after),
    ensures
        after.convo@ == convo,
        match turn {
            AcceptedTurn::Continued { suffix } => {
                &&& after.tokens@.len() == before.tokens@.len() + suffix@.len()
                &&& forall|i: int|
                    0 <= i < before.tokens@.len() ==> #[trigger] after.tokens@[i]
                        == before.tokens@[i]
                &&& forall|i: int|
                    0 <= i < suffix@.len() ==> after.tokens@[before.tokens@.len() + i]
                        == #[trigger] suffix@[i]
                &&& after.rope_delta == before.rope_delta
                &&& after.next_pos == before.next_pos
            },
            AcceptedTurn::Cold { prompt, prefix_reused, image_delta } => {
                &&& after.tokens@ == prompt@
                &&& prefix_reused is Some ==> after.next_pos == prefix_reused->Some_0
                &&& prefix_reused is None ==> after.next_pos == before.next_pos
                &&& image_delta is Some ==> after.rope_delta == image_delta->Some_0
                &&& image_delta is None ==> after.rope_delta == 0
            },
        },
{
}

/// A continued turn feeds what the session does not hold yet: the tokens from the
/// reused ones on, at the next position, and speculates only where nothing about
/// the request forbids it.
pub proof fn law_continued_turns_feed_the_rest(
    before: PendingWork,
    extended: Seq<u32>,
    reused: usize,
    rope_delta: i32,
    spec: Speculation,
    after: PendingWork,
    i: int,
)
    requires
        turn_continued(before, extended, reused, rope_delta, spec, after),
        reused <= extended.len(),
    ensures
        after.remaining_prompt@.len() == extended.len() - reused,
        0 <= i < after.remaining_prompt@.len() ==> after.remaining_prompt@[i] == extended[reused
            + i],
        after.next_pos == reused,
        !after.decoding,
        after.pos3_delta == rope_delta,
        after.slot == before.slot,
        after.mtp_active <==> spec.head_loaded && spec.mtp_k > 0 && !spec.penalized
            && !spec.sampled && !spec.constrained,
{
}

/// A waiter is charged for its bytes, and never nothing; the session that makes room
/// is the oldest idle one, unless it is the one that needs the room.
pub proof fn law_charges_and_victims(queue_bytes: u64, session: u64, idle: Option<u64>)
    ensures
        queue_bytes > 0 ==> charge_of(queue_bytes) == queue_bytes,
        queue_bytes == 0 ==> charge_of(queue_bytes) == 1,
        swap_victim(session, idle) is Some ==> swap_victim(session, idle) == idle
            && idle->Some_0 != session,
        idle is Some && idle->Some_0 != session ==> swap_victim(session, idle) == idle,
        idle is None ==> swap_victim(session, idle) is None,
{
}

proof fn lemma_join_4(p: Seq<Seq<char>>)
    requires
        p.len() == 4,
    ensures
        joined_texts(p, 4) == p[0] + p[1] + p[2] + p[3],
{
    reveal_with_fuel(joined_texts, 5);
}

proof fn lemma_join_5(p: Seq<Seq<char>>)
    requires
        p.len() == 5,
    ensures
        joined_texts(p, 5) == p[0] + p[1] + p[2] + p[3] + p[4],
{
    reveal_with_fuel(joined_texts, 6);
}

proof fn lemma_join_7(p: Seq<Seq<char>>)
    requires
        p.len() == 7,
    ensures
        joined_texts(p, 7) == p[0] + p[1] + p[2] + p[3] + p[4] + p[5] + p[6],
{
    reveal_with_fuel(joined_texts, 8);
}

/// A client is told the numbers that it was refused for, each in its place.
pub proof fn law_refusals_tell_their_numbers(
    held: usize,
    asked: usize,
    cap: usize,
    detail: Seq<char>,
)
    ensures
        ({
            let t = refusal_chars(Refusal::ContextFull { held, cap }, detail);
            &&& occurs(
                t,
                "context window full: the conversation holds "@ + decimal_text(held as int),
            )
            &&& occurs(t, " of "@ + decimal_text(cap as int))
        }),
        ({
            let t = refusal_chars(Refusal::ContextBudget { held, asked, cap }, detail);
            &&& occurs(
                t,
                "context window budget: the conversation would hold "@ + decimal_text(
                    held as int,
                ),
            )
            &&& occurs(
                t,
                " tokens and the request asks for "@ + decimal_text(asked as int),
            )
            &&& occurs(t, " more, beyond the "@ + decimal_text(cap as int))
        }),
        ({
            let t = refusal_chars(Refusal::PromptTooLong { prompt: held, cap }, detail);
            &&& occurs(t, "prompt of "@ + decimal_text(held as int))
            &&& occurs(
                t,
                " tokens exceeds the slot context cap of "@ + decimal_text(cap as int),
            )
        }),
        ({
            let t = refusal_chars(Refusal::PhaseRows { rows: held, prompt: cap }, detail);
            &&& occurs(t, "VL mrope_positions length "@ + decimal_text(held as int))
            &&& occurs(t, " != prompt_tokens "@ + decimal_text(cap as int))
        }),
{
    let (h, a, c) = (decimal_text(held as int), decimal_text(asked as int), decimal_text(
        cap as int,
    ));
    let p = seq![
        "context window full: the conversation holds "@,
        h,
        " of "@,
        c,
        " tokens and cannot extend — start a new conversation"@,
    ];
    lemma_join_5(p);
    lemma_pieces_occur(p, 5, 0);
    lemma_pieces_occur(p, 5, 2);
    let q = seq![
        "context window budget: the conversation would hold "@,
        h,
        " tokens and the request asks for "@,
        a,
        " more, beyond the "@,
        c,
        " token context — reduce max_tokens or start a new conversation"@,
    ];
    lemma_join_7(q);
    lemma_pieces_occur(q, 7, 0);
    lemma_pieces_occur(q, 7, 2);
    lemma_pieces_occur(q, 7, 4);
    let r = seq![
        "prompt of "@,
        h,
        " tokens exceeds the slot context cap of "@,
        c,
        " tokens"@,
    ];
    lemma_join_5(r);
    lemma_pieces_occur(r, 5, 0);
    lemma_pieces_occur(r, 5, 2);
    let s = seq!["VL mrope_positions length "@, h, " != prompt_tokens "@, c];
    lemma_join_4(s);
    lemma_pieces_occur(s, 4, 0);
    lemma_pieces_occur(s, 4, 2);
}

/// A client is told the reason that a failed action gave, to the last character.
pub proof fn law_refusals_tell_their_reason(detail: Seq<char>)
    ensures
        refusal_chars(Refusal::NotOpened, detail) == detail,
        refusal_chars(Refusal::TurnFailed, detail) == detail,
        occurs(refusal_chars(Refusal::QueueFull, detail), detail),
        occurs(refusal_chars(Refusal::ResetFailed, detail), detail),
        occurs(refusal_chars(Refusal::SchemaFailed, detail), detail),
        refusal_chars(Refusal::QueueFull, detail) == "serve queue full: "@ + detail,
        refusal_chars(Refusal::ResetFailed, detail) == "state reset failed: "@ + detail,
        refusal_chars(Refusal::SchemaFailed, detail) == "json_schema compile failed on admit: "@
            + detail,
{
    let none = Seq::<char>::empty();
    crate::text::law_occurrences_are_parts("serve queue full: "@, detail, none);
    crate::text::law_occurrences_are_parts("state reset failed: "@, detail, none);
    crate::text::law_occurrences_are_parts(
        "json_schema compile failed on admit: "@,
        detail,
        none,
    );
    assert("serve queue full: "@ + detail + none =~= "serve queue full: "@ + detail);
    assert("state reset failed: "@ + detail + none =~= "state reset failed: "@ + detail);
    assert("json_schema compile failed on admit: "@ + detail + none
        =~= "json_schema compile failed on admit: "@ + detail);
}

} // verus!
