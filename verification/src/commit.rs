//! Committing sampled tokens, and publishing what they complete to the prefix
//! cache.

use crate::engine_state::InFlight;
use crate::policy::{clear_work_slot, cleared, should_retain_terminal_tok, DoneReason};
use crate::scheduler::PendingWork;
use crate::serve_contract::PAGE_TOKENS;
use vstd::prelude::*;

verus! {

/// What is known of a sampled token once it has been offered to the client.
#[derive(Debug, Clone, Copy, PartialEq, Eq, Structural)]
pub struct SampledToken {
    pub id: u32,
    /// The token ends the turn. A terminator is never sent to the client.
    pub terminator: bool,
    /// The client took the token. Not read for a terminator.
    pub delivered: bool,
    /// The request is constrained and its text is not complete with this token.
    pub grammar_incomplete: bool,
}

/// What becomes of the request.
#[derive(Debug, Clone, Copy, PartialEq, Eq, Structural)]
pub enum Commit {
    /// It goes on; the token joins the session's transcript.
    Continue,
    /// It is over.
    Finished(Finish),
}

/// How a request ends.
#[derive(Debug, Clone, Copy, PartialEq, Eq, Structural)]
pub struct Finish {
    pub session: u64,
    pub reason: DoneReason,
    /// Tokens that the client received.
    pub generated: usize,
    /// The last token joins the session's transcript.
    pub retain: bool,
    /// Tell the client that the constrained text is incomplete, not that the
    /// request is done.
    pub reject_incomplete: bool,
    /// Publish the generated prefix.
    pub publish: bool,
    /// Close the session; otherwise it stays resident for a follow-up.
    pub close_session: bool,
}

impl SampledToken {
    /// The client did not take the token.
    pub open spec fn gone(self) -> bool {
        !self.terminator && !self.delivered
    }
}

/// The context is full with this token. A session that is not known has no
/// length to compare.
pub open spec fn context_full(session_len: Option<usize>, cap_tokens: usize) -> bool {
    match session_len {
        Some(n) => n + 1 >= cap_tokens,
        None => false,
    }
}

/// The request ends with this token.
pub open spec fn ends_with(
    f: InFlight,
    tok: SampledToken,
    session_len: Option<usize>,
    cap_tokens: usize,
) -> bool {
    tok.gone() || tok.terminator || f.produced + 1 >= f.max_tokens || context_full(
        session_len,
        cap_tokens,
    )
}

/// How the request ends with this token.
pub open spec fn finish_of(f: InFlight, tok: SampledToken, prefix_cache: bool) -> Finish {
    let reason = if tok.gone() {
        DoneReason::ClientGone
    } else if tok.terminator {
        DoneReason::Eos
    } else {
        DoneReason::MaxTokens
    };
    Finish {
        session: f.session,
        reason,
        generated: if tok.terminator || tok.gone() {
            f.produced
        } else {
            (f.produced + 1) as usize
        },
        retain: reason == DoneReason::MaxTokens,
        reject_incomplete: tok.grammar_incomplete && reason != DoneReason::ClientGone,
        publish: reason != DoneReason::ClientGone && prefix_cache,
        close_session: reason == DoneReason::ClientGone,
    }
}

/// Commits one sampled token to the request in a slot. A request that goes on
/// has the token to feed next; one that ends leaves its slot, and its work is
/// cleared. `None` when the slot is free.
pub fn commit_sampled_token(
    slot: &mut Option<InFlight>,
    work: &mut PendingWork,
    tok: SampledToken,
    session_len: Option<usize>,
    cap_tokens: usize,
    prefix_cache: bool,
) -> (r: Option<Commit>)
    requires
        *old(slot) is Some ==> (*old(slot))->Some_0.produced < usize::MAX,
        session_len is Some ==> session_len->Some_0 < usize::MAX,
    ensures
        match *old(slot) {
            None => r is None && *final(slot) == *old(slot) && *final(work) == *old(work),
            Some(f) => if ends_with(f, tok, session_len, cap_tokens) {
                &&& r == Some(Commit::Finished(finish_of(f, tok, prefix_cache)))
                &&& *final(slot) is None
                &&& cleared(*old(work), *final(work))
            } else {
                &&& r == Some(Commit::Continue)
                &&& *final(slot) == Some(InFlight { produced: (f.produced + 1) as usize, ..f })
                &&& final(work).remaining_prompt@ == old(work).remaining_prompt@.push(tok.id)
                &&& *final(work) == (PendingWork {
                    remaining_prompt: final(work).remaining_prompt,
                    ..*old(work)
                })
            },
        },
{
    let f: InFlight = match slot {
        Some(f) => *f,
        None => {
            return None;
        },
    };
    let gone: bool = !tok.terminator && !tok.delivered;
    let produced: usize = f.produced + 1;
    let full: bool = match session_len {
        Some(n) => n + 1 >= cap_tokens,
        None => false,
    };
    if gone || tok.terminator || produced >= f.max_tokens || full {
        let reason: DoneReason = if gone {
            DoneReason::ClientGone
        } else if tok.terminator {
            DoneReason::Eos
        } else {
            DoneReason::MaxTokens
        };
        *slot = None;
        clear_work_slot(work);
        Some(
            Commit::Finished(
                Finish {
                    session: f.session,
                    reason,
                    generated: if tok.terminator || gone {
                        produced - 1
                    } else {
                        produced
                    },
                    retain: should_retain_terminal_tok(reason),
                    reject_incomplete: tok.grammar_incomplete && reason != DoneReason::ClientGone,
                    publish: reason != DoneReason::ClientGone && prefix_cache,
                    close_session: reason == DoneReason::ClientGone,
                },
            ),
        )
    } else {
        *slot = Some(InFlight { produced, ..f });
        work.remaining_prompt.push(tok.id);
        Some(Commit::Continue)
    }
}

/// A session that starts below the context cap never passes it: a token joins
/// its transcript only while there is room for it.
pub proof fn law_session_stays_within_cap(
    f: InFlight,
    tok: SampledToken,
    len: usize,
    cap_tokens: usize,
    prefix_cache: bool,
)
    requires
        len < cap_tokens,
    ensures
        !ends_with(f, tok, Some(len), cap_tokens) ==> len + 1 < cap_tokens,
        ends_with(f, tok, Some(len), cap_tokens) && finish_of(f, tok, prefix_cache).retain ==> len
            + 1 <= cap_tokens,
{
}

/// A request never counts more tokens than it asked for, and is told at most
/// that many.
pub proof fn law_budget_is_respected(
    f: InFlight,
    tok: SampledToken,
    session_len: Option<usize>,
    cap_tokens: usize,
    prefix_cache: bool,
)
    requires
        f.produced < f.max_tokens,
    ensures
        !ends_with(f, tok, session_len, cap_tokens) ==> f.produced + 1 < f.max_tokens,
        finish_of(f, tok, prefix_cache).generated <= f.max_tokens,
{
}

/// A token that the client did not receive is neither counted nor kept, and a
/// client that has gone leaves no session behind.
pub proof fn law_undelivered_tokens_leave_no_trace(
    f: InFlight,
    tok: SampledToken,
    prefix_cache: bool,
)
    requires
        tok.terminator || !tok.delivered,
    ensures
        ({
            let end = finish_of(f, tok, prefix_cache);
            &&& end.generated == f.produced
            &&& !end.retain
            &&& tok.gone() ==> end.close_session && !end.publish && !end.reject_incomplete
            &&& !tok.gone() ==> !end.close_session
        }),
{
}

/// A constrained request is never reported as done with incomplete text, unless
/// its client has gone.
pub proof fn law_incomplete_text_is_never_done(f: InFlight, tok: SampledToken, prefix_cache: bool)
    requires
        tok.grammar_incomplete,
        !tok.gone(),
    ensures
        finish_of(f, tok, prefix_cache).reject_incomplete,
{
}

// ---- Publication ----

/// Full pages to publish: the pages `first_page..n_pages` are new, and the
/// first `n_pages` pages hold the tokens up to `boundary`.
#[derive(Debug, Clone, Copy, PartialEq, Eq, Structural)]
pub struct Publication {
    pub first_page: usize,
    pub n_pages: usize,
    pub boundary: usize,
}

/// The last page boundary within `total` tokens.
pub open spec fn page_floor(total: int) -> int {
    total / (PAGE_TOKENS as int) * PAGE_TOKENS
}

/// There are full pages past what was published, and the slot maps them.
pub open spec fn publishable(total: int, last_published: int, mapped_pages: int) -> bool {
    &&& page_floor(total) > last_published
    &&& page_floor(total) > 0
    &&& mapped_pages >= total / (PAGE_TOKENS as int)
}

/// Plans what to publish of `total` processed tokens.
pub fn plan_publication(total: usize, last_published: usize, mapped_pages: usize) -> (r: Option<
    Publication,
>)
    ensures
        match r {
            Some(p) => {
                &&& publishable(total as int, last_published as int, mapped_pages as int)
                &&& p.boundary == page_floor(total as int)
                &&& p.n_pages == total as int / (PAGE_TOKENS as int)
                &&& p.first_page == last_published as int / (PAGE_TOKENS as int)
            },
            None => !publishable(total as int, last_published as int, mapped_pages as int),
        },
{
    let n_pages: usize = total / PAGE_TOKENS;
    let boundary: usize = n_pages * PAGE_TOKENS;
    if boundary <= last_published || boundary == 0 || mapped_pages < n_pages {
        return None;
    }
    Some(Publication { first_page: last_published / PAGE_TOKENS, n_pages, boundary })
}

/// Plans what to publish after a prompt chunk has gone through a forward: only
/// after one that succeeded, only of a slot that fed rows and still prefills,
/// never of an image request, and only what the session's transcript covers.
pub fn prefill_publication(
    forward_ok: bool,
    rows: usize,
    work: &PendingWork,
    last_published: usize,
    mapped_pages: usize,
    session_len: usize,
) -> (r: Option<Publication>)
    ensures
        ({
            let may = forward_ok && rows > 0 && !work.decoding && work.vl_prefill is None
                && session_len >= page_floor(work.next_pos as int);
            match r {
                Some(p) => {
                    &&& may
                    &&& publishable(
                        work.next_pos as int,
                        last_published as int,
                        mapped_pages as int,
                    )
                    &&& p.boundary == page_floor(work.next_pos as int)
                    &&& p.n_pages == work.next_pos as int / (PAGE_TOKENS as int)
                    &&& p.first_page == last_published as int / (PAGE_TOKENS as int)
                },
                None => !may || !publishable(
                    work.next_pos as int,
                    last_published as int,
                    mapped_pages as int,
                ),
            }
        }),
{
    if !forward_ok || rows == 0 || work.decoding || work.vl_prefill.is_some() {
        return None;
    }
    match plan_publication(work.next_pos, last_published, mapped_pages) {
        Some(p) => if session_len >= p.boundary {
            Some(p)
        } else {
            None
        },
        None => None,
    }
}

/// A physical page of the prefix cache with where its tokens start.
#[derive(Debug, Clone, Copy, PartialEq, Eq, Structural)]
pub struct PageHandle {
    pub phys: u32,
    pub epoch: u64,
    pub generation: u64,
    pub token_offset: u64,
}

/// Handles of the first `n_pages` pages of a slot.
pub fn page_handles(page_indices: &[u32], generations: &[u64], n_pages: usize) -> (r: Vec<
    PageHandle,
>)
    requires
        n_pages <= page_indices@.len(),
        n_pages <= generations@.len(),
        n_pages * PAGE_TOKENS <= u64::MAX,
    ensures
        r@ == Seq::new(
            n_pages as nat,
            |i: int|
                PageHandle {
                    phys: page_indices@[i],
                    epoch: 0,
                    generation: generations@[i],
                    token_offset: (i * PAGE_TOKENS) as u64,
                },
        ),
{
    let mut out: Vec<PageHandle> = Vec::new();
    let mut i: usize = 0;
    while i < n_pages
        invariant
            i <= n_pages,
            n_pages <= page_indices@.len(),
            n_pages <= generations@.len(),
            n_pages * PAGE_TOKENS <= u64::MAX,
            out@ =~= Seq::new(
                i as nat,
                |i: int|
                    PageHandle {
                        phys: page_indices@[i],
                        epoch: 0,
                        generation: generations@[i],
                        token_offset: (i * PAGE_TOKENS) as u64,
                    },
            ),
        decreases n_pages - i,
    {
        out.push(
            PageHandle {
                phys: page_indices[i],
                epoch: 0,
                generation: generations[i],
                token_offset: (i as u64) * (PAGE_TOKENS as u64),
            },
        );
        i = i + 1;
    }
    out
}

/// Pages are published once: what a publication covers is not published again,
/// and the next one starts where it ended.
pub proof fn law_pages_are_published_once(total: usize, later: usize, last: usize, mapped: usize)
    requires
        publishable(total as int, last as int, mapped as int),
        total <= later,
    ensures
        !publishable(total as int, page_floor(total as int), mapped as int),
        publishable(later as int, page_floor(total as int), mapped as int) ==> page_floor(
            total as int,
        ) / (PAGE_TOKENS as int) == total as int / (PAGE_TOKENS as int) && page_floor(
            total as int,
        ) < page_floor(later as int),
{
}

// ---- Laws of commits and publications, over what goes in and comes out ----

/// A request does not end early: while the client takes its tokens, none of them
/// ends the turn, and neither the tokens asked for nor the context are reached,
/// it goes on.
pub proof fn law_requests_do_not_end_early(
    f: InFlight,
    tok: SampledToken,
    session_len: Option<usize>,
    cap_tokens: usize,
)
    requires
        !tok.terminator,
        tok.delivered,
        f.produced + 1 < f.max_tokens,
        session_len is Some ==> session_len->Some_0 + 1 < cap_tokens,
    ensures
        !ends_with(f, tok, session_len, cap_tokens),
{
}

/// A request ends when it is due: with a terminator, with a token that the client
/// did not take, with the last token asked for, and with the one that fills the
/// context.
pub proof fn law_requests_end_when_due(
    f: InFlight,
    tok: SampledToken,
    session_len: Option<usize>,
    cap_tokens: usize,
)
    requires
        tok.terminator || !tok.delivered || f.produced + 1 >= f.max_tokens || (session_len is Some
            && session_len->Some_0 + 1 >= cap_tokens),
    ensures
        ends_with(f, tok, session_len, cap_tokens),
{
}

/// An answer that is cut is as long as was asked for, or as the context allows.
pub proof fn law_cut_answers_are_full_length(
    f: InFlight,
    tok: SampledToken,
    session_len: Option<usize>,
    cap_tokens: usize,
    prefix_cache: bool,
)
    requires
        f.produced < f.max_tokens,
        ends_with(f, tok, session_len, cap_tokens),
        finish_of(f, tok, prefix_cache).reason == DoneReason::MaxTokens,
    ensures
        finish_of(f, tok, prefix_cache).generated == f.max_tokens || (session_len is Some
            && session_len->Some_0 + 1 >= cap_tokens),
        finish_of(f, tok, prefix_cache).retain,
{
}

/// The end of a request is told as it is: under its own session, as gone exactly
/// where the client did not take the token, as ended exactly where the token ends
/// the turn, with as many tokens as the client received. Only what the client
/// received is kept, only a gone client's session is closed, and generated pages
/// are published exactly where there is a cache and a client.
pub proof fn law_ends_are_told_as_they_are(f: InFlight, tok: SampledToken, prefix_cache: bool)
    requires
        f.produced < usize::MAX,
    ensures
        ({
            let end = finish_of(f, tok, prefix_cache);
            let received = tok.delivered && !tok.terminator;
            &&& end.session == f.session
            &&& end.reason == DoneReason::Eos <==> tok.terminator
            &&& end.reason == DoneReason::ClientGone <==> !tok.terminator && !tok.delivered
            &&& end.reason == DoneReason::MaxTokens <==> received
            &&& end.generated == f.produced + if received {
                1int
            } else {
                0
            }
            &&& end.retain == received
            &&& end.close_session <==> !tok.terminator && !tok.delivered
            &&& end.publish <==> prefix_cache && (tok.terminator || tok.delivered)
            &&& end.reject_incomplete <==> tok.grammar_incomplete && (tok.terminator
                || tok.delivered)
        }),
{
}

/// A publication covers the full pages and nothing else: its boundary is the last
/// page boundary that the tokens reach, it holds as many pages as lie before
/// that, and it starts with the page in which the earlier one ended.
pub proof fn law_publications_cover_the_full_pages(total: int, last: int)
    requires
        0 <= total,
        0 <= last,
    ensures
        page_floor(total) <= total < page_floor(total) + PAGE_TOKENS,
        page_floor(total) % (PAGE_TOKENS as int) == 0,
        total / (PAGE_TOKENS as int) * PAGE_TOKENS == page_floor(total),
        last % (PAGE_TOKENS as int) == 0 ==> last / (PAGE_TOKENS as int) * PAGE_TOKENS == last,
{
}

/// Whatever pages are full, mapped and not yet published are published, and
/// nothing is otherwise.
pub proof fn law_full_pages_are_published(total: int, last: int, mapped: int, boundary: int)
    requires
        0 <= last,
        0 <= mapped,
        0 < boundary <= total,
        boundary % (PAGE_TOKENS as int) == 0,
        total < boundary + PAGE_TOKENS,
    ensures
        publishable(total, last, mapped) <==> boundary > last && mapped * PAGE_TOKENS >= boundary,
{
    let page = PAGE_TOKENS as int;
    let n = total / page;
    vstd::arithmetic::div_mod::lemma_fundamental_div_mod(boundary, page);
    vstd::arithmetic::div_mod::lemma_fundamental_div_mod_converse(
        total,
        page,
        boundary / page,
        total - boundary,
    );
    assert(n == boundary / page);
    if mapped >= n {
        assert(mapped * page >= n * page) by (nonlinear_arith)
            requires
                mapped >= n,
                page > 0,
        ;
    } else {
        assert(mapped * page < n * page) by (nonlinear_arith)
            requires
                mapped < n,
                page > 0,
        ;
    }
}

/// Tokens short of a page are never published.
pub proof fn law_short_texts_are_not_published(total: int, last: int, mapped: int)
    requires
        0 <= total < PAGE_TOKENS,
        0 <= last,
    ensures
        !publishable(total, last, mapped),
{
}

} // verus!
