//! Block drafting for one slot: how the draft context is sized, what a draft
//! forward is fed, and what of a verified block is kept.

use crate::glimmer_batch::EmbeddingFormat;
use crate::scheduler::{greatest, least};
use crate::text::{append_decimal, chars_of, decimal_text, parse_u64, unsigned_value};
use vstd::prelude::*;
use vstd::string::StringExecFns;

verus! {

/// Rows of the draft context when nothing else bounds it.
pub const DEFAULT_DFLASH_CTX_CAP: usize = 8192;

/// A machine-word number in a developer setting.
pub open spec fn word_setting(v: Option<Seq<char>>) -> Option<int> {
    match v {
        Some(s) => match unsigned_value(s) {
            Some(n) => if n <= usize::MAX {
                Some(n)
            } else {
                None
            },
            None => None,
        },
        None => None,
    }
}

pub open spec fn str_view(v: Option<&str>) -> Option<Seq<char>> {
    match v {
        Some(s) => Some(s@),
        None => None,
    }
}

fn read_setting(v: Option<&str>) -> (r: Option<usize>)
    ensures
        match r {
            Some(n) => word_setting(str_view(v)) == Some(n as int),
            None => word_setting(str_view(v)) is None,
        },
{
    match v {
        Some(s) => {
            let chars: Vec<char> = chars_of(s);
            assert(chars@.subrange(0, chars@.len() as int) =~= chars@);
            match parse_u64(&chars, 0, chars.len()) {
                Some(n) => if n <= usize::MAX as u64 {
                    Some(n as usize)
                } else {
                    None
                },
                None => None,
            }
        },
        None => None,
    }
}

/// The draft-context window before the draft's layers are looked at: the
/// developer setting if it is a number, with 0 for none, else what the draft
/// declares.
pub open spec fn chosen_window(setting: Option<Seq<char>>, declared: Option<usize>) -> Option<int> {
    match word_setting(setting) {
        Some(n) => if n == 0 {
            None
        } else {
            Some(n)
        },
        None => match declared {
            Some(w) => Some(w as int),
            None => None,
        },
    }
}

/// The draft-context window. A draft whose layers do not all slide cannot run
/// windowed on a slot.
pub fn resolve_window(
    setting: Option<&str>,
    declared: Option<usize>,
    all_layers_sliding: bool,
) -> (r: Option<usize>)
    ensures
        match r {
            Some(w) => all_layers_sliding && chosen_window(str_view(setting), declared) == Some(
                w as int,
            ),
            None => !all_layers_sliding || chosen_window(str_view(setting), declared) is None,
        },
{
    if !all_layers_sliding {
        return None;
    }
    match read_setting(setting) {
        Some(n) => if n == 0 {
            None
        } else {
            Some(n)
        },
        None => declared,
    }
}

/// Rows of a slot's draft context: the window, or the requested context cut to
/// the developer setting (0 for uncut) or to the default.
pub open spec fn ctx_rows(
    window: Option<usize>,
    cap_setting: Option<Seq<char>>,
    requested_ctx: usize,
) -> int {
    match window {
        Some(w) => w as int,
        None => match word_setting(cap_setting) {
            Some(cap) => if cap == 0 {
                requested_ctx as int
            } else {
                least(requested_ctx as int, cap)
            },
            None => least(requested_ctx as int, DEFAULT_DFLASH_CTX_CAP as int),
        },
    }
}

/// Rows of a slot's draft context.
pub fn resolve_ctx_capacity(
    window: Option<usize>,
    cap_setting: Option<&str>,
    requested_ctx: usize,
) -> (r: usize)
    ensures
        r == ctx_rows(window, str_view(cap_setting), requested_ctx),
{
    match window {
        Some(w) => w,
        None => {
            let cap: usize = match read_setting(cap_setting) {
                Some(n) => n,
                None => DEFAULT_DFLASH_CTX_CAP,
            };
            if cap == 0 || requested_ctx <= cap {
                requested_ctx
            } else {
                cap
            }
        },
    }
}

/// The first draft tap that is no layer of the target.
pub open spec fn first_bad_layer(ids: Seq<usize>, n_layers: usize, k: int) -> bool {
    &&& 0 <= k < ids.len()
    &&& ids[k] >= n_layers
    &&& forall|j: int| 0 <= j < k ==> #[trigger] ids[j] < n_layers
}

/// `text` says why the slot path cannot run a draft.
pub open spec fn is_draft_refusal(
    has_candidate_selector: bool,
    ids: Seq<usize>,
    n_layers: usize,
    text: Seq<char>,
) -> bool {
    if !has_candidate_selector {
        text
            == "slots DFlash requires a DFlash2 draft (candidate selector); legacy DFlash drafts are sequential-path only"@
    } else {
        exists|k: int| #[trigger]
            first_bad_layer(ids, n_layers, k) && text == "draft target_layer_ids contains "@
                + decimal_text(ids[k] as int) + " >= num_target_layers "@ + decimal_text(
                n_layers as int,
            )
    }
}

/// Refuses a draft that the slot path cannot run: one without a candidate
/// selector, or one that taps a layer the target does not have.
pub fn check_draft(has_candidate_selector: bool, target_layer_ids: &[usize], n_layers: usize) -> (r:
    Result<(), String>)
    ensures
        match r {
            Ok(_) => has_candidate_selector && forall|k: int|
                0 <= k < target_layer_ids@.len() ==> #[trigger] target_layer_ids@[k] < n_layers,
            Err(e) => is_draft_refusal(
                has_candidate_selector,
                target_layer_ids@,
                n_layers,
                e@,
            ),
        },
{
    if !has_candidate_selector {
        return Err(
            String::from_str(
                "slots DFlash requires a DFlash2 draft (candidate selector); legacy DFlash drafts are sequential-path only",
            ),
        );
    }
    let mut k: usize = 0;
    while k < target_layer_ids.len()
        invariant
            k <= target_layer_ids@.len(),
            has_candidate_selector,
            forall|j: int| 0 <= j < k ==> #[trigger] target_layer_ids@[j] < n_layers,
        decreases target_layer_ids@.len() - k,
    {
        if target_layer_ids[k] >= n_layers {
            let mut t: String = String::from_str("draft target_layer_ids contains ");
            append_decimal(&mut t, target_layer_ids[k] as u64);
            t.append(" >= num_target_layers ");
            append_decimal(&mut t, n_layers as u64);
            assert(first_bad_layer(target_layer_ids@, n_layers, k as int));
            return Err(t);
        }
        k = k + 1;
    }
    Ok(())
}

/// The block that the draft fills: the seed, then masks.
pub fn draft_block(seed: u32, mask_token_id: u32, block_size: usize) -> (r: Vec<u32>)
    requires
        block_size > 0,
    ensures
        r@ == Seq::new(
            block_size as nat,
            |i: int|
                if i == 0 {
                    seed
                } else {
                    mask_token_id
                },
        ),
{
    let mut out: Vec<u32> = Vec::new();
    out.push(seed);
    while out.len() < block_size
        invariant
            1 <= out@.len() <= block_size,
            out@ =~= Seq::new(
                out@.len(),
                |i: int|
                    if i == 0 {
                        seed
                    } else {
                        mask_token_id
                    },
            ),
        decreases block_size - out@.len(),
    {
        out.push(mask_token_id);
    }
    out
}

/// Positions of one draft forward.
pub struct DraftPositions {
    /// Positions of the block.
    pub q: Vec<i32>,
    /// Positions of the context rows, then those of the block.
    pub k: Vec<i32>,
    /// Context rows.
    pub ctx_len: usize,
}

/// The block's positions.
pub open spec fn block_positions(position: int, block_size: nat) -> Seq<i32> {
    Seq::new(block_size, |i: int| (position + i) as i32)
}

/// The positions of a draft forward at committed length `position`: the newest
/// committed rows, no more than `position` of them, and the block after them.
pub fn draft_positions(committed: &[i32], position: usize, block_size: usize) -> (r:
    DraftPositions)
    requires
        position + block_size <= i32::MAX,
    ensures
        r.ctx_len == least(committed@.len() as int, position as int),
        r.q@ == block_positions(position as int, block_size as nat),
        r.k@ == committed@.skip(committed@.len() - r.ctx_len) + block_positions(
            position as int,
            block_size as nat,
        ),
{
    let n: usize = committed.len();
    let ctx_len: usize = if n <= position {
        n
    } else {
        position
    };
    let start: usize = n - ctx_len;
    let mut k: Vec<i32> = Vec::new();
    let mut i: usize = start;
    while i < n
        invariant
            start <= i <= n,
            n == committed@.len(),
            k@ =~= committed@.subrange(start as int, i as int),
        decreases n - i,
    {
        k.push(committed[i]);
        i = i + 1;
    }
    let ghost ctx = k@;
    assert(ctx =~= committed@.skip(start as int));
    let mut q: Vec<i32> = Vec::new();
    let mut p: usize = 0;
    while p < block_size
        invariant
            p <= block_size,
            position + block_size <= i32::MAX,
            q@ =~= block_positions(position as int, p as nat),
            k@ =~= ctx + block_positions(position as int, p as nat),
        decreases block_size - p,
    {
        let x: i32 = (position + p) as i32;
        q.push(x);
        k.push(x);
        p = p + 1;
    }
    DraftPositions { q, k, ctx_len }
}

/// The rows to verify: the seed and as many proposed tokens as the block has
/// room for.
pub fn verify_row_tokens(seed: u32, proposal: &[u32], block_size: usize) -> (r: Vec<u32>)
    requires
        block_size > 0,
    ensures
        r@ == seq![seed] + proposal@.take(least(block_size - 1, proposal@.len() as int)),
{
    let n: usize = if block_size - 1 <= proposal.len() {
        block_size - 1
    } else {
        proposal.len()
    };
    let mut out: Vec<u32> = Vec::new();
    out.push(seed);
    let mut i: usize = 0;
    assert(out@ =~= seq![seed] + proposal@.take(0));
    while i < n
        invariant
            i <= n <= proposal@.len(),
            out@ =~= seq![seed] + proposal@.take(i as int),
        decreases n - i,
    {
        out.push(proposal[i]);
        i = i + 1;
    }
    out
}

/// What is kept of a verified block.
pub struct AcceptPlan {
    /// Tokens to commit, without the seed, with the bonus token.
    pub committed: Vec<u32>,
    /// A terminator ends the turn.
    pub hit_eos: bool,
    /// The verify forward has left the recurrent state ahead of what is kept:
    /// restore it and replay the kept rows.
    pub repair: bool,
}

/// Tokens kept under the commit budget alone: at least one.
pub open spec fn kept_by_budget(accepted: Seq<u32>, commit_budget: usize) -> int {
    least(accepted.len() as int, greatest(commit_budget as int, 1))
}

/// The first auxiliary terminator among the kept tokens, the last one aside.
pub open spec fn first_aux(accepted: Seq<u32>, aux: Option<u32>, keep: int, i: int) -> bool {
    &&& 0 <= i < keep - 1
    &&& aux == Some(accepted[i])
    &&& forall|j: int| 0 <= j < i ==> aux != Some(#[trigger] accepted[j])
}

/// `r` is what is kept of the accepted tokens: those within the budget, and
/// nothing past an auxiliary terminator among them.
pub open spec fn is_accept_plan(
    accepted: Seq<u32>,
    accepted_eos: bool,
    commit_budget: usize,
    aux: Option<u32>,
    block_size: usize,
    r: AcceptPlan,
) -> bool {
    let keep = kept_by_budget(accepted, commit_budget);
    let cut = exists|i: int| #[trigger] first_aux(accepted, aux, keep, i);
    &&& cut ==> r.hit_eos && exists|i: int| #[trigger]
        first_aux(accepted, aux, keep, i) && r.committed@ == accepted.take(i + 1)
    &&& !cut ==> r.hit_eos == accepted_eos && r.committed@ == accepted.take(keep)
    &&& r.repair == !(r.committed@.len() == block_size && !r.hit_eos)
}

/// Cuts the greedily accepted tokens to what can be committed: the budget, and
/// nothing past an auxiliary terminator inside it.
pub fn plan_accept(
    accepted: Vec<u32>,
    accepted_eos: bool,
    commit_budget: usize,
    aux_eot_id: Option<u32>,
    block_size: usize,
) -> (r: AcceptPlan)
    ensures
        is_accept_plan(accepted@, accepted_eos, commit_budget, aux_eot_id, block_size, r),
{
    let budget: usize = if commit_budget >= 1 {
        commit_budget
    } else {
        1
    };
    let keep: usize = if accepted.len() <= budget {
        accepted.len()
    } else {
        budget
    };
    let ghost all = accepted@;
    let mut out: Vec<u32> = accepted;
    let mut i: usize = 0;
    let last: usize = if keep > 0 {
        keep - 1
    } else {
        0
    };
    while i < last
        invariant
            i <= last,
            keep > 0 ==> last == keep - 1,
            keep == 0 ==> last == 0,
            keep <= out@.len(),
            out@ == all,
            all == accepted@,
            keep == kept_by_budget(all, commit_budget),
            forall|j: int| 0 <= j < i ==> aux_eot_id != Some(#[trigger] all[j]),
        decreases last - i,
    {
        let aux: bool = match aux_eot_id {
            Some(t) => out[i] == t,
            None => false,
        };
        if aux {
            out.truncate(i + 1);
            assert(first_aux(all, aux_eot_id, keep as int, i as int));
            return AcceptPlan { committed: out, hit_eos: true, repair: true };
        }
        i = i + 1;
    }
    proof {
        assert forall|k: int| !#[trigger] first_aux(all, aux_eot_id, keep as int, k) by {
            if 0 <= k < keep - 1 {
                assert(aux_eot_id != Some(all[k]));
            }
        }
    }
    out.truncate(keep);
    let full: bool = out.len() == block_size && !accepted_eos;
    AcceptPlan { committed: out, hit_eos: accepted_eos, repair: !full }
}

/// What is committed is a nonempty prefix of what was accepted and stays within
/// the budget, unless nothing was accepted.
pub proof fn law_commit_is_a_bounded_prefix(
    accepted: Seq<u32>,
    aux: Option<u32>,
    commit_budget: usize,
    i: int,
)
    requires
        accepted.len() > 0,
    ensures
        ({
            let keep = kept_by_budget(accepted, commit_budget);
            &&& 1 <= keep <= greatest(commit_budget as int, 1)
            &&& keep <= accepted.len()
            &&& first_aux(accepted, aux, keep, i) ==> 1 <= i + 1 < keep
        }),
{
}

// ---- Hidden rows ----

/// One row copy from a layer's staging to the interleaved context: element
/// offsets of the source and the destination.
#[derive(Debug, Clone, Copy, PartialEq, Eq, Structural)]
pub struct RowCopy {
    pub layer: usize,
    pub src: usize,
    pub dst: usize,
}

/// Ring row of absolute position `pos`; `None` is a context without a ring.
pub open spec fn ring_row(pos: int, modulus: Option<usize>) -> int {
    match modulus {
        Some(m) => pos % (m as int),
        None => pos,
    }
}

/// The copy of row `r` of layer `i`.
pub open spec fn row_copy(
    i: int,
    r: int,
    row_off: int,
    pos: int,
    hidden: int,
    n_layers: int,
    modulus: Option<usize>,
) -> RowCopy {
    RowCopy {
        layer: i as usize,
        src: ((row_off + r) * hidden) as usize,
        dst: (ring_row(pos + r, modulus) * n_layers * hidden + i * hidden) as usize,
    }
}

/// The copies of `n` rows, layer by layer and row by row.
pub open spec fn all_row_copies(
    n_layers: int,
    hidden: int,
    modulus: Option<usize>,
    row_off: int,
    pos: int,
    n: int,
) -> Seq<RowCopy> {
    Seq::new(
        (n_layers * n) as nat,
        |c: int| row_copy(c / n, c % n, row_off, pos, hidden, n_layers, modulus),
    )
}

/// Plans the copies that move `n` captured rows of every layer into the
/// interleaved context at position `pos`, layer by layer and row by row.
pub fn scatter_staging_rows_to_interleaved(
    n_layers: usize,
    hidden: usize,
    modulus: Option<usize>,
    row_off: usize,
    pos: usize,
    n: usize,
) -> (r: Vec<RowCopy>)
    requires
        modulus is Some ==> modulus->Some_0 > 0,
        n_layers * n <= usize::MAX,
        row_off + n <= usize::MAX,
        (row_off + n) * hidden <= usize::MAX,
        pos + n <= usize::MAX,
        forall|q: int|
            pos <= q < pos + n ==> (#[trigger] ring_row(q, modulus) + 1) * n_layers <= usize::MAX
                && (ring_row(q, modulus) + 1) * n_layers * hidden <= usize::MAX,
    ensures
        r@ == all_row_copies(
            n_layers as int,
            hidden as int,
            modulus,
            row_off as int,
            pos as int,
            n as int,
        ),
{
    let ghost f = |c: int|
        row_copy(
            c / (n as int),
            c % (n as int),
            row_off as int,
            pos as int,
            hidden as int,
            n_layers as int,
            modulus,
        );
    let mut out: Vec<RowCopy> = Vec::new();
    let mut i: usize = 0;
    assert(0 * n == 0) by (nonlinear_arith);
    while i < n_layers
        invariant
            i <= n_layers,
            modulus is Some ==> modulus->Some_0 > 0,
            row_off + n <= usize::MAX,
            (row_off + n) * hidden <= usize::MAX,
            pos + n <= usize::MAX,
            forall|q: int|
                pos <= q < pos + n ==> (#[trigger] ring_row(q, modulus) + 1) * n_layers
                    <= usize::MAX && (ring_row(q, modulus) + 1) * n_layers * hidden <= usize::MAX,
            forall|c: int|
                #[trigger] f(c) == row_copy(
                    c / (n as int),
                    c % (n as int),
                    row_off as int,
                    pos as int,
                    hidden as int,
                    n_layers as int,
                    modulus,
                ),
            out@ == Seq::new((i * n) as nat, f),
        decreases n_layers - i,
    {
        let mut r: usize = 0;
        while r < n
            invariant
                i < n_layers,
                r <= n,
                modulus is Some ==> modulus->Some_0 > 0,
                row_off + n <= usize::MAX,
                (row_off + n) * hidden <= usize::MAX,
                pos + n <= usize::MAX,
                forall|q: int|
                    pos <= q < pos + n ==> (#[trigger] ring_row(q, modulus) + 1) * n_layers
                        <= usize::MAX && (ring_row(q, modulus) + 1) * n_layers * hidden
                        <= usize::MAX,
                forall|c: int|
                    #[trigger] f(c) == row_copy(
                        c / (n as int),
                        c % (n as int),
                        row_off as int,
                        pos as int,
                        hidden as int,
                        n_layers as int,
                        modulus,
                    ),
                out@ == Seq::new((i * n + r) as nat, f),
            decreases n - r,
        {
            let abs: usize = pos + r;
            let row: usize = match modulus {
                Some(m) => abs % m,
                None => abs,
            };
            proof {
                let ring = ring_row(abs as int, modulus);
                assert(ring == row);
                lemma_offsets_fit(
                    row as int,
                    n_layers as int,
                    hidden as int,
                    i as int,
                    row_off as int,
                    r as int,
                    n as int,
                );
                lemma_split(i as int, r as int, n as int);
                assert(f(i * n + r) == row_copy(
                    i as int,
                    r as int,
                    row_off as int,
                    pos as int,
                    hidden as int,
                    n_layers as int,
                    modulus,
                ));
            }
            let src: usize = (row_off + r) * hidden;
            let plane: usize = i * hidden;
            let dst: usize = row * n_layers * hidden + plane;
            out.push(RowCopy { layer: i, src, dst });
            r = r + 1;
            assert(out@ =~= Seq::new((i * n + r) as nat, f));
        }
        assert(i * n + n == (i + 1) * n) by (nonlinear_arith);
        i = i + 1;
    }
    assert(out@ =~= all_row_copies(
        n_layers as int,
        hidden as int,
        modulus,
        row_off as int,
        pos as int,
        n as int,
    ));
    out
}

proof fn lemma_split(i: int, r: int, n: int)
    requires
        0 <= i,
        0 <= r < n,
    ensures
        (i * n + r) / n == i,
        (i * n + r) % n == r,
        i * n + r >= 0,
{
    assert(i * n >= 0) by (nonlinear_arith)
        requires
            i >= 0,
            n > 0,
    ;
    vstd::arithmetic::div_mod::lemma_fundamental_div_mod_converse(i * n + r, n, i, r);
}

proof fn lemma_offsets_fit(
    row: int,
    n_layers: int,
    hidden: int,
    i: int,
    row_off: int,
    r: int,
    n: int,
)
    requires
        0 <= row,
        0 <= i < n_layers,
        0 <= hidden,
        0 <= row_off,
        0 <= r < n,
        (row + 1) * n_layers <= usize::MAX,
        (row + 1) * n_layers * hidden <= usize::MAX,
        (row_off + n) * hidden <= usize::MAX,
    ensures
        0 <= row * n_layers <= usize::MAX,
        0 <= row * n_layers * hidden,
        0 <= i * hidden,
        row * n_layers * hidden + i * hidden <= usize::MAX,
        0 <= (row_off + r) * hidden <= usize::MAX,
{
    assert((row_off + r) * hidden <= (row_off + n) * hidden) by (nonlinear_arith)
        requires
            r < n,
            0 <= hidden,
    ;
    assert(0 <= (row_off + r) * hidden) by (nonlinear_arith)
        requires
            0 <= row_off,
            0 <= r,
            0 <= hidden,
    ;
    assert(0 <= row * n_layers) by (nonlinear_arith)
        requires
            0 <= row,
            0 < n_layers,
    ;
    assert(0 <= i * hidden <= n_layers * hidden) by (nonlinear_arith)
        requires
            0 <= i < n_layers,
            0 <= hidden,
    ;
    let base = row * n_layers;
    assert((row + 1) * n_layers == base + n_layers) by (nonlinear_arith)
        requires
            base == row * n_layers,
    ;
    assert((base + n_layers) * hidden == base * hidden + n_layers * hidden) by (nonlinear_arith);
    assert(0 <= base * hidden) by (nonlinear_arith)
        requires
            0 <= base,
            0 <= hidden,
    ;
}

/// Rows of one scatter never overwrite each other in the ring, as long as they
/// are no more than the ring holds.
pub proof fn law_scattered_rows_are_distinct(pos: int, a: int, b: int, m: int)
    requires
        0 <= pos,
        0 <= a < b < m,
    ensures
        (pos + a) % m != (pos + b) % m,
{
    if (pos + a) % m == (pos + b) % m {
        vstd::arithmetic::div_mod::lemma_fundamental_div_mod(pos + a, m);
        vstd::arithmetic::div_mod::lemma_fundamental_div_mod(pos + b, m);
        let qa = (pos + a) / m;
        let qb = (pos + b) / m;
        assert(b - a == m * qb - m * qa);
        assert(m * qb - m * qa == m * (qb - qa)) by (nonlinear_arith);
        let d = qb - qa;
        assert(d == 0 || m * d >= m || m * d <= -m) by (nonlinear_arith)
            requires
                m > 0,
        ;
    }
}

// ---- The draft model ----

/// What a draft model says of itself.
#[derive(Debug, Clone)]
pub struct DraftModel {
    pub has_candidate_selector: bool,
    /// The window it was trained with, if it was trained with one.
    pub declared_window: Option<usize>,
    pub all_layers_sliding: bool,
    /// The target's layers that it taps.
    pub target_layer_ids: Vec<usize>,
    /// Rows of a block at run time.
    pub block_size: usize,
    pub hidden: usize,
    pub mask_token_id: u32,
}

/// The draft model as all slots share it.
#[derive(Debug, Clone, Copy, PartialEq, Eq, Structural)]
pub struct DflashShared {
    pub block_size: usize,
    pub window: Option<usize>,
    /// Rows of each slot's draft context.
    pub ctx_capacity: usize,
    /// Tapped layers; each has a staging buffer.
    pub n_extract: usize,
    pub hidden: usize,
    pub mask_token_id: u32,
    /// Rows of each staging buffer: those of one step.
    pub staging_rows: usize,
}

/// Loads a draft model for the slots: sizes its context and refuses a model
/// that the slot path cannot run.
pub fn load_dflash_shared(
    draft: &DraftModel,
    window_setting: Option<&str>,
    cap_setting: Option<&str>,
    n_layers: usize,
    requested_ctx: usize,
    max_batch: usize,
) -> (r: Result<DflashShared, String>)
    ensures
        match r {
            Ok(s) => {
                let chosen = chosen_window(str_view(window_setting), draft.declared_window);
                &&& draft.has_candidate_selector
                &&& forall|k: int|
                    0 <= k < draft.target_layer_ids@.len() ==> #[trigger]
                        draft.target_layer_ids@[k] < n_layers
                &&& match s.window {
                    Some(w) => draft.all_layers_sliding && chosen == Some(w as int),
                    None => !draft.all_layers_sliding || chosen is None,
                }
                &&& s.ctx_capacity == ctx_rows(s.window, str_view(cap_setting), requested_ctx)
                &&& s.block_size == draft.block_size
                &&& s.n_extract == draft.target_layer_ids@.len()
                &&& s.hidden == draft.hidden
                &&& s.mask_token_id == draft.mask_token_id
                &&& s.staging_rows == max_batch
            },
            Err(e) => is_draft_refusal(
                draft.has_candidate_selector,
                draft.target_layer_ids@,
                n_layers,
                e@,
            ),
        },
{
    let window: Option<usize> = resolve_window(
        window_setting,
        draft.declared_window,
        draft.all_layers_sliding,
    );
    let ctx_capacity: usize = resolve_ctx_capacity(window, cap_setting, requested_ctx);
    match check_draft(
        draft.has_candidate_selector,
        draft.target_layer_ids.as_slice(),
        n_layers,
    ) {
        Ok(_) => Ok(
            DflashShared {
                block_size: draft.block_size,
                window,
                ctx_capacity,
                n_extract: draft.target_layer_ids.len(),
                hidden: draft.hidden,
                mask_token_id: draft.mask_token_id,
                staging_rows: max_batch,
            },
        ),
        Err(e) => Err(e),
    }
}

// ---- One slot ----

/// One cycle's draft: the rows to verify.
#[derive(Debug, Clone)]
pub struct DflashSlotDraft {
    /// The seed, then the proposed tokens.
    pub verify_tokens: Vec<u32>,
    /// Position of the seed's row.
    pub cur_pos: usize,
}

impl DflashSlotDraft {
    /// Rows that the draft adds to the step.
    pub fn n_verify(&self) -> (r: usize)
        ensures
            r == self.verify_tokens@.len(),
    {
        self.verify_tokens.len()
    }
}

/// Which session a slot's draft context belongs to, and how far it is seeded.
#[derive(Debug, Clone)]
pub struct DflashSlotState {
    /// `None` for a context that was never seeded.
    pub session: Option<u64>,
    /// Rows that are seeded or committed.
    pub seeded_through: usize,
    /// The draft between its forward and its verification.
    pub draft: Option<DflashSlotDraft>,
}

/// The state of a slot that has not drafted yet.
pub fn new_dflash_slot_state() -> (r: DflashSlotState)
    ensures
        r.session is None,
        r.seeded_through == 0,
        r.draft is None,
{
    DflashSlotState { session: None, seeded_through: 0, draft: None }
}

/// Prepares the context for a slot's new occupant: the next prefill seeds it
/// from row 0.
pub fn reset_dflash_slot(st: &mut DflashSlotState, session: u64)
    ensures
        final(st).session == Some(session),
        final(st).seeded_through == 0,
        final(st).draft is None,
{
    st.session = Some(session);
    st.seeded_through = 0;
    st.draft = None;
}

/// How the block's embeddings are looked up.
#[derive(Debug, Clone, Copy, PartialEq, Eq, Structural)]
pub enum NoiseEmbedding {
    /// In one launch.
    Fused,
    /// Row by row.
    PerRow,
}

/// Chooses how the block's embeddings are looked up.
pub fn noise_embedding(fused: bool, format: EmbeddingFormat) -> (r: Result<
    NoiseEmbedding,
    &'static str,
>)
    ensures
        r is Err <==> !fused && format == EmbeddingFormat::Q4K,
        r is Err ==> r->Err_0@
            == "dflash slot: unsupported target embedding format for noise lookup"@,
        r is Ok ==> r->Ok_0 == if fused {
            NoiseEmbedding::Fused
        } else {
            NoiseEmbedding::PerRow
        },
{
    if fused {
        return Ok(NoiseEmbedding::Fused);
    }
    match format {
        EmbeddingFormat::Q4K => Err(
            "dflash slot: unsupported target embedding format for noise lookup",
        ),
        _ => Ok(NoiseEmbedding::PerRow),
    }
}

/// What a draft forward is fed.
pub struct DraftForward {
    pub block: Vec<u32>,
    pub positions: DraftPositions,
}

/// Prepares the draft forward from the seed at committed length `position`,
/// over the positions of the committed context rows. The recurrent state is to
/// be saved first, for a verification that keeps less than the whole block.
pub fn dflash_slot_draft_step(
    shared: &DflashShared,
    seed: u32,
    position: usize,
    committed: &[i32],
) -> (r: DraftForward)
    requires
        shared.block_size > 0,
        position + shared.block_size <= i32::MAX,
    ensures
        r.block@ == Seq::new(
            shared.block_size as nat,
            |i: int|
                if i == 0 {
                    seed
                } else {
                    shared.mask_token_id
                },
        ),
        r.positions.ctx_len == least(committed@.len() as int, position as int),
        r.positions.q@ == block_positions(position as int, shared.block_size as nat),
        r.positions.k@ == committed@.skip(committed@.len() - r.positions.ctx_len)
            + block_positions(position as int, shared.block_size as nat),
{
    DraftForward {
        block: draft_block(seed, shared.mask_token_id, shared.block_size),
        positions: draft_positions(committed, position, shared.block_size),
    }
}

/// The draft that the proposed tokens make.
pub fn draft_from_proposal(
    shared: &DflashShared,
    seed: u32,
    position: usize,
    proposal: &[u32],
) -> (r: DflashSlotDraft)
    requires
        shared.block_size > 0,
    ensures
        r.verify_tokens@ == seq![seed] + proposal@.take(
            least(shared.block_size - 1, proposal@.len() as int),
        ),
        r.cur_pos == position,
{
    DflashSlotDraft {
        verify_tokens: verify_row_tokens(seed, proposal, shared.block_size),
        cur_pos: position,
    }
}

/// Where a slot's verified rows are and where they go.
#[derive(Debug, Clone, Copy, PartialEq, Eq, Structural)]
pub struct VerifiedRows {
    /// Position of the first row.
    pub pos: usize,
    /// The slot's first row in the step.
    pub row_off: usize,
    /// Rows of the context ring; `None` for a context without one.
    pub modulus: Option<usize>,
}

/// What is done with a verified block.
pub struct VerifyOutcome {
    pub accept: AcceptPlan,
    /// The row copies that commit the kept rows to the context.
    pub copies: Vec<RowCopy>,
}

/// The copies of `n` rows fit machine words.
pub open spec fn copies_fit(shared: DflashShared, rows: VerifiedRows, n: int) -> bool {
    &&& rows.modulus is Some ==> rows.modulus->Some_0 > 0
    &&& shared.n_extract * n <= usize::MAX
    &&& rows.row_off + n <= usize::MAX
    &&& (rows.row_off + n) * shared.hidden <= usize::MAX
    &&& rows.pos + n <= usize::MAX
    &&& forall|q: int|
        rows.pos <= q < rows.pos + n ==> (#[trigger] ring_row(q, rows.modulus) + 1)
            * shared.n_extract <= usize::MAX && (ring_row(q, rows.modulus) + 1)
            * shared.n_extract * shared.hidden <= usize::MAX
}

/// Takes a verified block in. `accepted` is what the target's own picks let
/// stand of the draft, the bonus token last, and `accepted_eos` whether they
/// end the turn. The kept rows are committed to the slot's context; anything
/// less than the whole block calls for a repair of the recurrent state.
pub fn dflash_slot_verify_accept(
    shared: &DflashShared,
    st: &mut DflashSlotState,
    draft: &mut DflashSlotDraft,
    rows: VerifiedRows,
    accepted: Vec<u32>,
    accepted_eos: bool,
    commit_budget: usize,
    aux_eot_id: Option<u32>,
) -> (r: VerifyOutcome)
    requires
        copies_fit(*shared, rows, accepted@.len() as int),
    ensures
        is_accept_plan(
            accepted@,
            accepted_eos,
            commit_budget,
            aux_eot_id,
            shared.block_size,
            r.accept,
        ),
        r.copies@ == all_row_copies(
            shared.n_extract as int,
            shared.hidden as int,
            rows.modulus,
            rows.row_off as int,
            rows.pos as int,
            r.accept.committed@.len() as int,
        ),
        final(st).seeded_through == rows.pos + r.accept.committed@.len(),
        final(st).session == old(st).session,
        final(st).draft == old(st).draft,
        final(draft).verify_tokens@.len() == 0,
        final(draft).cur_pos == old(draft).cur_pos,
{
    let ghost m = accepted@.len() as int;
    let accept: AcceptPlan = plan_accept(
        accepted,
        accepted_eos,
        commit_budget,
        aux_eot_id,
        shared.block_size,
    );
    let n: usize = accept.committed.len();
    proof {
        let h = shared.hidden as int;
        assert(n <= m);
        assert(shared.n_extract * n <= shared.n_extract * m) by (nonlinear_arith)
            requires
                0 <= n <= m,
                0 <= shared.n_extract,
        ;
        assert((rows.row_off + n) * h <= (rows.row_off + m) * h) by (nonlinear_arith)
            requires
                0 <= n <= m,
                0 <= h,
        ;
    }
    let copies: Vec<RowCopy> = scatter_staging_rows_to_interleaved(
        shared.n_extract,
        shared.hidden,
        rows.modulus,
        rows.row_off,
        rows.pos,
        n,
    );
    st.seeded_through = rows.pos + n;
    draft.verify_tokens.clear();
    VerifyOutcome { accept, copies }
}

// ---- Laws of draft contexts and accepted blocks ----

/// The developer setting decides the window where it is a number, with 0 for
/// none; without one the draft's own declaration stands.
pub proof fn law_settings_decide_the_window(n: usize, declared: Option<usize>)
    ensures
        chosen_window(None, declared) == match declared {
            Some(w) => Some(w as int),
            None => None::<int>,
        },
        n > 0 ==> chosen_window(Some(decimal_text(n as int)), declared) == Some(n as int),
        n == 0 ==> chosen_window(Some(decimal_text(n as int)), declared) is None,
{
    crate::text::law_decimals_read_back(n as int, n as int);
}

/// A draft context has as many rows as are asked for, up to the cap: the window
/// where there is one, else the setting's, else 8192, and a setting of 0 lifts it.
pub proof fn law_contexts_are_capped(window: Option<usize>, cap: usize, requested: usize)
    ensures
        window is Some ==> ctx_rows(window, None, requested) == window->Some_0,
        window is None ==> ctx_rows(window, None, requested) <= requested && ctx_rows(
            window,
            None,
            requested,
        ) <= 8192 && (ctx_rows(window, None, requested) == requested || ctx_rows(
            window,
            None,
            requested,
        ) == 8192),
        window is None && cap == 0 ==> ctx_rows(window, Some(decimal_text(cap as int)), requested)
            == requested,
        window is None && cap > 0 ==> {
            let rows = ctx_rows(window, Some(decimal_text(cap as int)), requested);
            rows <= cap && rows <= requested && (rows == cap || rows == requested)
        },
{
    crate::text::law_decimals_read_back(cap as int, cap as int);
}

/// What is committed of an accepted block is as long as it can be: a front part
/// of it, all of it where the budget covers it and no auxiliary terminator stands
/// inside, the budget's length where it does not, and up to the terminator where
/// one does. Short of a whole block that goes on, the state is repaired.
pub proof fn law_blocks_are_committed_as_far_as_they_go(
    accepted: Seq<u32>,
    accepted_eos: bool,
    commit_budget: usize,
    aux: Option<u32>,
    block_size: usize,
    r: AcceptPlan,
    i: int,
)
    requires
        is_accept_plan(accepted, accepted_eos, commit_budget, aux, block_size, r),
        accepted.len() > 0,
    ensures
        0 < r.committed@.len() <= accepted.len(),
        r.committed@.len() <= commit_budget || r.committed@.len() == 1,
        0 <= i < r.committed@.len() ==> r.committed@[i] == accepted[i],
        0 <= i < r.committed@.len() - 1 ==> aux != Some(accepted[i]),
        (aux is None || forall|k: int|
            0 <= k < accepted.len() ==> #[trigger] accepted[k] != aux->Some_0) ==> r.hit_eos
            == accepted_eos && (r.committed@.len() == accepted.len() || r.committed@.len()
            == commit_budget || (commit_budget == 0 && r.committed@.len() == 1)),
        r.committed@.len() < accepted.len() && r.committed@.len() < commit_budget ==> r.hit_eos
            && aux == Some(r.committed@.last()),
        r.repair <==> r.hit_eos || r.committed@.len() != block_size,
{
    let keep = kept_by_budget(accepted, commit_budget);
    if exists|i: int| #[trigger] first_aux(accepted, aux, keep, i) {
        let k = choose|i: int| #[trigger]
            first_aux(accepted, aux, keep, i) && r.committed@ == accepted.take(i + 1);
        assert(first_aux(accepted, aux, keep, k));
        assert(accepted[k] == aux->Some_0);
    } else if 0 <= i < r.committed@.len() - 1 && aux == Some(accepted[i]) {
        lemma_first_aux(accepted, aux, keep, i);
    }
}

proof fn lemma_first_aux(accepted: Seq<u32>, aux: Option<u32>, keep: int, i: int)
    requires
        0 <= i < keep - 1,
        keep <= accepted.len(),
        aux == Some(accepted[i]),
    ensures
        exists|k: int| #[trigger] first_aux(accepted, aux, keep, k),
    decreases i,
{
    if exists|j: int| 0 <= j < i && aux == Some(#[trigger] accepted[j]) {
        let j = choose|j: int| 0 <= j < i && aux == Some(#[trigger] accepted[j]);
        lemma_first_aux(accepted, aux, keep, j);
    } else {
        assert(first_aux(accepted, aux, keep, i));
    }
}

/// A block's positions count up from the committed length.
pub proof fn law_block_positions_count_up(position: int, block_size: nat, i: int)
    requires
        0 <= position,
        position + block_size <= i32::MAX,
        0 <= i < block_size,
    ensures
        block_positions(position, block_size).len() == block_size,
        block_positions(position, block_size)[i] == position + i,
{
}

/// Every captured row of every layer is copied once, to its own place: row `r` of
/// layer `i` comes from staging row `row_off + r` and goes to the layer's part of
/// the context row of its position.
pub proof fn law_every_row_of_every_layer_is_copied(
    n_layers: int,
    hidden: int,
    row_off: int,
    pos: int,
    n: int,
    i: int,
    r: int,
)
    requires
        0 <= i < n_layers,
        0 <= r < n,
        0 <= hidden,
        0 <= row_off,
        0 <= pos,
        n_layers <= usize::MAX,
        (row_off + r) * hidden <= usize::MAX,
        0 <= (pos + r) * n_layers * hidden + i * hidden <= usize::MAX,
    ensures
        ({
            let copies = all_row_copies(n_layers, hidden, None, row_off, pos, n);
            let c = i * n + r;
            &&& copies.len() == n_layers * n
            &&& 0 <= c < copies.len()
            &&& copies[c].layer == i
            &&& copies[c].src == (row_off + r) * hidden
            &&& copies[c].dst == (pos + r) * n_layers * hidden + i * hidden
        }),
{
    assert(0 <= i * n + r < n_layers * n) by (nonlinear_arith)
        requires
            0 <= i < n_layers,
            0 <= r < n,
    ;
    vstd::arithmetic::div_mod::lemma_fundamental_div_mod_converse(i * n + r, n, i, r);
    assert(0 <= (row_off + r) * hidden) by (nonlinear_arith)
        requires
            0 <= row_off,
            0 <= r,
            0 <= hidden,
    ;
}

/// In a ring, a row goes where its position comes round to, within the ring.
pub proof fn law_ring_rows_come_round(pos: int, m: usize)
    requires
        0 <= pos,
        m > 0,
    ensures
        0 <= ring_row(pos, Some(m)) < m,
        ring_row(pos + m, Some(m)) == ring_row(pos, Some(m)),
        pos < m ==> ring_row(pos, Some(m)) == pos,
        ring_row(pos, None) == pos,
{
    vstd::arithmetic::div_mod::lemma_mod_add_multiples_vanish(pos, m as int);
    vstd::arithmetic::div_mod::lemma_mod_bound(pos, m as int);
    if pos < m {
        vstd::arithmetic::div_mod::lemma_small_mod(pos as nat, m as nat);
    }
}

/// The first draft tap outside the target is what a draft is refused for.
pub proof fn law_bad_taps_are_named(ids: Seq<usize>, n_layers: usize, k: int, text: Seq<char>)
    requires
        0 <= k < ids.len(),
        ids[k] >= n_layers,
        forall|j: int| 0 <= j < k ==> #[trigger] ids[j] < n_layers,
        is_draft_refusal(true, ids, n_layers, text),
    ensures
        text == "draft target_layer_ids contains "@ + decimal_text(ids[k] as int)
            + " >= num_target_layers "@ + decimal_text(n_layers as int),
{
    let x = choose|x: int| #[trigger]
        first_bad_layer(ids, n_layers, x) && text == "draft target_layer_ids contains "@
            + decimal_text(ids[x] as int) + " >= num_target_layers "@ + decimal_text(
            n_layers as int,
        );
    if x < k {
        assert(ids[x] < n_layers);
    }
    if k < x {
        assert(ids[k] < n_layers);
    }
}

} // verus!
