//! Token masks of grammar-constrained requests.
//!
//! The mask takes part before any probability-dependent filtering, so nothing
//! later can bring a forbidden token back. An empty allowed set is an error of
//! the request, never a fall-back to unconstrained sampling.

use vstd::prelude::*;
use vstd::string::StringExecFns;

verus! {

/// Why a constrained request cannot go on.
#[derive(Debug, Clone, Copy, PartialEq, Eq, Structural)]
pub enum GrammarMaskError {
    /// No token can be emitted without violating the grammar.
    EmptyAllowedSet,
    /// The generated text is incomplete and cannot be completed.
    Unsatisfiable,
}

impl GrammarMaskError {
    /// The error as text.
    pub fn message(&self) -> (r: String)
        ensures
            r@ == match *self {
                GrammarMaskError::EmptyAllowedSet =>
                    "grammar constraint allows no token (empty allowed set) — request cannot continue without violating the schema"@,
                GrammarMaskError::Unsatisfiable =>
                    "grammar constraint reached an unsatisfiable state — the schema cannot be satisfied from this position"@,
            },
    {
        match self {
            GrammarMaskError::EmptyAllowedSet => String::from_str(
                "grammar constraint allows no token (empty allowed set) — request cannot continue without violating the schema",
            ),
            GrammarMaskError::Unsatisfiable => String::from_str(
                "grammar constraint reached an unsatisfiable state — the schema cannot be satisfied from this position",
            ),
        }
    }
}

/// What the tokenizer and the grammar say of one token.
#[derive(Debug, Clone, Copy, PartialEq, Eq, Structural)]
pub struct TokenFacts {
    pub terminator: bool,
    /// The token stands for no bytes.
    pub empty: bool,
    /// The grammar can go on with the token's bytes.
    pub continues: bool,
}

/// Whether a token may be emitted: a terminator only in an accepting state, a
/// token without bytes never, any other as the grammar says.
pub open spec fn token_allowed(t: TokenFacts, accepting: bool) -> bool {
    if t.terminator {
        accepting
    } else {
        !t.empty && t.continues
    }
}

/// Builds the mask over the vocabulary in the current parser state.
pub fn build_mask(tokens: &[TokenFacts], accepting: bool) -> (r: Result<
    Vec<bool>,
    GrammarMaskError,
>)
    ensures
        match r {
            Ok(mask) => {
                &&& mask@ == Seq::new(
                    tokens@.len(),
                    |i: int| token_allowed(tokens@[i], accepting),
                )
                &&& exists|i: int| 0 <= i < tokens@.len() && #[trigger] mask@[i]
            },
            Err(e) => {
                &&& e == GrammarMaskError::EmptyAllowedSet
                &&& forall|i: int|
                    0 <= i < tokens@.len() ==> !token_allowed(#[trigger] tokens@[i], accepting)
            },
        },
{
    let mut mask: Vec<bool> = Vec::new();
    let mut any: bool = false;
    let mut i: usize = 0;
    while i < tokens.len()
        invariant
            i <= tokens@.len(),
            mask@ =~= Seq::new(i as nat, |i: int| token_allowed(tokens@[i], accepting)),
            any == (exists|j: int| 0 <= j < i && #[trigger] mask@[j]),
        decreases tokens@.len() - i,
    {
        let t: TokenFacts = tokens[i];
        let ok: bool = if t.terminator {
            accepting
        } else {
            !t.empty && t.continues
        };
        let ghost before = mask@;
        mask.push(ok);
        proof {
            if any {
                let j = choose|j: int| 0 <= j < i && #[trigger] before[j];
                assert(mask@[j]);
            }
            if ok {
                assert(mask@[i as int]);
            }
            if exists|j: int| 0 <= j < i + 1 && #[trigger] mask@[j] {
                let j = choose|j: int| 0 <= j < i + 1 && #[trigger] mask@[j];
                if j < i {
                    assert(before[j]);
                }
            }
        }
        any = any || ok;
        i = i + 1;
    }
    if any {
        Ok(mask)
    } else {
        proof {
            assert forall|i: int| 0 <= i < tokens@.len() implies !token_allowed(
                #[trigger] tokens@[i],
                accepting,
            ) by {
                assert(!mask@[i]);
            }
        }
        Err(GrammarMaskError::EmptyAllowedSet)
    }
}

/// A row of scores with the disallowed entries at the `floor`.
pub open spec fn masked_row<T>(row: Seq<T>, mask: Seq<bool>, floor: T) -> Seq<T> {
    Seq::new(
        row.len(),
        |i: int|
            if i < mask.len() && !mask[i] {
                floor
            } else {
                row[i]
            },
    )
}

/// Applies a mask to a row of scores: disallowed entries get the `floor`, the
/// others are left alone.
pub fn apply_mask<T: Copy>(row: &mut Vec<T>, mask: &[bool], floor: T)
    requires
        mask@.len() <= old(row)@.len(),
    ensures
        final(row)@ == masked_row(old(row)@, mask@, floor),
{
    let ghost row0 = row@;
    let mut i: usize = 0;
    while i < mask.len()
        invariant
            i <= mask@.len(),
            mask@.len() <= row0.len(),
            row@ =~= Seq::new(
                row0.len(),
                |j: int|
                    if j < i && !mask@[j] {
                        floor
                    } else {
                        row0[j]
                    },
            ),
        decreases mask@.len() - i,
    {
        if !mask[i] {
            row[i] = floor;
        }
        i = i + 1;
    }
    assert(row@ =~= masked_row(row0, mask@, floor));
}

/// A forbidden token cannot be picked: where every score lies above the floor
/// and some token is allowed, a highest entry of the masked row is an allowed
/// one, however high the forbidden ones were.
pub proof fn law_forbidden_tokens_are_never_picked(
    row: Seq<int>,
    mask: Seq<bool>,
    floor: int,
    pick: int,
)
    requires
        mask.len() == row.len(),
        forall|i: int| 0 <= i < row.len() ==> #[trigger] row[i] > floor,
        exists|i: int| 0 <= i < mask.len() && #[trigger] mask[i],
        0 <= pick < row.len(),
        forall|i: int|
            0 <= i < row.len() ==> #[trigger] masked_row(row, mask, floor)[i] <= masked_row(
                row,
                mask,
                floor,
            )[pick],
    ensures
        mask[pick],
{
    let a = choose|i: int| 0 <= i < mask.len() && #[trigger] mask[i];
    assert(row[a] > floor);
    assert(masked_row(row, mask, floor)[a] <= masked_row(row, mask, floor)[pick]);
}

/// A token may be emitted exactly where the grammar is served by it: a terminator
/// where the text is complete, any other where it has bytes that the grammar goes
/// on with.
pub proof fn law_tokens_are_allowed_by_the_grammar(t: TokenFacts, accepting: bool)
    ensures
        t.terminator && !accepting ==> !token_allowed(t, accepting),
        t.terminator && accepting ==> token_allowed(t, accepting),
        !t.terminator && t.continues && !t.empty ==> token_allowed(t, accepting),
        !t.terminator && (t.empty || !t.continues) ==> !token_allowed(t, accepting),
{
}

/// A mask changes forbidden scores to the floor and no others.
pub proof fn law_masks_touch_forbidden_scores_only<T>(
    row: Seq<T>,
    mask: Seq<bool>,
    floor: T,
    i: int,
)
    requires
        0 <= i < row.len(),
    ensures
        masked_row(row, mask, floor).len() == row.len(),
        i < mask.len() && !mask[i] ==> masked_row(row, mask, floor)[i] == floor,
        i < mask.len() && mask[i] ==> masked_row(row, mask, floor)[i] == row[i],
        i >= mask.len() ==> masked_row(row, mask, floor)[i] == row[i],
{
}

} // verus!
