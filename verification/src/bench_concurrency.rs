//! Concurrency sweep: how the stream counts are given and visited, what each
//! stream is asked, and how its frames are counted.
//!
//! Wall-clock figures are floating-point and belong to the caller; here are the
//! counts they are taken of and the order statistics over them.

use crate::json::{json_of, json_quoted, quote, read_string, read_u64};
use crate::text::{
    append_decimal, chars_of, decimal_text, join2, joined_texts, lemma_decimal_digits,
    lemma_decimal_nonempty, lemma_number_before_stop, lemma_pieces_occur, occurs, parse_u64,
    same_text, string_of, trim_range, trimmed, unsigned_value,
};
use serde_json::Value;
use vstd::prelude::*;
use vstd::string::StringExecFns;

verus! {

/// Which backend a sweep drives.
#[derive(Clone, Copy, PartialEq, Eq, Debug, Structural)]
pub enum BackendSel {
    /// The multi-slot engine: streams advance together.
    Slots,
    /// No slots: requests one after another. The baseline to beat.
    Sequential,
    /// Continuous batching.
    Batch,
    Both,
}

/// Which workload a sweep runs.
#[derive(Clone, Copy, PartialEq, Eq, Debug, Structural)]
pub enum WorkloadSel {
    Stateless,
    Multiturn,
    Both,
}

// ---- Stream counts ----

/// Why a list of stream counts is refused.
#[derive(Clone, PartialEq, Eq, Debug)]
pub enum ConcurrencyError {
    /// This part is no number.
    NotANumber(String),
    /// A count is 0.
    NotPositive,
    /// There is no count.
    NoValues,
}

/// A refusal as a mathematical value.
pub enum ConcurrencyFault {
    NotANumber(Seq<char>),
    NotPositive,
    NoValues,
}

impl View for ConcurrencyError {
    type V = ConcurrencyFault;

    open spec fn view(&self) -> ConcurrencyFault {
        match *self {
            ConcurrencyError::NotANumber(s) => ConcurrencyFault::NotANumber(s@),
            ConcurrencyError::NotPositive => ConcurrencyFault::NotPositive,
            ConcurrencyError::NoValues => ConcurrencyFault::NoValues,
        }
    }
}

impl ConcurrencyError {
    /// The refusal as text.
    pub fn message(&self) -> (r: String)
        ensures
            r@ == match self@ {
                ConcurrencyFault::NotANumber(s) => "--concurrency: not a number: "@ + s,
                ConcurrencyFault::NotPositive => "--concurrency values must be positive"@,
                ConcurrencyFault::NoValues => "--concurrency needs at least one value"@,
            },
    {
        match self {
            ConcurrencyError::NotANumber(s) => join2(
                "--concurrency: not a number: ",
                s.as_str(),
            ),
            ConcurrencyError::NotPositive => String::from_str(
                "--concurrency values must be positive",
            ),
            ConcurrencyError::NoValues => String::from_str(
                "--concurrency needs at least one value",
            ),
        }
    }
}

/// The parts of `s` between commas.
pub open spec fn comma_parts(s: Seq<char>) -> Seq<Seq<char>>
    decreases s.len(),
{
    if s.len() == 0 {
        seq![Seq::<char>::empty()]
    } else {
        let p = comma_parts(s.drop_last());
        if s.last() == ',' {
            p.push(Seq::empty())
        } else {
            p.drop_last().push(p.last().push(s.last()))
        }
    }
}

/// The counts that the parts denote, in order. A part of white space denotes
/// none; the first part that is no positive machine-word number is the fault.
pub open spec fn part_values(parts: Seq<Seq<char>>) -> Result<Seq<usize>, ConcurrencyFault>
    decreases parts.len(),
{
    if parts.len() == 0 {
        Ok(Seq::empty())
    } else {
        match part_values(parts.drop_last()) {
            Err(e) => Err(e),
            Ok(v) => {
                let t = trimmed(parts.last());
                if t.len() == 0 {
                    Ok(v)
                } else {
                    match unsigned_value(t) {
                        None => Err(ConcurrencyFault::NotANumber(t)),
                        Some(n) => if n > usize::MAX {
                            Err(ConcurrencyFault::NotANumber(t))
                        } else if n == 0 {
                            Err(ConcurrencyFault::NotPositive)
                        } else {
                            Ok(v.push(n as usize))
                        },
                    }
                }
            },
        }
    }
}

/// Each number is larger than the one before.
pub open spec fn ascending(v: Seq<usize>) -> bool {
    forall|i: int, j: int| 0 <= i < j < v.len() ==> v[i] < v[j]
}

/// Puts `n` in its place, unless it is there.
fn insert_sorted(v: &mut Vec<usize>, n: usize)
    requires
        ascending(old(v)@),
    ensures
        ascending(final(v)@),
        final(v)@.to_set() == old(v)@.to_set().insert(n),
{
    let ghost v0 = v@;
    let mut i: usize = 0;
    while i < v.len() && v[i] < n
        invariant
            i <= v@.len(),
            v@ == v0,
            ascending(v0),
            forall|j: int| 0 <= j < i ==> v0[j] < n,
        decreases v@.len() - i,
    {
        i = i + 1;
    }
    if i < v.len() && v[i] == n {
        proof {
            assert(v0.to_set().contains(n));
            assert(v0.to_set() =~= v0.to_set().insert(n));
        }
        return;
    }
    v.insert(i, n);
    proof {
        let w = v@;
        assert(w[i as int] == n);
        assert forall|a: int, b: int| 0 <= a < b < w.len() implies w[a] < w[b] by {
            if b < i {
            } else if b == i {
            } else if a == i {
                assert(w[b] == v0[b - 1]);
                assert(v0[i as int] > n);
                if b - 1 > i {
                    assert(v0[i as int] < v0[b - 1]);
                }
            } else {
                assert(w[b] == v0[b - 1]);
            }
        }
        assert forall|x: usize| #[trigger] w.to_set().contains(x) == v0.to_set().insert(
            n,
        ).contains(x) by {
            if v0.contains(x) {
                let k = choose|k: int| 0 <= k < v0.len() && v0[k] == x;
                if k < i {
                    assert(w[k] == x);
                } else {
                    assert(w[k + 1] == x);
                }
            }
            if w.contains(x) && x != n {
                let k = choose|k: int| 0 <= k < w.len() && w[k] == x;
                if k < i {
                    assert(v0[k] == x);
                } else {
                    assert(v0[k - 1] == x);
                }
            }
        }
        assert(w.to_set() =~= v0.to_set().insert(n));
    }
}

proof fn lemma_set_push(s: Seq<usize>, n: usize)
    ensures
        s.push(n).to_set() == s.to_set().insert(n),
{
    let t = s.push(n);
    assert(t[s.len() as int] == n);
    assert forall|x: usize| #[trigger] t.to_set().contains(x) == s.to_set().insert(n).contains(
        x,
    ) by {
        if s.contains(x) {
            let k = choose|k: int| 0 <= k < s.len() && s[k] == x;
            assert(t[k] == x);
        }
        if t.contains(x) && x != n {
            let k = choose|k: int| 0 <= k < t.len() && t[k] == x;
            assert(s[k] == x);
        }
    }
    assert(t.to_set() =~= s.to_set().insert(n));
}

proof fn lemma_error_stays(parts: Seq<Seq<char>>, n: int)
    requires
        0 <= n <= parts.len(),
        part_values(parts.take(n)) is Err,
    ensures
        part_values(parts) == part_values(parts.take(n)),
    decreases parts.len() - n,
{
    if n < parts.len() {
        assert(parts.take(n + 1).drop_last() =~= parts.take(n));
        lemma_error_stays(parts, n + 1);
    } else {
        assert(parts.take(n) =~= parts);
    }
}

/// The parts seen so far are those of the whole, but for the last, which may
/// still grow.
proof fn lemma_parts_prefix(s: Seq<char>, i: int)
    requires
        0 <= i <= s.len(),
    ensures
        comma_parts(s.take(i)).len() >= 1,
        comma_parts(s.take(i)).len() <= comma_parts(s).len(),
        comma_parts(s.take(i)).drop_last() == comma_parts(s).take(
            comma_parts(s.take(i)).len() - 1,
        ),
    decreases s.len() - i,
{
    lemma_parts_nonempty(s.take(i));
    let p = comma_parts(s.take(i));
    if i < s.len() {
        lemma_parts_prefix(s, i + 1);
        assert(s.take(i + 1).drop_last() =~= s.take(i));
        let q = comma_parts(s.take(i + 1));
        if s[i] == ',' {
            assert(q.drop_last() =~= p);
            assert(p.drop_last() =~= comma_parts(s).take(p.len() - 1));
        } else {
            assert(q.drop_last() =~= p.drop_last());
        }
    } else {
        assert(s.take(i) =~= s);
        assert(p.drop_last() =~= p.take(p.len() - 1));
    }
}

proof fn lemma_parts_nonempty(s: Seq<char>)
    ensures
        comma_parts(s).len() >= 1,
    decreases s.len(),
{
    if s.len() > 0 {
        lemma_parts_nonempty(s.drop_last());
    }
}

/// One part of the list.
enum Part {
    Blank,
    Count(usize),
    Bad(ConcurrencyError),
}

fn read_part(chars: &Vec<char>, from: usize, to: usize) -> (r: Part)
    requires
        from <= to <= chars@.len(),
    ensures
        ({
            let t = trimmed(chars@.subrange(from as int, to as int));
            match r {
                Part::Blank => t.len() == 0,
                Part::Count(n) => t.len() > 0 && unsigned_value(t) == Some(n as int) && n > 0,
                Part::Bad(e) => t.len() > 0 && if unsigned_value(t) is Some && unsigned_value(
                    t,
                )->Some_0 <= usize::MAX {
                    unsigned_value(t)->Some_0 == 0 && e@ == ConcurrencyFault::NotPositive
                } else {
                    e@ == ConcurrencyFault::NotANumber(t)
                },
            }
        }),
{
    let (a, b): (usize, usize) = trim_range(chars, from, to);
    if a == b {
        return Part::Blank;
    }
    match parse_u64(chars, a, b) {
        Some(n) => {
            if n > usize::MAX as u64 {
                Part::Bad(ConcurrencyError::NotANumber(string_of(chars, a, b)))
            } else if n == 0 {
                Part::Bad(ConcurrencyError::NotPositive)
            } else {
                Part::Count(n as usize)
            }
        },
        None => Part::Bad(ConcurrencyError::NotANumber(string_of(chars, a, b))),
    }
}

/// Reads a list such as `1,2,3,4` into ascending distinct positive counts.
pub fn parse_concurrency(s: &str) -> (r: Result<Vec<usize>, ConcurrencyError>)
    ensures
        match (part_values(comma_parts(s@)), r) {
            (Err(f), Err(e)) => e@ == f,
            (Ok(v), Err(e)) => v.len() == 0 && e@ == ConcurrencyFault::NoValues,
            (Ok(v), Ok(out)) => v.len() > 0 && ascending(out@) && out@.to_set() == v.to_set(),
            (Err(_), Ok(_)) => false,
        },
{
    let chars: Vec<char> = chars_of(s);
    let ghost text = s@;
    let ghost parts = comma_parts(text);
    let mut out: Vec<usize> = Vec::new();
    let mut any: bool = false;
    let mut from: usize = 0;
    let mut i: usize = 0;
    let ghost mut seen = Seq::<usize>::empty();
    proof {
        assert(text.take(0) =~= Seq::empty());
        assert(out@.to_set() =~= seen.to_set());
        assert(text.subrange(0, 0) =~= Seq::empty());
        assert(comma_parts(text.take(0)).drop_last() =~= Seq::empty());
        assert(part_values(Seq::<Seq<char>>::empty()) == Ok::<Seq<usize>, ConcurrencyFault>(seen));
    }
    loop
        invariant
            i <= chars@.len(),
            from <= i,
            chars@ == text,
            text == s@,
            parts == comma_parts(text),
            comma_parts(text.take(i as int)).len() >= 1,
            comma_parts(text.take(i as int)).last() == text.subrange(from as int, i as int),
            part_values(comma_parts(text.take(i as int)).drop_last()) == Ok::<
                Seq<usize>,
                ConcurrencyFault,
            >(seen),
            ascending(out@),
            out@.to_set() == seen.to_set(),
            any == (seen.len() > 0),
        decreases chars@.len() - i,
    {
        let ghost here = comma_parts(text.take(i as int));
        let at_end: bool = i == chars.len();
        if at_end || chars[i] == ',' {
            proof {
                lemma_parts_prefix(text, i as int);
                let n = here.len() as int;
                if at_end {
                    assert(text.take(i as int) =~= text);
                    assert(parts.take(n) =~= here);
                } else {
                    lemma_parts_prefix(text, i + 1);
                    assert(text.take(i + 1).drop_last() =~= text.take(i as int));
                    assert(comma_parts(text.take(i + 1)) =~= here.push(Seq::empty()));
                    assert(here.push(Seq::<char>::empty()).drop_last() =~= here);
                    assert(parts.take(n) =~= here);
                }
            }
            match read_part(&chars, from, i) {
                Part::Blank => {},
                Part::Count(n) => {
                    insert_sorted(&mut out, n);
                    any = true;
                    proof {
                        lemma_set_push(seen, n);
                        seen = seen.push(n);
                    }
                },
                Part::Bad(e) => {
                    proof {
                        assert(part_values(here) == Err::<Seq<usize>, ConcurrencyFault>(e@));
                        lemma_error_stays(parts, here.len() as int);
                    }
                    return Err(e);
                },
            }
            assert(part_values(here) == Ok::<Seq<usize>, ConcurrencyFault>(seen));
            if at_end {
                assert(text.take(i as int) =~= text);
                if !any {
                    return Err(ConcurrencyError::NoValues);
                }
                return Ok(out);
            }
            from = i + 1;
            i = i + 1;
            proof {
                assert(text.take(i as int).drop_last() =~= text.take(i - 1));
                assert(comma_parts(text.take(i as int)) =~= here.push(Seq::empty()));
                assert(here.push(Seq::<char>::empty()).drop_last() =~= here);
                assert(text.subrange(i as int, i as int) =~= Seq::<char>::empty());
            }
        } else {
            proof {
                assert(text.take(i + 1).drop_last() =~= text.take(i as int));
                let next = comma_parts(text.take(i + 1));
                assert(next =~= here.drop_last().push(here.last().push(text[i as int])));
                assert(next.drop_last() =~= here.drop_last());
                assert(text.subrange(from as int, i + 1) =~= text.subrange(
                    from as int,
                    i as int,
                ).push(text[i as int]));
            }
            i = i + 1;
        }
    }
}

/// The stream counts in visiting order: all of them, once per run, never one of
/// them several times in a row. A blocked order would let a drift over the
/// sweep read as an effect of concurrency.
pub fn sweep_order(points: &[usize], runs: usize) -> (r: Vec<usize>)
    requires
        points@.len() * runs <= usize::MAX,
    ensures
        r@ == Seq::new(
            (points@.len() * runs) as nat,
            |i: int| points@[i % (points@.len() as int)],
        ),
{
    let n: usize = points.len();
    let mut out: Vec<usize> = Vec::new();
    let mut k: usize = 0;
    assert(n * 0 == 0) by (nonlinear_arith);
    while k < runs
        invariant
            k <= runs,
            n == points@.len(),
            out@ =~= Seq::new((n * k) as nat, |i: int| points@[i % (n as int)]),
        decreases runs - k,
    {
        let mut i: usize = 0;
        while i < n
            invariant
                i <= n,
                n == points@.len(),
                out@ =~= Seq::new((n * k + i) as nat, |i: int| points@[i % (n as int)]),
            decreases n - i,
        {
            proof {
                assert(n * k == k * n) by (nonlinear_arith);
                vstd::arithmetic::div_mod::lemma_fundamental_div_mod_converse(
                    n * k + i,
                    n as int,
                    k as int,
                    i as int,
                );
                assert(n * k >= 0) by (nonlinear_arith);
            }
            out.push(points[i]);
            i = i + 1;
        }
        assert(n * k + n == n * (k + 1)) by (nonlinear_arith);
        k = k + 1;
    }
    out
}

// ---- Order statistics ----

/// No number is smaller than one before it.
pub open spec fn sorted(v: Seq<i64>) -> bool {
    forall|i: int, j: int| 0 <= i <= j < v.len() ==> v[i] <= v[j]
}

/// The middle of a sorted list.
#[derive(Clone, Copy, PartialEq, Eq, Debug, Structural)]
pub enum Middle {
    /// The middle one of an odd number.
    One(i64),
    /// The middle two of an even number; the median is their mean.
    Two(i64, i64),
}

/// Sorts the keys in place and picks the middle. `None` when there are none.
/// The keys order the samples as their total order does.
pub fn median(keys: &mut Vec<i64>) -> (r: Option<Middle>)
    ensures
        sorted(final(keys)@),
        final(keys)@.to_multiset() == old(keys)@.to_multiset(),
        final(keys)@.len() == old(keys)@.len(),
        ({
            let v = final(keys)@;
            let mid = v.len() as int / 2;
            r == if v.len() == 0 {
                None
            } else if v.len() % 2 == 1 {
                Some(Middle::One(v[mid]))
            } else {
                Some(Middle::Two(v[mid - 1], v[mid]))
            }
        }),
{
    sort_keys(keys);
    let n: usize = keys.len();
    if n == 0 {
        return None;
    }
    let mid: usize = n / 2;
    if n % 2 == 1 {
        Some(Middle::One(keys[mid]))
    } else {
        Some(Middle::Two(keys[mid - 1], keys[mid]))
    }
}

fn sort_keys(v: &mut Vec<i64>)
    ensures
        sorted(final(v)@),
        final(v)@.to_multiset() == old(v)@.to_multiset(),
        final(v)@.len() == old(v)@.len(),
{
    let ghost v0 = v@;
    let mut i: usize = 0;
    let n: usize = v.len();
    while i < n
        invariant
            i <= n,
            n == v@.len(),
            n == v0.len(),
            v@.to_multiset() == v0.to_multiset(),
            sorted(v@.take(i as int)),
        decreases n - i,
    {
        let ghost before = v@;
        let x: i64 = v.remove(i);
        let mut j: usize = i;
        proof {
            before.to_multiset_ensures();
            assert(v@.take(i as int) =~= before.take(i as int));
        }
        while j > 0 && v[j - 1] > x
            invariant
                j <= i,
                i <= v@.len(),
                v@.len() == n - 1,
                v@ == before.remove(i as int),
                sorted(v@.take(i as int)),
                forall|k: int| j <= k < i ==> v@[k] > x,
            decreases j,
        {
            j = j - 1;
        }
        let ghost rest = v@;
        v.insert(j, x);
        proof {
            assert(rest == before.remove(i as int));
            lemma_remove_multiset(before, i as int);
            lemma_insert_multiset(rest, j as int, x);
            let w = v@.take(i + 1);
            assert forall|a: int, b: int| 0 <= a <= b < w.len() implies w[a] <= w[b] by {
                let t = rest.take(i as int);
                if a < j {
                    assert(w[a] == t[a]);
                    if b < j {
                        assert(w[b] == t[b]);
                    } else if b == j {
                        assert(t[a] <= t[j - 1]);
                    } else {
                        assert(w[b] == t[b - 1]);
                    }
                } else if a == j {
                    if b > j {
                        assert(w[b] == t[b - 1]);
                        assert(rest[b - 1] > x);
                    }
                } else {
                    assert(w[a] == t[a - 1]);
                    assert(w[b] == t[b - 1]);
                }
            }
        }
        i = i + 1;
    }
    assert(v@.take(i as int) =~= v@);
}

proof fn lemma_insert_multiset(s: Seq<i64>, j: int, x: i64)
    requires
        0 <= j <= s.len(),
    ensures
        s.insert(j, x).to_multiset() == s.to_multiset().insert(x),
{
    let a = s.take(j);
    let b = s.skip(j);
    assert(s.insert(j, x) =~= a.push(x) + b);
    assert(s =~= a + b);
    a.to_multiset_ensures();
    vstd::seq_lib::lemma_multiset_commutative(a.push(x), b);
    vstd::seq_lib::lemma_multiset_commutative(a, b);
    assert(s.insert(j, x).to_multiset() =~= s.to_multiset().insert(x));
}

proof fn lemma_remove_multiset(s: Seq<i64>, i: int)
    requires
        0 <= i < s.len(),
    ensures
        s.to_multiset() == s.remove(i).to_multiset().insert(s[i]),
{
    assert(s.remove(i).insert(i, s[i]) =~= s);
    lemma_insert_multiset(s.remove(i), i, s[i]);
}

// ---- Prompts and requests ----

/// Number of distinct prompts.
pub const N_STREAM_PROMPTS: usize = 8;

/// The fixed prompt of a stream. Distinct, so that slots cannot alias each
/// other's state undetected.
pub open spec fn prompt_text(i: int) -> Seq<char> {
    if i == 0 {
        "The capital of France is"@
    } else if i == 1 {
        "Once upon a time, in a distant galaxy,"@
    } else if i == 2 {
        "The recipe for a good cup of tea starts with"@
    } else if i == 3 {
        "In machine learning, gradient descent works by"@
    } else if i == 4 {
        "The history of the printing press begins"@
    } else if i == 5 {
        "A well-designed database index avoids"@
    } else if i == 6 {
        "The difference between TCP and UDP is"@
    } else {
        "To sort a list in linear time you must"@
    }
}

/// The fixed prompt of a stream.
pub fn base_prompt(stream: usize) -> (r: &'static str)
    ensures
        r@ == prompt_text(stream as int % 8),
{
    let i: usize = stream % N_STREAM_PROMPTS;
    if i == 0 {
        "The capital of France is"
    } else if i == 1 {
        "Once upon a time, in a distant galaxy,"
    } else if i == 2 {
        "The recipe for a good cup of tea starts with"
    } else if i == 3 {
        "In machine learning, gradient descent works by"
    } else if i == 4 {
        "The history of the printing press begins"
    } else if i == 5 {
        "A well-designed database index avoids"
    } else if i == 6 {
        "The difference between TCP and UDP is"
    } else {
        "To sort a list in linear time you must"
    }
}

/// Second user turn of the multi-turn workload.
pub fn followup_prompt() -> (r: &'static str)
    ensures
        r@ == "Explain that again in one sentence."@,
{
    "Explain that again in one sentence."
}

/// The prompt of a stream in a run.
pub open spec fn stream_prompt_text(run: int, stream: int) -> Seq<char> {
    "Q"@ + decimal_text(run) + "-"@ + decimal_text(stream) + ". "@ + prompt_text(stream % 8)
}

/// A stream's prompt, unique per run and stream: backends cache on different
/// keys, and a prompt that is sent twice would favour some of them.
pub fn stream_prompt(run: usize, stream: usize) -> (r: String)
    ensures
        r@ == stream_prompt_text(run as int, stream as int),
{
    let mut t: String = String::from_str("Q");
    append_decimal(&mut t, run as u64);
    t.append("-");
    append_decimal(&mut t, stream as u64);
    t.append(". ");
    t.append(base_prompt(stream));
    t
}

/// The prompt of one turn of a stream when requests run one after another.
pub open spec fn sequential_prompt_text(run: int, stream: int, turn: int) -> Seq<char> {
    if turn == 0 {
        stream_prompt_text(run, stream)
    } else {
        stream_prompt_text(run, stream) + " "@ + "Explain that again in one sentence."@
    }
}

/// The prompt of one turn of a stream when requests run one after another: the
/// second turn repeats the first with the follow-up.
pub fn sequential_prompt(run: usize, stream: usize, turn: usize) -> (r: String)
    ensures
        r@ == sequential_prompt_text(run as int, stream as int, turn as int),
{
    let mut t: String = stream_prompt(run, stream);
    if turn != 0 {
        t.append(" ");
        t.append(followup_prompt());
    }
    t
}

/// Prompts that agree up to what follows them belong to the same run and stream.
proof fn lemma_prompt_names_its_stream(
    run: int,
    stream: int,
    rest: Seq<char>,
    run2: int,
    stream2: int,
    rest2: Seq<char>,
)
    requires
        run >= 0,
        stream >= 0,
        run2 >= 0,
        stream2 >= 0,
        stream_prompt_text(run, stream) + rest == stream_prompt_text(run2, stream2) + rest2,
    ensures
        run == run2,
        stream == stream2,
{
    reveal_strlit("Q");
    reveal_strlit("-");
    reveal_strlit(". ");
    let tail = ". "@ + prompt_text(stream % 8) + rest;
    let tail2 = ". "@ + prompt_text(stream2 % 8) + rest2;
    let mid = "-"@ + (decimal_text(stream) + tail);
    let mid2 = "-"@ + (decimal_text(stream2) + tail2);
    let a = stream_prompt_text(run, stream) + rest;
    let b = stream_prompt_text(run2, stream2) + rest2;
    assert(a =~= "Q"@ + (decimal_text(run) + mid));
    assert(b =~= "Q"@ + (decimal_text(run2) + mid2));
    assert(decimal_text(run) + mid =~= a.skip(1));
    assert(decimal_text(run2) + mid2 =~= b.skip(1));
    lemma_number_before_stop(run, run2, '-', mid, mid2);
    assert(decimal_text(stream) + tail =~= mid.skip(1));
    assert(decimal_text(stream2) + tail2 =~= mid2.skip(1));
    lemma_number_before_stop(stream, stream2, '.', tail, tail2);
}

/// No prompt is ever submitted twice in a sweep: the prompts of two streams are
/// equal only if run and stream are.
pub proof fn law_prompts_are_unique(run: int, stream: int, run2: int, stream2: int)
    requires
        run >= 0,
        stream >= 0,
        run2 >= 0,
        stream2 >= 0,
        stream_prompt_text(run, stream) == stream_prompt_text(run2, stream2),
    ensures
        run == run2,
        stream == stream2,
{
    let none = Seq::<char>::empty();
    assert(stream_prompt_text(run, stream) + none =~= stream_prompt_text(run, stream));
    assert(stream_prompt_text(run2, stream2) + none =~= stream_prompt_text(run2, stream2));
    lemma_prompt_names_its_stream(run, stream, none, run2, stream2, none);
}

/// Nor is one submitted twice when requests run one after another: the prompts
/// of two turns are equal only if run, stream and turn are. A stream has two
/// turns.
pub proof fn law_sequential_prompts_are_unique(
    run: int,
    stream: int,
    turn: int,
    run2: int,
    stream2: int,
    turn2: int,
)
    requires
        run >= 0,
        stream >= 0,
        0 <= turn < 2,
        run2 >= 0,
        stream2 >= 0,
        0 <= turn2 < 2,
        sequential_prompt_text(run, stream, turn) == sequential_prompt_text(run2, stream2, turn2),
    ensures
        run == run2,
        stream == stream2,
        turn == turn2,
{
    reveal_strlit(" ");
    let none = Seq::<char>::empty();
    let follow = " "@ + "Explain that again in one sentence."@;
    let rest = if turn == 0 {
        none
    } else {
        follow
    };
    let rest2 = if turn2 == 0 {
        none
    } else {
        follow
    };
    assert(sequential_prompt_text(run, stream, turn) =~= stream_prompt_text(run, stream) + rest);
    assert(sequential_prompt_text(run2, stream2, turn2) =~= stream_prompt_text(run2, stream2)
        + rest2);
    lemma_prompt_names_its_stream(run, stream, rest, run2, stream2, rest2);
    assert(follow.len() > 0);
}

/// How a generate request is routed.
#[derive(Clone, Copy, PartialEq, Eq, Debug, Structural)]
pub enum RequestRoute {
    Plain,
    ContinuousBatch,
    MultiSlot,
}

/// JSON text of a generate request; `input` is its prompt or messages member.
/// All routes ask for a greedy answer without reasoning.
pub open spec fn request_text(
    route: RequestRoute,
    id: Seq<char>,
    attempt_id: u64,
    max_tokens: u64,
    input: Seq<char>,
) -> Seq<char> {
    "{\"assistant_prefix\":\"closed_think\",\"attempt_id\":"@ + decimal_text(attempt_id as int)
        + (if route == RequestRoute::MultiSlot {
        ",\"experimental_multi_slot\":true"@
    } else {
        Seq::<char>::empty()
    }) + ",\"id\":"@ + json_quoted(id) + ",\"max_think_tokens\":1,\"max_tokens\":"@ + decimal_text(
        max_tokens as int,
    ) + ","@ + input + ",\"reasoning_effort\":\"none\",\"repeat_penalty\":1.1"@ + (if route
        == RequestRoute::ContinuousBatch {
        ",\"serve_continuous_batch\":true"@
    } else {
        Seq::<char>::empty()
    }) + ",\"temperature\":0.0,\"top_p\":1.0,\"type\":\"generate\"}"@
}

fn build_request(
    route: RequestRoute,
    id: &str,
    attempt_id: u64,
    max_tokens: u64,
    input: &str,
) -> (r: String)
    ensures
        r@ == request_text(route, id@, attempt_id, max_tokens, input@),
{
    let mut t: String = String::from_str(
        "{\"assistant_prefix\":\"closed_think\",\"attempt_id\":",
    );
    append_decimal(&mut t, attempt_id);
    if route == RequestRoute::MultiSlot {
        t.append(",\"experimental_multi_slot\":true");
    }
    t.append(",\"id\":");
    t.append(quote(id).as_str());
    t.append(",\"max_think_tokens\":1,\"max_tokens\":");
    append_decimal(&mut t, max_tokens);
    t.append(",");
    t.append(input);
    t.append(",\"reasoning_effort\":\"none\",\"repeat_penalty\":1.1");
    if route == RequestRoute::ContinuousBatch {
        t.append(",\"serve_continuous_batch\":true");
    }
    t.append(",\"temperature\":0.0,\"top_p\":1.0,\"type\":\"generate\"}");
    assert(t@ =~= request_text(route, id@, attempt_id, max_tokens, input@));
    t
}

/// The prompt member of a request.
pub open spec fn prompt_member(prompt: Seq<char>) -> Seq<char> {
    "\"prompt\":"@ + json_quoted(prompt)
}

/// A request on the continuous-batch route, as JSON text. Without the opt-in it
/// would run on its own, and the numbers would describe no batch.
pub fn batch_request(prompt: &str, max_tokens: u64, id: &str) -> (r: String)
    ensures
        r@ == request_text(
            RequestRoute::ContinuousBatch,
            id@,
            1,
            max_tokens,
            prompt_member(prompt@),
        ),
{
    let input: String = join2("\"prompt\":", quote(prompt).as_str());
    build_request(RequestRoute::ContinuousBatch, id, 1, max_tokens, input.as_str())
}

/// The same request without a route, as JSON text.
pub fn plain_request(prompt: &str, max_tokens: u64, id: &str) -> (r: String)
    ensures
        r@ == request_text(RequestRoute::Plain, id@, 1, max_tokens, prompt_member(prompt@)),
{
    let input: String = join2("\"prompt\":", quote(prompt).as_str());
    build_request(RequestRoute::Plain, id, 1, max_tokens, input.as_str())
}

/// A request to the multi-slot engine, as JSON text.
pub fn slot_request(prompt: &str, max_tokens: u64, id: &str, attempt_id: u64) -> (r: String)
    ensures
        r@ == request_text(
            RequestRoute::MultiSlot,
            id@,
            attempt_id,
            max_tokens,
            prompt_member(prompt@),
        ),
{
    let input: String = join2("\"prompt\":", quote(prompt).as_str());
    build_request(RequestRoute::MultiSlot, id, attempt_id, max_tokens, input.as_str())
}

/// The messages member of a two-turn conversation.
pub open spec fn messages_member(first: Seq<char>, answer: Seq<char>, next: Seq<char>) -> Seq<char> {
    "\"messages\":[{\"content\":"@ + json_quoted(first) + ",\"role\":\"user\"},{\"content\":"@
        + json_quoted(answer) + ",\"role\":\"assistant\"},{\"content\":"@ + json_quoted(next)
        + ",\"role\":\"user\"}]"@
}

/// The second turn of a conversation with the multi-slot engine, as JSON text:
/// the messages let it match the first turn and reuse its state.
pub fn slot_request_messages(
    first: &str,
    answer: &str,
    next: &str,
    max_tokens: u64,
    id: &str,
    attempt_id: u64,
) -> (r: String)
    ensures
        r@ == request_text(
            RequestRoute::MultiSlot,
            id@,
            attempt_id,
            max_tokens,
            messages_member(first@, answer@, next@),
        ),
{
    let mut input: String = String::from_str("\"messages\":[{\"content\":");
    input.append(quote(first).as_str());
    input.append(",\"role\":\"user\"},{\"content\":");
    input.append(quote(answer).as_str());
    input.append(",\"role\":\"assistant\"},{\"content\":");
    input.append(quote(next).as_str());
    input.append(",\"role\":\"user\"}]");
    build_request(RequestRoute::MultiSlot, id, attempt_id, max_tokens, input.as_str())
}

/// Turns of a workload.
pub fn turn_count(workload: WorkloadSel) -> (r: usize)
    ensures
        r == if workload == WorkloadSel::Multiturn {
            2int
        } else {
            1
        },
{
    if workload == WorkloadSel::Multiturn {
        2
    } else {
        1
    }
}

// ---- Frames ----

/// What a stream is told.
#[derive(Clone, PartialEq, Eq, Debug)]
pub enum Frame {
    /// One token, with its text if it has any.
    Token(Option<String>),
    /// The answer is staged, with the prompt tokens served from a cache.
    CommitReady(Option<u64>),
    Done,
    Error,
    /// Anything else.
    Other,
    /// Nothing came in time.
    Timeout,
    /// The stream has gone.
    Disconnected,
}

/// Reads a frame.
pub fn classify_frame(frame: &Value) -> (r: Frame)
    ensures
        ({
            let ty = json_of(*frame).member_text("type"@);
            if ty == Some("token"@) {
                &&& r is Token
                &&& match r->Token_0 {
                    Some(t) => json_of(*frame).member_text("text"@) == Some(t@),
                    None => json_of(*frame).member_text("text"@) is None,
                }
            } else if ty == Some("commit_ready"@) {
                r == Frame::CommitReady(json_of(*frame).member_unsigned("cached_tokens"@))
            } else if ty == Some("done"@) {
                r == Frame::Done
            } else if ty == Some("error"@) {
                r == Frame::Error
            } else {
                r == Frame::Other
            }
        }),
{
    match read_string(frame, "type") {
        Some(ty) => {
            if same_text(ty, "token") {
                match read_string(frame, "text") {
                    Some(t) => Frame::Token(Some(String::from_str(t))),
                    None => Frame::Token(None),
                }
            } else if same_text(ty, "commit_ready") {
                Frame::CommitReady(read_u64(frame, "cached_tokens"))
            } else if same_text(ty, "done") {
                Frame::Done
            } else if same_text(ty, "error") {
                Frame::Error
            } else {
                Frame::Other
            }
        },
        None => Frame::Other,
    }
}

/// What has come of one stream.
#[derive(Debug)]
pub struct StreamOutcome {
    pub tokens: u64,
    pub rejected: bool,
    /// Answers that were partly served from a cache.
    pub prefix_hits: usize,
    /// Visible text so far.
    pub text: String,
}

/// What to do with the stream after a frame.
#[derive(Clone, Copy, PartialEq, Eq, Debug, Structural)]
pub enum StreamStep {
    /// Go on reading.
    Wait,
    /// Commit the staged answer, then go on reading.
    Commit,
    /// The stream is over: release it.
    Release,
}

impl Default for StreamOutcome {
    /// Nothing has come.
    fn default() -> (o: StreamOutcome)
        ensures
            o.tokens == 0,
            !o.rejected,
            o.prefix_hits == 0,
            o.text@.len() == 0,
    {
        StreamOutcome { tokens: 0, rejected: false, prefix_hits: 0, text: String::new() }
    }
}

/// Counts one frame of a stream and says what to do next.
pub fn on_frame(o: &mut StreamOutcome, frame: &Frame) -> (r: StreamStep)
    requires
        old(o).tokens < u64::MAX,
        old(o).prefix_hits < usize::MAX,
    ensures
        r == match *frame {
            Frame::CommitReady(_) => StreamStep::Commit,
            Frame::Done => StreamStep::Release,
            Frame::Error => StreamStep::Release,
            Frame::Disconnected => StreamStep::Release,
            _ => StreamStep::Wait,
        },
        final(o).tokens == old(o).tokens + if *frame is Token {
            1int
        } else {
            0
        },
        final(o).text@ == match *frame {
            Frame::Token(Some(t)) => old(o).text@ + t@,
            _ => old(o).text@,
        },
        final(o).prefix_hits == old(o).prefix_hits + match *frame {
            Frame::CommitReady(Some(c)) => if c > 0 {
                1int
            } else {
                0
            },
            _ => 0,
        },
        final(o).rejected == (old(o).rejected || *frame is Error || *frame is Disconnected),
{
    match frame {
        Frame::Token(text) => {
            o.tokens = o.tokens + 1;
            match text {
                Some(t) => {
                    o.text.append(t.as_str());
                },
                None => {},
            }
            StreamStep::Wait
        },
        Frame::CommitReady(cached) => {
            match cached {
                Some(c) => {
                    if *c > 0 {
                        o.prefix_hits = o.prefix_hits + 1;
                    }
                },
                None => {},
            }
            StreamStep::Commit
        },
        Frame::Done => StreamStep::Release,
        Frame::Error => {
            o.rejected = true;
            StreamStep::Release
        },
        Frame::Disconnected => {
            o.rejected = true;
            StreamStep::Release
        },
        Frame::Other => StreamStep::Wait,
        Frame::Timeout => StreamStep::Wait,
    }
}

// ---- One run ----

/// Counts of one run of one arm.
#[derive(Clone, Copy, Debug, PartialEq, Eq, Structural)]
pub struct ArmCounts {
    /// Tokens generated for the streams that were served.
    pub tokens: u64,
    /// Streams the backend refused. Their tokens are not counted.
    pub rejected: usize,
    pub prefix_hits: usize,
}

/// Tokens of the served streams.
pub open spec fn served_tokens(o: Seq<StreamOutcome>) -> int
    decreases o.len(),
{
    if o.len() == 0 {
        0
    } else {
        served_tokens(o.drop_last()) + if o.last().rejected {
            0
        } else {
            o.last().tokens as int
        }
    }
}

/// Streams refused.
pub open spec fn refused_streams(o: Seq<StreamOutcome>) -> int
    decreases o.len(),
{
    if o.len() == 0 {
        0
    } else {
        refused_streams(o.drop_last()) + if o.last().rejected {
            1int
        } else {
            0
        }
    }
}

/// Cache hits of all streams.
pub open spec fn all_hits(o: Seq<StreamOutcome>) -> int
    decreases o.len(),
{
    if o.len() == 0 {
        0
    } else {
        all_hits(o.drop_last()) + o.last().prefix_hits
    }
}

proof fn lemma_sums_monotone(o: Seq<StreamOutcome>, i: int)
    requires
        0 <= i <= o.len(),
    ensures
        0 <= served_tokens(o.take(i)) <= served_tokens(o),
        0 <= refused_streams(o.take(i)) <= i,
        refused_streams(o.take(i)) <= refused_streams(o),
        0 <= all_hits(o.take(i)) <= all_hits(o),
    decreases o.len(),
{
    if i == o.len() {
        assert(o.take(i) =~= o);
        if i > 0 {
            lemma_sums_monotone(o.drop_last(), i - 1);
            assert(o.drop_last().take(i - 1) =~= o.drop_last());
        }
    } else {
        lemma_sums_monotone(o.drop_last(), i);
        assert(o.drop_last().take(i) =~= o.take(i));
    }
}

/// Adds the outcomes of one turn to a run's counts.
pub fn fold_outcomes(counts: &mut ArmCounts, outcomes: &[StreamOutcome])
    requires
        old(counts).tokens + served_tokens(outcomes@) <= u64::MAX,
        old(counts).rejected + outcomes@.len() <= usize::MAX,
        old(counts).prefix_hits + all_hits(outcomes@) <= usize::MAX,
    ensures
        final(counts).tokens == old(counts).tokens + served_tokens(outcomes@),
        final(counts).rejected == old(counts).rejected + refused_streams(outcomes@),
        final(counts).prefix_hits == old(counts).prefix_hits + all_hits(outcomes@),
{
    let ghost c = *counts;
    let mut i: usize = 0;
    assert(outcomes@.take(0) =~= Seq::empty());
    while i < outcomes.len()
        invariant
            i <= outcomes@.len(),
            c.tokens + served_tokens(outcomes@) <= u64::MAX,
            c.rejected + outcomes@.len() <= usize::MAX,
            c.prefix_hits + all_hits(outcomes@) <= usize::MAX,
            counts.tokens == c.tokens + served_tokens(outcomes@.take(i as int)),
            counts.rejected == c.rejected + refused_streams(outcomes@.take(i as int)),
            counts.prefix_hits == c.prefix_hits + all_hits(outcomes@.take(i as int)),
        decreases outcomes@.len() - i,
    {
        let o = &outcomes[i];
        proof {
            lemma_sums_monotone(outcomes@, i + 1);
            assert(outcomes@.take(i + 1).drop_last() =~= outcomes@.take(i as int));
        }
        if o.rejected {
            counts.rejected = counts.rejected + 1;
        } else {
            counts.tokens = counts.tokens + o.tokens;
        }
        counts.prefix_hits = counts.prefix_hits + o.prefix_hits;
        i = i + 1;
    }
    assert(outcomes@.take(i as int) =~= outcomes@);
}

/// Refuses a stream count above what a backend was started with. A clamped run
/// would be reported under a count it was not measured at.
pub fn check_k(label: &str, max_concurrency: usize, k: usize) -> (r: Result<(), String>)
    ensures
        r is Err <==> k > max_concurrency,
        r is Err ==> r->Err_0@ == "concurrency "@ + decimal_text(k as int) + " exceeds "@ + label@
            + " backend maximum "@ + decimal_text(max_concurrency as int),
{
    if k > max_concurrency {
        let mut t: String = String::from_str("concurrency ");
        append_decimal(&mut t, k as u64);
        t.append(" exceeds ");
        t.append(label);
        t.append(" backend maximum ");
        append_decimal(&mut t, max_concurrency as u64);
        Err(t)
    } else {
        Ok(())
    }
}

/// Why a multi-turn run without a cache hit is refused.
pub open spec fn no_reuse_text() -> Seq<char> {
    "multi-turn arm recorded no prefix hits — turn 2 did not reuse the session KV, so this number does not measure what the arm claims"@
}

/// Refuses a multi-turn run of the slot engine without a cache hit: a faster
/// second turn alone is no evidence that its state was reused.
pub fn arm_is_valid(workload: WorkloadSel, backend: &str, r: &ArmCounts) -> (v: Result<(), String>)
    ensures
        v is Err <==> workload == WorkloadSel::Multiturn && backend@ == "slots"@ && r.prefix_hits
            == 0,
        v is Err ==> v->Err_0@ == no_reuse_text(),
{
    if workload == WorkloadSel::Multiturn && same_text(backend, "slots") && r.prefix_hits == 0 {
        Err(
            String::from_str(
                "multi-turn arm recorded no prefix hits — turn 2 did not reuse the session KV, so this number does not measure what the arm claims",
            ),
        )
    } else {
        Ok(())
    }
}

/// Name of an arm; the combined workload is no arm of its own.
pub fn arm_label(arm: WorkloadSel) -> (r: Option<&'static str>)
    ensures
        match r {
            Some(s) => s@ == if arm == WorkloadSel::Stateless {
                "stateless"@
            } else {
                "multiturn"@
            } && arm != WorkloadSel::Both,
            None => arm == WorkloadSel::Both,
        },
{
    match arm {
        WorkloadSel::Stateless => Some("stateless"),
        WorkloadSel::Multiturn => Some("multiturn"),
        WorkloadSel::Both => None,
    }
}

/// Tokens of the untimed warm-up run.
pub fn warmup_tokens(max_tokens: u64) -> (r: u64)
    ensures
        r == if max_tokens <= 8 {
            max_tokens
        } else {
            8
        },
{
    if max_tokens <= 8 {
        max_tokens
    } else {
        8
    }
}

// ---- Samples by stream count ----

/// Samples of a sweep, grouped by stream count in ascending order.
pub struct SamplesByK<T> {
    groups: Vec<(usize, Vec<T>)>,
}

spec fn group_keys<T>(g: Seq<(usize, Vec<T>)>) -> Seq<usize> {
    g.map_values(|e: (usize, Vec<T>)| e.0)
}

spec fn group_at<T>(g: Seq<(usize, Vec<T>)>, k: usize) -> int {
    choose|i: int| 0 <= i < g.len() && (#[trigger] g[i]).0 == k
}

spec fn samples_in<T>(g: Seq<(usize, Vec<T>)>, k: usize) -> Seq<T> {
    if exists|i: int| 0 <= i < g.len() && (#[trigger] g[i]).0 == k {
        g[group_at(g, k)].1@
    } else {
        Seq::empty()
    }
}

impl<T> SamplesByK<T> {
    /// The counts are distinct and ascending, and each has a sample.
    pub closed spec fn wf(&self) -> bool {
        &&& ascending(group_keys(self.groups@))
        &&& forall|i: int| 0 <= i < self.groups@.len() ==> (#[trigger] self.groups@[i]).1@.len() > 0
    }

    /// The samples of a stream count, in the order they came.
    pub closed spec fn samples(&self, k: usize) -> Seq<T> {
        samples_in(self.groups@, k)
    }

    /// No samples.
    pub fn new() -> (r: SamplesByK<T>)
        ensures
            r.wf(),
            forall|k: usize| #[trigger] r.samples(k) == Seq::<T>::empty(),
    {
        SamplesByK { groups: Vec::new() }
    }

    /// Adds a sample.
    pub fn push(&mut self, k: usize, sample: T)
        requires
            old(self).wf(),
        ensures
            final(self).wf(),
            forall|j: usize| #[trigger]
                final(self).samples(j) == if j == k {
                    old(self).samples(k).push(sample)
                } else {
                    old(self).samples(j)
                },
    {
        let ghost g0 = self.groups@;
        let ghost keys = group_keys(g0);
        let mut i: usize = 0;
        while i < self.groups.len() && self.groups[i].0 < k
            invariant
                i <= self.groups@.len(),
                self.groups@ == g0,
                keys == group_keys(g0),
                ascending(keys),
                forall|j: int| 0 <= j < i ==> (#[trigger] g0[j]).0 < k,
            decreases self.groups@.len() - i,
        {
            i = i + 1;
        }
        if i < self.groups.len() && self.groups[i].0 == k {
            self.groups[i].1.push(sample);
            proof {
                let g1 = self.groups@;
                assert(group_keys(g1) =~= keys);
                assert forall|x: int| 0 <= x < g1.len() implies (#[trigger] g1[x]).1@.len() > 0 by {
                    assert(g0[x].1@.len() > 0);
                }
                assert forall|j: usize| #[trigger] self.samples(j) == if j == k {
                    old(self).samples(k).push(sample)
                } else {
                    old(self).samples(j)
                } by {
                    lemma_samples(g0, j);
                    lemma_samples(g1, j);
                    assert(g0[i as int].0 == k);
                    assert(g1[i as int].0 == k);
                    if exists|x: int| 0 <= x < g0.len() && (#[trigger] g0[x]).0 == j {
                        let x = choose|x: int| 0 <= x < g0.len() && (#[trigger] g0[x]).0 == j;
                        assert(g1[x].0 == j);
                    }
                    if exists|x: int| 0 <= x < g1.len() && (#[trigger] g1[x]).0 == j {
                        let x = choose|x: int| 0 <= x < g1.len() && (#[trigger] g1[x]).0 == j;
                        assert(g0[x].0 == j);
                    }
                }
            }
        } else {
            let mut fresh: Vec<T> = Vec::new();
            fresh.push(sample);
            self.groups.insert(i, (k, fresh));
            proof {
                let g1 = self.groups@;
                let keys1 = group_keys(g1);
                assert(keys1 =~= keys.insert(i as int, k));
                assert forall|x: int| 0 <= x < g1.len() implies (#[trigger] g1[x]).1@.len() > 0 by {
                    if x < i {
                        assert(g1[x] == g0[x]);
                    } else if x > i {
                        assert(g1[x] == g0[x - 1]);
                    }
                }
                assert forall|a: int, b: int| 0 <= a < b < keys1.len() implies keys1[a]
                    < keys1[b] by {
                    if a < i && b < i {
                        assert(keys[a] < keys[b]);
                    } else if a < i && b == i {
                        assert(g0[a].0 < k);
                    } else if a < i {
                        assert(keys[a] < keys[b - 1]);
                    } else if a == i {
                        assert(keys[i as int] > k);
                        if b - 1 > i {
                            assert(keys[i as int] < keys[b - 1]);
                        }
                    } else {
                        assert(keys[a - 1] < keys[b - 1]);
                    }
                }
                assert forall|j: usize| #[trigger] self.samples(j) == if j == k {
                    old(self).samples(k).push(sample)
                } else {
                    old(self).samples(j)
                } by {
                    lemma_samples(g0, j);
                    lemma_samples(g1, j);
                    assert(g1[i as int].0 == k);
                    if exists|x: int| 0 <= x < g0.len() && (#[trigger] g0[x]).0 == j {
                        let x = choose|x: int| 0 <= x < g0.len() && (#[trigger] g0[x]).0 == j;
                        if j == k {
                            if x < i {
                                assert(g0[x].0 < k);
                            } else if x > i {
                                assert(keys[i as int] < keys[x]);
                                assert(keys[i as int] > k);
                            }
                        }
                        if x < i {
                            assert(g1[x] == g0[x]);
                        } else {
                            assert(g1[x + 1] == g0[x]);
                        }
                    }
                    if exists|x: int| 0 <= x < g1.len() && (#[trigger] g1[x]).0 == j {
                        let x = choose|x: int| 0 <= x < g1.len() && (#[trigger] g1[x]).0 == j;
                        if x < i {
                            assert(g0[x] == g1[x]);
                        } else if x > i {
                            assert(g0[x - 1] == g1[x]);
                        }
                    }
                    assert(Seq::<T>::empty().push(sample) =~= g1[i as int].1@);
                }
            }
        }
    }

    /// The groups, in ascending order of their stream count.
    pub fn into_groups(self) -> (r: Vec<(usize, Vec<T>)>)
        requires
            self.wf(),
        ensures
            ascending(Seq::new(r@.len(), |i: int| r@[i].0)),
            forall|i: int|
                0 <= i < r@.len() ==> (#[trigger] r@[i]).1@ == self.samples(r@[i].0)
                    && r@[i].1@.len() > 0,
            forall|k: usize|
                (#[trigger] self.samples(k)).len() > 0 ==> exists|i: int|
                    0 <= i < r@.len() && (#[trigger] r@[i]).0 == k,
    {
        proof {
            let g = self.groups@;
            assert(group_keys(g) =~= Seq::new(g.len(), |i: int| g[i].0));
            assert forall|i: int| 0 <= i < g.len() implies (#[trigger] g[i]).1@ == self.samples(
                g[i].0,
            ) by {
                lemma_samples(g, g[i].0);
            }
        }
        self.groups
    }
}

/// With distinct keys, a key's samples are those of the one group that has it.
proof fn lemma_samples<T>(g: Seq<(usize, Vec<T>)>, k: usize)
    requires
        ascending(group_keys(g)),
    ensures
        forall|i: int|
            0 <= i < g.len() && (#[trigger] g[i]).0 == k ==> samples_in(g, k) == g[i].1@,
{
    let keys = group_keys(g);
    assert forall|i: int| 0 <= i < g.len() && (#[trigger] g[i]).0 == k implies samples_in(g, k)
        == g[i].1@ by {
        let c = group_at(g, k);
        assert(0 <= c < g.len() && g[c].0 == k);
        assert(keys.len() == g.len() && keys[c] == k && keys[i] == k);
        if c < i {
            assert(keys[c] < keys[i]);
        } else if i < c {
            assert(keys[i] < keys[c]);
        }
    }
}

// ---- The sweep ----

/// One step of a sweep.
#[derive(Clone, Copy, PartialEq, Eq, Debug, Structural)]
pub enum SweepStep {
    /// Run once untimed, so that compiling kernels is not measured. How it goes
    /// does not matter.
    WarmUp { arm: WorkloadSel, k: usize, max_tokens: u64 },
    /// Measure one run. A run that fails ends the sweep.
    Measure { arm: WorkloadSel, k: usize, max_tokens: u64 },
    /// Take the arm's samples.
    Collect { arm: WorkloadSel },
}

/// The steps of one arm: a warm-up at the first stream count, the runs in
/// interleaved order, and the collection of the samples. The combined workload
/// is no arm of its own.
pub open spec fn arm_steps(
    arm: WorkloadSel,
    points: Seq<usize>,
    runs: usize,
    max_tokens: u64,
) -> Seq<SweepStep> {
    if arm == WorkloadSel::Both {
        Seq::empty()
    } else {
        seq![
            SweepStep::WarmUp {
                arm,
                k: points[0],
                max_tokens: if max_tokens <= 8 {
                    max_tokens
                } else {
                    8
                },
            },
        ] + Seq::new(
            (points.len() * runs) as nat,
            |i: int|
                SweepStep::Measure { arm, k: points[i % (points.len() as int)], max_tokens },
        ) + seq![SweepStep::Collect { arm }]
    }
}

/// The steps of a sweep: arm after arm.
pub open spec fn sweep_steps(
    arms: Seq<WorkloadSel>,
    points: Seq<usize>,
    runs: usize,
    max_tokens: u64,
) -> Seq<SweepStep>
    decreases arms.len(),
{
    if arms.len() == 0 {
        Seq::empty()
    } else {
        sweep_steps(arms.drop_last(), points, runs, max_tokens) + arm_steps(
            arms.last(),
            points,
            runs,
            max_tokens,
        )
    }
}

/// A sweep over one backend: the steps, how far it has come, and the samples of
/// the arm that is being measured.
pub struct Sweep<T> {
    pub steps: Vec<SweepStep>,
    pub at: usize,
    pub samples: SamplesByK<T>,
}

impl<T> Sweep<T> {
    /// The step to take now; `None` at the end.
    pub open spec fn now(&self) -> Option<SweepStep> {
        if self.at < self.steps.len() {
            Some(self.steps@[self.at as int])
        } else {
            None
        }
    }

    /// The invariant.
    pub open spec fn wf(&self) -> bool {
        self.at <= self.steps.len() && self.samples.wf()
    }

    /// Plans the sweep.
    pub fn new(arms: &[WorkloadSel], points: &[usize], runs: usize, max_tokens: u64) -> (r: Sweep<
        T,
    >)
        requires
            points@.len() > 0,
            points@.len() * runs <= usize::MAX,
        ensures
            r.wf(),
            r.steps@ == sweep_steps(arms@, points@, runs, max_tokens),
            r.at == 0,
            forall|k: usize| #[trigger] r.samples.samples(k) == Seq::<T>::empty(),
    {
        let order: Vec<usize> = sweep_order(points, runs);
        let mut steps: Vec<SweepStep> = Vec::new();
        let mut a: usize = 0;
        assert(arms@.take(0) =~= Seq::empty());
        while a < arms.len()
            invariant
                a <= arms@.len(),
                points@.len() > 0,
                order@ == Seq::new(
                    (points@.len() * runs) as nat,
                    |i: int| points@[i % (points@.len() as int)],
                ),
                steps@ == sweep_steps(arms@.take(a as int), points@, runs, max_tokens),
            decreases arms@.len() - a,
        {
            let arm: WorkloadSel = arms[a];
            let ghost before = steps@;
            assert(arms@.take(a + 1).drop_last() =~= arms@.take(a as int));
            if arm != WorkloadSel::Both {
                let warm = SweepStep::WarmUp {
                    arm,
                    k: points[0],
                    max_tokens: warmup_tokens(max_tokens),
                };
                steps.push(warm);
                let ghost runs_of = Seq::new(
                    (points@.len() * runs) as nat,
                    |i: int|
                        SweepStep::Measure { arm, k: points@[i % (points@.len() as int)], max_tokens },
                );
                let mut i: usize = 0;
                while i < order.len()
                    invariant
                        i <= order@.len(),
                        order@.len() == runs_of.len(),
                        forall|j: int|
                            0 <= j < order@.len() ==> runs_of[j] == (SweepStep::Measure {
                                arm,
                                k: #[trigger] order@[j],
                                max_tokens,
                            }),
                        steps@ =~= before + seq![warm] + runs_of.take(i as int),
                    decreases order@.len() - i,
                {
                    steps.push(SweepStep::Measure { arm, k: order[i], max_tokens });
                    i = i + 1;
                }
                steps.push(SweepStep::Collect { arm });
                proof {
                    assert(runs_of.take(i as int) =~= runs_of);
                    assert(steps@ =~= before + arm_steps(arm, points@, runs, max_tokens));
                }
            } else {
                assert(steps@ =~= before + arm_steps(arm, points@, runs, max_tokens));
            }
            a = a + 1;
        }
        assert(arms@.take(a as int) =~= arms@);
        Sweep { steps, at: 0, samples: SamplesByK::new() }
    }

    /// What to do now; `None` when the sweep is over.
    pub fn current(&self) -> (r: Option<SweepStep>)
        requires
            self.wf(),
        ensures
            r == self.now(),
    {
        if self.at < self.steps.len() {
            Some(self.steps[self.at])
        } else {
            None
        }
    }

    /// The warm-up is over.
    pub fn warmed_up(&mut self)
        requires
            old(self).wf(),
            old(self).now() is Some,
            old(self).now()->Some_0 is WarmUp,
        ensures
            final(self).wf(),
            *final(self) == (Sweep { at: (old(self).at + 1) as usize, ..*old(self) }),
    {
        self.at = self.at + 1;
    }

    /// A run was measured. Its sample is kept if the run is valid for the arm
    /// on this backend; otherwise the reason comes back and nothing is kept.
    pub fn measured(&mut self, backend: &str, counts: &ArmCounts, sample: T) -> (r: Result<
        (),
        String,
    >)
        requires
            old(self).wf(),
            old(self).now() is Some,
            old(self).now()->Some_0 is Measure,
        ensures
            final(self).wf(),
            final(self).steps == old(self).steps,
            final(self).at == old(self).at + 1,
            ({
                let arm = old(self).now()->Some_0->Measure_arm;
                let k = old(self).now()->Some_0->Measure_k;
                &&& r is Err <==> arm == WorkloadSel::Multiturn && backend@ == "slots"@
                    && counts.prefix_hits == 0
                &&& r is Err ==> final(self).samples == old(self).samples && r->Err_0@
                    == no_reuse_text()
                &&& r is Ok ==> forall|j: usize| #[trigger]
                    final(self).samples.samples(j) == if j == k {
                        old(self).samples.samples(k).push(sample)
                    } else {
                        old(self).samples.samples(j)
                    }
            }),
    {
        match self.steps[self.at] {
            SweepStep::Measure { arm, k, max_tokens: _ } => {
                self.at = self.at + 1;
                match arm_is_valid(arm, backend, counts) {
                    Ok(_) => {
                        self.samples.push(k, sample);
                        Ok(())
                    },
                    Err(why) => Err(why),
                }
            },
            _ => Ok(()),
        }
    }

    /// Takes the arm's samples, grouped by stream count in ascending order; the
    /// next arm starts without any.
    pub fn collect(&mut self) -> (r: Vec<(usize, Vec<T>)>)
        requires
            old(self).wf(),
            old(self).now() is Some,
            old(self).now()->Some_0 is Collect,
        ensures
            final(self).wf(),
            final(self).steps == old(self).steps,
            final(self).at == old(self).at + 1,
            forall|k: usize| #[trigger] final(self).samples.samples(k) == Seq::<T>::empty(),
            ascending(Seq::new(r@.len(), |i: int| r@[i].0)),
            forall|i: int|
                0 <= i < r@.len() ==> (#[trigger] r@[i]).1@ == old(self).samples.samples(r@[i].0)
                    && r@[i].1@.len() > 0,
            forall|k: usize|
                (#[trigger] old(self).samples.samples(k)).len() > 0 ==> exists|i: int|
                    0 <= i < r@.len() && (#[trigger] r@[i]).0 == k,
    {
        self.at = self.at + 1;
        let mut taken: SamplesByK<T> = SamplesByK::new();
        std::mem::swap(&mut taken, &mut self.samples);
        taken.into_groups()
    }
}

/// Every arm is warmed up before it is measured, and its samples are taken when
/// all its runs are over: each stream count is measured once per run.
pub proof fn law_arms_warm_up_then_measure(
    arm: WorkloadSel,
    points: Seq<usize>,
    runs: usize,
    max_tokens: u64,
    run: int,
    i: int,
)
    requires
        arm != WorkloadSel::Both,
        0 <= run < runs,
        0 <= i < points.len(),
    ensures
        ({
            let steps = arm_steps(arm, points, runs, max_tokens);
            &&& steps.len() == points.len() * runs + 2
            &&& steps[0] is WarmUp
            &&& steps.last() == (SweepStep::Collect { arm })
            &&& 0 <= run * points.len() + i < points.len() * runs
            &&& steps[1 + run * points.len() + i] == (SweepStep::Measure {
                arm,
                k: points[i],
                max_tokens,
            })
        }),
{
    let n = points.len() as int;
    assert(0 <= run * n + i < n * runs) by (nonlinear_arith)
        requires
            0 <= run < runs,
            0 <= i < n,
    ;
    vstd::arithmetic::div_mod::lemma_fundamental_div_mod_converse(run * n + i, n, run, i);
}

/// Counts the runs of a driver, so that no prompt is submitted twice.
pub struct RunCounter {
    pub runs: usize,
}

impl RunCounter {
    /// No run yet.
    pub fn new() -> (r: RunCounter)
        ensures
            r.runs == 0,
    {
        RunCounter { runs: 0 }
    }

    /// The number of the next run: one more than the last.
    pub fn next(&mut self) -> (r: usize)
        requires
            old(self).runs < usize::MAX,
        ensures
            r == old(self).runs + 1,
            final(self).runs == r,
    {
        self.runs = self.runs + 1;
        self.runs
    }

    /// The prompts of the next run, one for each of its `k` streams.
    pub fn next_prompts(&mut self, k: usize) -> (r: Vec<String>)
        requires
            old(self).runs < usize::MAX,
        ensures
            final(self).runs == old(self).runs + 1,
            r@.len() == k,
            forall|i: int|
                0 <= i < k ==> (#[trigger] r@[i])@ == stream_prompt_text(
                    old(self).runs + 1,
                    i,
                ),
    {
        let run: usize = self.next();
        let mut out: Vec<String> = Vec::new();
        let mut i: usize = 0;
        while i < k
            invariant
                i <= k,
                run == old(self).runs + 1,
                self.runs == run,
                out@.len() == i,
                forall|j: int|
                    0 <= j < i ==> (#[trigger] out@[j])@ == stream_prompt_text(run as int, j),
            decreases k - i,
        {
            out.push(stream_prompt(run, i));
            i = i + 1;
        }
        out
    }
}

/// A driver never submits a prompt twice, however many runs it makes: neither
/// two streams of one run nor streams of two runs share one. `runs` lie behind
/// it, and `later` counts the runs after its next one.
pub proof fn law_drivers_never_repeat_a_prompt(
    runs: int,
    later: int,
    stream: int,
    later2: int,
    stream2: int,
)
    requires
        runs >= 0,
        later >= 0,
        stream >= 0,
        later2 >= 0,
        stream2 >= 0,
        later != later2 || stream != stream2,
    ensures
        stream_prompt_text(runs + 1 + later, stream) != stream_prompt_text(
            runs + 1 + later2,
            stream2,
        ),
{
    if stream_prompt_text(runs + 1 + later, stream) == stream_prompt_text(
        runs + 1 + later2,
        stream2,
    ) {
        law_prompts_are_unique(runs + 1 + later, stream, runs + 1 + later2, stream2);
    }
}

// ---- Laws of lists, counts and requests ----

/// A comma parts a list in two: the parts of what stands before it, then those of
/// what stands behind; and a text without a comma is one part.
pub proof fn law_commas_part_lists(a: Seq<char>, b: Seq<char>)
    ensures
        comma_parts(a.push(',') + b) == comma_parts(a) + comma_parts(b),
        (forall|i: int| 0 <= i < b.len() ==> #[trigger] b[i] != ',') ==> comma_parts(b) == seq![b],
    decreases b.len(),
{
    let s = a.push(',') + b;
    lemma_parts_nonempty(a);
    if b.len() == 0 {
        assert(s.drop_last() =~= a);
        assert(s.last() == ',');
        assert(comma_parts(s) =~= comma_parts(a) + comma_parts(b));
        assert(b =~= Seq::<char>::empty());
        assert(comma_parts(b) =~= seq![b]);
    } else {
        let c = b.drop_last();
        law_commas_part_lists(a, c);
        lemma_parts_nonempty(c);
        assert(s.drop_last() =~= a.push(',') + c);
        assert(s.last() == b.last());
        let p = comma_parts(a) + comma_parts(c);
        assert(comma_parts(s) =~= comma_parts(a) + comma_parts(b));
        if forall|i: int| 0 <= i < b.len() ==> #[trigger] b[i] != ',' {
            assert forall|i: int| 0 <= i < c.len() implies #[trigger] c[i] != ',' by {
                assert(b[i] != ',');
            }
            assert(b[b.len() - 1] != ',');
            assert(comma_parts(c) == seq![c]);
            assert(c.push(b.last()) =~= b);
            assert(comma_parts(b) =~= seq![b]);
        }
    }
}

/// A number with white space round it counts as the number, white space alone as
/// nothing, and zero is refused.
pub proof fn law_parts_are_read_as_numbers(
    parts: Seq<Seq<char>>,
    front: Seq<char>,
    n: usize,
    back: Seq<char>,
)
    requires
        forall|i: int| 0 <= i < front.len() ==> crate::text::white_space(#[trigger] front[i]),
        forall|i: int| 0 <= i < back.len() ==> crate::text::white_space(#[trigger] back[i]),
        part_values(parts) is Ok,
    ensures
        part_values(parts.push(front)) == part_values(parts),
        n > 0 ==> part_values(parts.push(front + decimal_text(n as int) + back)) == Ok::<
            Seq<usize>,
            ConcurrencyFault,
        >(part_values(parts)->Ok_0.push(n)),
        n == 0 ==> part_values(parts.push(front + decimal_text(n as int) + back)) == Err::<
            Seq<usize>,
            ConcurrencyFault,
        >(ConcurrencyFault::NotPositive),
{
    let none = Seq::<char>::empty();
    let t = decimal_text(n as int);
    lemma_decimal_nonempty(n as int);
    lemma_decimal_digits(n as int, 0);
    lemma_decimal_digits(n as int, t.len() - 1);
    crate::text::law_digits_are_no_white_space(t[0]);
    crate::text::law_digits_are_no_white_space(t.last());
    crate::text::law_trimming_takes_the_ends(front, t, back);
    crate::text::law_trimming_takes_the_ends(front, none, none);
    assert(front + none + none =~= front);
    crate::text::law_decimals_read_back(n as int, n as int);
    assert(parts.push(front).drop_last() =~= parts);
    assert(parts.push(front + t + back).drop_last() =~= parts);
}

/// Each stream is counted for what it did: one that was served for its tokens, one
/// that was refused as refused and for none, and every one for its cache hits.
pub proof fn law_streams_are_counted_for_what_they_did(
    o: Seq<StreamOutcome>,
    x: StreamOutcome,
)
    ensures
        !x.rejected ==> served_tokens(o.push(x)) == served_tokens(o) + x.tokens
            && refused_streams(o.push(x)) == refused_streams(o),
        x.rejected ==> served_tokens(o.push(x)) == served_tokens(o) && refused_streams(o.push(x))
            == refused_streams(o) + 1,
        all_hits(o.push(x)) == all_hits(o) + x.prefix_hits,
        served_tokens(Seq::<StreamOutcome>::empty()) == 0,
        refused_streams(Seq::<StreamOutcome>::empty()) == 0,
        all_hits(Seq::<StreamOutcome>::empty()) == 0,
{
    assert(o.push(x).drop_last() =~= o);
}

/// Arms follow one another, each with its own steps; the combined workload has
/// none, and warming up is short and at the first stream count.
pub proof fn law_arms_follow_one_another(
    arms: Seq<WorkloadSel>,
    arm: WorkloadSel,
    points: Seq<usize>,
    runs: usize,
    max_tokens: u64,
)
    ensures
        sweep_steps(arms.push(arm), points, runs, max_tokens) == sweep_steps(
            arms,
            points,
            runs,
            max_tokens,
        ) + arm_steps(arm, points, runs, max_tokens),
        arm_steps(WorkloadSel::Both, points, runs, max_tokens).len() == 0,
        arm != WorkloadSel::Both ==> match arm_steps(arm, points, runs, max_tokens)[0] {
            SweepStep::WarmUp { arm: a, k, max_tokens: m } => a == arm && k == points[0] && m <= 8
                && m <= max_tokens && (m == 8 || m == max_tokens),
            _ => false,
        },
{
    assert(arms.push(arm).drop_last() =~= arms);
}

spec fn request_pieces(
    route: RequestRoute,
    id: Seq<char>,
    attempt_id: u64,
    max_tokens: u64,
    input: Seq<char>,
) -> Seq<Seq<char>> {
    seq![
        "{\"assistant_prefix\":\"closed_think\",\"attempt_id\":"@,
        decimal_text(attempt_id as int),
        if route == RequestRoute::MultiSlot {
            ",\"experimental_multi_slot\":true"@
        } else {
            Seq::<char>::empty()
        },
        ",\"id\":"@,
        json_quoted(id),
        ",\"max_think_tokens\":1,\"max_tokens\":"@,
        decimal_text(max_tokens as int),
        ","@,
        input,
        ",\"reasoning_effort\":\"none\",\"repeat_penalty\":1.1"@,
        if route == RequestRoute::ContinuousBatch {
            ",\"serve_continuous_batch\":true"@
        } else {
            Seq::<char>::empty()
        },
        ",\"temperature\":0.0,\"top_p\":1.0,\"type\":\"generate\"}"@,
    ]
}

proof fn lemma_join_12(p: Seq<Seq<char>>)
    requires
        p.len() == 12,
    ensures
        joined_texts(p, 12) == p[0] + p[1] + p[2] + p[3] + p[4] + p[5] + p[6] + p[7] + p[8] + p[9]
            + p[10] + p[11],
{
    reveal_with_fuel(joined_texts, 13);
}

/// A request carries what it was made of: its attempt, its id, its budget and its
/// input, and the opt-in of its route and no other route's.
pub proof fn law_requests_carry_their_parts(
    route: RequestRoute,
    id: Seq<char>,
    attempt_id: u64,
    max_tokens: u64,
    input: Seq<char>,
)
    ensures
        ({
            let t = request_text(route, id, attempt_id, max_tokens, input);
            let plain = request_text(RequestRoute::Plain, id, attempt_id, max_tokens, input);
            &&& occurs(t, ",\"id\":"@ + json_quoted(id))
            &&& occurs(
                t,
                ",\"max_think_tokens\":1,\"max_tokens\":"@ + decimal_text(max_tokens as int),
            )
            &&& occurs(
                t,
                "{\"assistant_prefix\":\"closed_think\",\"attempt_id\":"@ + decimal_text(
                    attempt_id as int,
                ),
            )
            &&& occurs(t, ","@ + input)
            &&& route == RequestRoute::MultiSlot ==> occurs(
                t,
                ",\"experimental_multi_slot\":true"@ + ",\"id\":"@,
            ) && t.len() == plain.len() + ",\"experimental_multi_slot\":true"@.len()
            &&& route == RequestRoute::ContinuousBatch ==> occurs(
                t,
                ",\"serve_continuous_batch\":true"@
                    + ",\"temperature\":0.0,\"top_p\":1.0,\"type\":\"generate\"}"@,
            ) && t.len() == plain.len() + ",\"serve_continuous_batch\":true"@.len()
        }),
{
    let p = request_pieces(route, id, attempt_id, max_tokens, input);
    lemma_join_12(p);
    assert(request_text(route, id, attempt_id, max_tokens, input) == joined_texts(p, 12));
    lemma_pieces_occur(p, 12, 0);
    lemma_pieces_occur(p, 12, 2);
    lemma_pieces_occur(p, 12, 3);
    lemma_pieces_occur(p, 12, 5);
    lemma_pieces_occur(p, 12, 7);
    lemma_pieces_occur(p, 12, 10);
}

/// A second turn carries its whole conversation in order: the first prompt and the
/// next as the user's, the answer between them as the assistant's.
pub proof fn law_second_turns_carry_the_conversation(
    first: Seq<char>,
    answer: Seq<char>,
    next: Seq<char>,
)
    ensures
        ({
            let t = messages_member(first, answer, next);
            &&& occurs(t, "\"messages\":[{\"content\":"@ + json_quoted(first))
            &&& occurs(
                t,
                json_quoted(first) + ",\"role\":\"user\"},{\"content\":"@,
            )
            &&& occurs(t, ",\"role\":\"user\"},{\"content\":"@ + json_quoted(answer))
            &&& occurs(t, json_quoted(answer) + ",\"role\":\"assistant\"},{\"content\":"@)
            &&& occurs(t, ",\"role\":\"assistant\"},{\"content\":"@ + json_quoted(next))
            &&& occurs(t, json_quoted(next) + ",\"role\":\"user\"}]"@)
        }),
{
    let p = seq![
        "\"messages\":[{\"content\":"@,
        json_quoted(first),
        ",\"role\":\"user\"},{\"content\":"@,
        json_quoted(answer),
        ",\"role\":\"assistant\"},{\"content\":"@,
        json_quoted(next),
        ",\"role\":\"user\"}]"@,
    ];
    lemma_join_7(p);
    assert(messages_member(first, answer, next) == joined_texts(p, 7));
    lemma_pieces_occur(p, 7, 0);
    lemma_pieces_occur(p, 7, 1);
    lemma_pieces_occur(p, 7, 2);
    lemma_pieces_occur(p, 7, 3);
    lemma_pieces_occur(p, 7, 4);
    lemma_pieces_occur(p, 7, 5);
}

proof fn lemma_join_7(p: Seq<Seq<char>>)
    requires
        p.len() == 7,
    ensures
        joined_texts(p, 7) == p[0] + p[1] + p[2] + p[3] + p[4] + p[5] + p[6],
{
    reveal_with_fuel(joined_texts, 8);
}

/// Streams side by side have prompts of their own: no two of the eight are the
/// same.
pub proof fn law_stream_prompts_are_distinct(i: int, j: int)
    requires
        0 <= i < j < 8,
    ensures
        prompt_text(i) != prompt_text(j),
{
    reveal_strlit("The capital of France is");
    reveal_strlit("Once upon a time, in a distant galaxy,");
    reveal_strlit("The recipe for a good cup of tea starts with");
    reveal_strlit("In machine learning, gradient descent works by");
    reveal_strlit("The history of the printing press begins");
    reveal_strlit("A well-designed database index avoids");
    reveal_strlit("The difference between TCP and UDP is");
    reveal_strlit("To sort a list in linear time you must");
    assert(prompt_text(0).len() == 24 && prompt_text(0)[0] == 'T');
    assert(prompt_text(1).len() == 38 && prompt_text(1)[0] == 'O');
    assert(prompt_text(2).len() == 44 && prompt_text(2)[0] == 'T');
    assert(prompt_text(3).len() == 46 && prompt_text(3)[0] == 'I');
    assert(prompt_text(4).len() == 40 && prompt_text(4)[0] == 'T');
    assert(prompt_text(5).len() == 37 && prompt_text(5)[0] == 'A');
    assert(prompt_text(6).len() == 37 && prompt_text(6)[0] == 'T');
    assert(prompt_text(7).len() == 38 && prompt_text(7)[0] == 'T');
    if prompt_text(i) == prompt_text(j) {
        assert(prompt_text(i).len() == prompt_text(j).len() && prompt_text(i)[0] == prompt_text(j)[0]);
    }
}

/// The first part that is no number is the list's fault, whatever follows.
pub proof fn law_the_first_bad_part_is_the_fault(parts: Seq<Seq<char>>, x: Seq<char>)
    ensures
        part_values(parts) is Err ==> part_values(parts.push(x)) == part_values(parts),
        part_values(parts) is Ok && trimmed(x).len() > 0 && unsigned_value(trimmed(x)) is None
            ==> part_values(parts.push(x)) == Err::<Seq<usize>, ConcurrencyFault>(
            ConcurrencyFault::NotANumber(trimmed(x)),
        ),
{
    assert(parts.push(x).drop_last() =~= parts);
}

} // verus!
