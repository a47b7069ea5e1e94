//! Text helpers: characters of a string, decimal numbers, trimming, splitting
//! and searching, each with its meaning on the sequence of characters.

use vstd::prelude::*;
use vstd::string::StringExecFns;

verus! {

/// `String::push` of the standard library: appends one character at the end.
pub assume_specification[ String::push ](s: &mut String, c: char)
    ensures
        final(s)@ == old(s)@.push(c),
;

/// The characters of `s`.
pub fn chars_of(s: &str) -> (r: Vec<char>)
    ensures
        r@ == s@,
{
    let mut out: Vec<char> = Vec::new();
    for c in it: s.chars()
        invariant
            it.seq() == s@,
            out@ == s@.take(it.index() as int),
    {
        out.push(c);
        assert(out@ =~= s@.take(it.index() + 1));
    }
    assert(s@.take(s@.len() as int) =~= s@);
    out
}

/// The string of the characters `from..to` of `chars`.
pub fn string_of(chars: &Vec<char>, from: usize, to: usize) -> (r: String)
    requires
        from <= to <= chars@.len(),
    ensures
        r@ == chars@.subrange(from as int, to as int),
{
    let mut out: String = String::new();
    let mut i: usize = from;
    while i < to
        invariant
            from <= i <= to <= chars@.len(),
            out@ == chars@.subrange(from as int, i as int),
        decreases to - i,
    {
        out.push(chars[i]);
        i = i + 1;
        assert(out@ =~= chars@.subrange(from as int, i as int));
    }
    out
}

/// `a` followed by `b`.
pub fn join2(a: &str, b: &str) -> (r: String)
    ensures
        r@ == a@ + b@,
{
    let mut out: String = String::from_str(a);
    out.append(b);
    out
}

/// `a`, `b` and `c` in a row.
pub fn join3(a: &str, b: &str, c: &str) -> (r: String)
    ensures
        r@ == a@ + b@ + c@,
{
    let mut out: String = String::from_str(a);
    out.append(b);
    out.append(c);
    out
}

// ---- Decimal numbers ----

/// The character of a decimal digit.
pub open spec fn digit_char(d: int) -> char {
    if d == 0 {
        '0'
    } else if d == 1 {
        '1'
    } else if d == 2 {
        '2'
    } else if d == 3 {
        '3'
    } else if d == 4 {
        '4'
    } else if d == 5 {
        '5'
    } else if d == 6 {
        '6'
    } else if d == 7 {
        '7'
    } else if d == 8 {
        '8'
    } else {
        '9'
    }
}

/// A number in decimal, without leading zeros.
pub open spec fn decimal_text(n: int) -> Seq<char>
    decreases n,
{
    if n < 10 {
        seq![digit_char(n)]
    } else {
        decimal_text(n / 10).push(digit_char(n % 10))
    }
}

fn digit(d: u64) -> (c: char)
    requires
        d < 10,
    ensures
        c == digit_char(d as int),
{
    if d == 0 {
        '0'
    } else if d == 1 {
        '1'
    } else if d == 2 {
        '2'
    } else if d == 3 {
        '3'
    } else if d == 4 {
        '4'
    } else if d == 5 {
        '5'
    } else if d == 6 {
        '6'
    } else if d == 7 {
        '7'
    } else if d == 8 {
        '8'
    } else {
        '9'
    }
}

/// A number in decimal.
pub fn decimal(n: u64) -> (r: String)
    ensures
        r@ == decimal_text(n as int),
    decreases n,
{
    if n < 10 {
        let mut out: String = String::new();
        out.push(digit(n));
        assert(out@ =~= decimal_text(n as int));
        out
    } else {
        let mut out: String = decimal(n / 10);
        out.push(digit(n % 10));
        out
    }
}

/// Appends a number in decimal.
pub fn append_decimal(out: &mut String, n: u64)
    ensures
        final(out)@ == old(out)@ + decimal_text(n as int),
{
    let t: String = decimal(n);
    out.append(t.as_str());
}

/// The value of a decimal digit.
pub open spec fn digit_value(c: char) -> Option<int> {
    if '0' <= c <= '9' {
        Some(c as int - '0' as int)
    } else {
        None
    }
}

/// The number that a nonempty run of decimal digits denotes; `None` if it is
/// empty or holds anything else.
pub open spec fn digits_value(s: Seq<char>) -> Option<int>
    decreases s.len(),
{
    if s.len() == 0 {
        None
    } else if s.len() == 1 {
        digit_value(s[0])
    } else {
        match (digits_value(s.drop_last()), digit_value(s.last())) {
            (Some(h), Some(d)) => Some(h * 10 + d),
            _ => None,
        }
    }
}

/// The number that `s` denotes: digits, with an optional plus sign in front.
pub open spec fn unsigned_value(s: Seq<char>) -> Option<int> {
    if s.len() > 0 && s[0] == '+' {
        digits_value(s.skip(1))
    } else {
        digits_value(s)
    }
}

proof fn lemma_digits_prefix(s: Seq<char>, i: int)
    requires
        0 < i <= s.len(),
        digits_value(s) is Some,
    ensures
        digits_value(s.take(i)) is Some,
        0 <= digits_value(s.take(i))->Some_0 <= digits_value(s)->Some_0,
    decreases s.len(),
{
    if i == s.len() {
        assert(s.take(i) =~= s);
        if s.len() > 1 {
            lemma_digits_prefix(s.drop_last(), i - 1);
        }
    } else {
        lemma_digits_prefix(s.drop_last(), i);
        assert(s.drop_last().take(i) =~= s.take(i));
    }
}

/// Reads an unsigned 64-bit number: digits with an optional plus sign in
/// front; `None` for anything else or a number that does not fit.
pub fn parse_u64(chars: &Vec<char>, from: usize, to: usize) -> (r: Option<u64>)
    requires
        from <= to <= chars@.len(),
    ensures
        ({
            let v = unsigned_value(chars@.subrange(from as int, to as int));
            match r {
                Some(n) => v == Some(n as int),
                None => v is None || v->Some_0 > u64::MAX,
            }
        }),
{
    let ghost all = chars@.subrange(from as int, to as int);
    let mut start: usize = from;
    if start < to && chars[start] == '+' {
        start = start + 1;
    }
    let ghost run = chars@.subrange(start as int, to as int);
    assert(run =~= if all.len() > 0 && all[0] == '+' {
        all.skip(1)
    } else {
        all
    });
    if start == to {
        return None;
    }
    let mut i: usize = start;
    let mut n: u64 = 0;
    while i < to
        invariant
            from <= start <= i <= to <= chars@.len(),
            start < to,
            run == chars@.subrange(start as int, to as int),
            all == chars@.subrange(from as int, to as int),
            unsigned_value(all) == digits_value(run),
            i > start ==> digits_value(run.take(i - start)) == Some(n as int),
            i == start ==> n == 0,
        decreases to - i,
    {
        let c: char = chars[i];
        let ghost next = run.take(i + 1 - start);
        proof {
            assert(next.drop_last() =~= run.take(i - start));
            assert(next.last() == c);
            if digits_value(run) is Some {
                lemma_digits_prefix(run, i + 1 - start);
            }
        }
        if !('0' <= c && c <= '9') {
            assert(digits_value(next) is None);
            return None;
        }
        let d: u64 = (c as u64) - ('0' as u64);
        assert(digits_value(next) == Some(n * 10 + d));
        match n.checked_mul(10) {
            Some(m) => match m.checked_add(d) {
                Some(k) => {
                    n = k;
                },
                None => {
                    return None;
                },
            },
            None => {
                return None;
            },
        }
        i = i + 1;
    }
    assert(run.take(to - start) =~= run);
    Some(n)
}

// ---- White space ----

/// The characters that Unicode calls white space.
pub open spec fn white_space(c: char) -> bool {
    let v = c as u32;
    ||| 0x9 <= v <= 0xd
    ||| v == 0x20
    ||| v == 0x85
    ||| v == 0xa0
    ||| v == 0x1680
    ||| 0x2000 <= v <= 0x200a
    ||| v == 0x2028
    ||| v == 0x2029
    ||| v == 0x202f
    ||| v == 0x205f
    ||| v == 0x3000
}

/// Whether Unicode calls `c` white space.
pub fn is_white_space(c: char) -> (r: bool)
    ensures
        r == white_space(c),
{
    let v: u32 = c as u32;
    (0x9 <= v && v <= 0xd) || v == 0x20 || v == 0x85 || v == 0xa0 || v == 0x1680 || (0x2000 <= v
        && v <= 0x200a) || v == 0x2028 || v == 0x2029 || v == 0x202f || v == 0x205f || v == 0x3000
}

/// `s` without the white space in front.
pub open spec fn trimmed_start(s: Seq<char>) -> Seq<char>
    decreases s.len(),
{
    if s.len() > 0 && white_space(s[0]) {
        trimmed_start(s.skip(1))
    } else {
        s
    }
}

/// `s` without the white space at the end.
pub open spec fn trimmed_end(s: Seq<char>) -> Seq<char>
    decreases s.len(),
{
    if s.len() > 0 && white_space(s.last()) {
        trimmed_end(s.drop_last())
    } else {
        s
    }
}

/// `s` without white space at either end.
pub open spec fn trimmed(s: Seq<char>) -> Seq<char> {
    trimmed_end(trimmed_start(s))
}

/// The bounds of `from..to` of `chars` without white space at either end.
pub fn trim_range(chars: &Vec<char>, from: usize, to: usize) -> (r: (usize, usize))
    requires
        from <= to <= chars@.len(),
    ensures
        from <= r.0 <= r.1 <= to,
        chars@.subrange(r.0 as int, r.1 as int) == trimmed(
            chars@.subrange(from as int, to as int),
        ),
{
    let ghost whole = chars@.subrange(from as int, to as int);
    let mut a: usize = from;
    while a < to && is_white_space(chars[a])
        invariant
            from <= a <= to <= chars@.len(),
            trimmed_start(chars@.subrange(a as int, to as int)) == trimmed_start(whole),
        decreases to - a,
    {
        assert(chars@.subrange(a as int, to as int).skip(1) =~= chars@.subrange(
            a + 1,
            to as int,
        ));
        a = a + 1;
    }
    let ghost front = chars@.subrange(a as int, to as int);
    let mut b: usize = to;
    while a < b && is_white_space(chars[b - 1])
        invariant
            from <= a <= b <= to <= chars@.len(),
            trimmed_end(chars@.subrange(a as int, b as int)) == trimmed_end(front),
        decreases b,
    {
        assert(chars@.subrange(a as int, b as int).drop_last() =~= chars@.subrange(
            a as int,
            b - 1,
        ));
        b = b - 1;
    }
    (a, b)
}

// ---- Searching ----

/// `needle` occurs in `hay`.
pub open spec fn occurs(hay: Seq<char>, needle: Seq<char>) -> bool {
    exists|i: int|
        0 <= i <= hay.len() - needle.len() && #[trigger] hay.subrange(i, i + needle.len())
            == needle
}

fn matches_at(hay: &Vec<char>, needle: &Vec<char>, at: usize) -> (r: bool)
    requires
        at + needle@.len() <= hay@.len(),
    ensures
        r == (hay@.subrange(at as int, at + needle@.len()) == needle@),
{
    let mut k: usize = 0;
    while k < needle.len()
        invariant
            k <= needle@.len(),
            at + needle@.len() <= hay.len(),
            forall|j: int| 0 <= j < k ==> hay@[at + j] == needle@[j],
        decreases needle@.len() - k,
    {
        if hay[at + k] != needle[k] {
            assert(hay@.subrange(at as int, at + needle@.len())[k as int] != needle@[k as int]);
            return false;
        }
        k = k + 1;
    }
    assert(hay@.subrange(at as int, at + needle@.len()) =~= needle@);
    true
}

/// Whether `needle` occurs in `hay`.
pub fn contains(hay: &Vec<char>, needle: &str) -> (r: bool)
    ensures
        r == occurs(hay@, needle@),
{
    let pat: Vec<char> = chars_of(needle);
    if pat.len() > hay.len() {
        return false;
    }
    let last: usize = hay.len() - pat.len();
    let mut i: usize = 0;
    loop
        invariant
            pat@ == needle@,
            pat@.len() <= hay@.len(),
            last == hay@.len() - pat@.len(),
            i <= last,
            forall|j: int|
                0 <= j < i ==> #[trigger] hay@.subrange(j, j + needle@.len()) != needle@,
        decreases last - i,
    {
        if matches_at(hay, &pat, i) {
            return true;
        }
        if i == last {
            return false;
        }
        i = i + 1;
    }
}

/// `c` in lower case if it is an ASCII letter.
pub open spec fn ascii_lower(c: char) -> char {
    if 'A' <= c <= 'Z' {
        ((c as u8 - 'A' as u8) + 'a' as u8) as u8 as char
    } else {
        c
    }
}

/// The characters of `s`, ASCII letters in lower case.
pub fn lower_chars(s: &str) -> (r: Vec<char>)
    ensures
        r@ == s@.map_values(|c: char| ascii_lower(c)),
{
    let cs: Vec<char> = chars_of(s);
    let mut out: Vec<char> = Vec::new();
    let mut i: usize = 0;
    while i < cs.len()
        invariant
            i <= cs@.len(),
            cs@ == s@,
            out@ == s@.take(i as int).map_values(|c: char| ascii_lower(c)),
        decreases cs@.len() - i,
    {
        let c: char = cs[i];
        if 'A' <= c && c <= 'Z' {
            out.push(((c as u8 - 'A' as u8) + 'a' as u8) as char);
        } else {
            out.push(c);
        }
        i = i + 1;
        assert(out@ =~= s@.take(i as int).map_values(|c: char| ascii_lower(c)));
    }
    assert(s@.take(i as int) =~= s@);
    out
}

/// Whether two strings hold the same characters.
pub fn same_text(a: &str, b: &str) -> (r: bool)
    ensures
        r == (a@ == b@),
{
    let x: Vec<char> = chars_of(a);
    let y: Vec<char> = chars_of(b);
    if x.len() != y.len() {
        return false;
    }
    let r: bool = matches_at(&x, &y, 0);
    assert(x@.subrange(0, y@.len() as int) =~= x@);
    r
}

// ---- Decimal texts ----

pub(crate) proof fn lemma_decimal_digits(n: int, i: int)
    requires
        n >= 0,
        0 <= i < decimal_text(n).len(),
    ensures
        '0' <= decimal_text(n)[i] <= '9',
    decreases n,
{
    if n >= 10 && i < decimal_text(n).len() - 1 {
        lemma_decimal_digits(n / 10, i);
    }
}

pub(crate) proof fn lemma_decimal_nonempty(n: int)
    ensures
        decimal_text(n).len() >= 1,
    decreases n,
{
    if n >= 10 {
        lemma_decimal_nonempty(n / 10);
    }
}

pub(crate) proof fn lemma_decimal_injective(a: int, b: int)
    requires
        a >= 0,
        b >= 0,
        decimal_text(a) == decimal_text(b),
    ensures
        a == b,
    decreases a,
{
    lemma_decimal_nonempty(a / 10);
    lemma_decimal_nonempty(b / 10);
    if a >= 10 && b >= 10 {
        let x = decimal_text(a);
        let y = decimal_text(b);
        assert(x.drop_last() =~= decimal_text(a / 10));
        assert(y.drop_last() =~= decimal_text(b / 10));
        lemma_decimal_injective(a / 10, b / 10);
        assert(x.last() == digit_char(a % 10));
        assert(y.last() == digit_char(b % 10));
    } else if a < 10 && b < 10 {
        assert(decimal_text(a)[0] == digit_char(a));
        assert(decimal_text(b)[0] == digit_char(b));
    } else if a >= 10 {
        assert(decimal_text(a).len() >= 2);
    } else {
        assert(decimal_text(b).len() >= 2);
    }
}

/// Numbers in front of the same stop sign are the same.
pub(crate) proof fn lemma_number_before_stop(a: int, b: int, stop: char, x: Seq<char>, y: Seq<char>)
    requires
        a >= 0,
        b >= 0,
        !('0' <= stop <= '9'),
        x.len() > 0,
        y.len() > 0,
        x[0] == stop,
        y[0] == stop,
        decimal_text(a) + x == decimal_text(b) + y,
    ensures
        a == b,
        x == y,
{
    let p = decimal_text(a);
    let q = decimal_text(b);
    if p.len() < q.len() {
        assert((p + x)[p.len() as int] == stop);
        assert((q + y)[p.len() as int] == q[p.len() as int]);
        lemma_decimal_digits(b, p.len() as int);
    }
    if q.len() < p.len() {
        assert((q + y)[q.len() as int] == stop);
        assert((p + x)[q.len() as int] == p[q.len() as int]);
        lemma_decimal_digits(a, q.len() as int);
    }
    assert(p =~= (p + x).take(p.len() as int));
    assert(q =~= (q + y).take(q.len() as int));
    lemma_decimal_injective(a, b);
    assert(x =~= (p + x).skip(p.len() as int));
    assert(y =~= (q + y).skip(q.len() as int));
}

/// A number's decimal text denotes that number: it reads back, it has no sign and
/// no leading zero, and no other number has it.
pub proof fn law_decimals_read_back(n: int, other: int)
    requires
        n >= 0,
        other >= 0,
    ensures
        unsigned_value(decimal_text(n)) == Some(n),
        n > 0 ==> decimal_text(n)[0] != '0',
        decimal_text(n) == decimal_text(other) ==> n == other,
    decreases n,
{
    lemma_decimal_nonempty(n);
    lemma_decimal_digits(n, 0);
    lemma_digits_read_back(n);
    if decimal_text(n) == decimal_text(other) {
        lemma_decimal_injective(n, other);
    }
}

proof fn lemma_digits_read_back(n: int)
    requires
        n >= 0,
    ensures
        digits_value(decimal_text(n)) == Some(n),
        n > 0 ==> decimal_text(n)[0] != '0',
    decreases n,
{
    lemma_decimal_nonempty(n / 10);
    if n >= 10 {
        lemma_digits_read_back(n / 10);
        let t = decimal_text(n);
        assert(t.drop_last() =~= decimal_text(n / 10));
        assert(t[0] == decimal_text(n / 10)[0]);
        assert(n == (n / 10) * 10 + n % 10);
    }
}

// ---- Laws of trimming and searching ----

/// Trimming takes the white space at both ends and nothing else.
pub proof fn law_trimming_takes_the_ends(front: Seq<char>, text: Seq<char>, back: Seq<char>)
    requires
        forall|i: int| 0 <= i < front.len() ==> white_space(#[trigger] front[i]),
        forall|i: int| 0 <= i < back.len() ==> white_space(#[trigger] back[i]),
        text.len() > 0 ==> !white_space(text[0]) && !white_space(text.last()),
    ensures
        trimmed(front + text + back) == text,
{
    lemma_trimmed_start(front, text + back);
    assert(front + text + back =~= front + (text + back));
    if text.len() > 0 {
        assert((text + back)[0] == text[0]);
        assert(trimmed_start(text + back) == text + back);
        lemma_trimmed_end(text, back);
    } else {
        assert(text + back =~= back);
        assert(back + Seq::<char>::empty() =~= back);
        lemma_trimmed_start(back, Seq::empty());
        assert(trimmed_start(back) =~= text);
        assert(trimmed_start(text + back) == trimmed_start(back));
        assert(trimmed_end(text) == text);
    }
}

proof fn lemma_trimmed_start(front: Seq<char>, rest: Seq<char>)
    requires
        forall|i: int| 0 <= i < front.len() ==> white_space(#[trigger] front[i]),
    ensures
        trimmed_start(front + rest) == trimmed_start(rest),
    decreases front.len(),
{
    if front.len() > 0 {
        let f = front.skip(1);
        assert forall|i: int| 0 <= i < f.len() implies white_space(#[trigger] f[i]) by {
            assert(white_space(front[i + 1]));
        }
        lemma_trimmed_start(f, rest);
        assert((front + rest)[0] == front[0]);
        assert((front + rest).skip(1) =~= f + rest);
    } else {
        assert(front + rest =~= rest);
    }
}

proof fn lemma_trimmed_end(text: Seq<char>, back: Seq<char>)
    requires
        forall|i: int| 0 <= i < back.len() ==> white_space(#[trigger] back[i]),
        text.len() > 0,
        !white_space(text.last()),
    ensures
        trimmed_end(text + back) == text,
    decreases back.len(),
{
    if back.len() > 0 {
        let b = back.drop_last();
        assert forall|i: int| 0 <= i < b.len() implies white_space(#[trigger] b[i]) by {
            assert(white_space(back[i]));
        }
        lemma_trimmed_end(text, b);
        assert((text + back).last() == back.last());
        assert((text + back).drop_last() =~= text + b);
        assert(white_space(back[back.len() - 1]));
    } else {
        assert(text + back =~= text);
    }
}

/// Space, tab and line ends are white space; letters, digits and commas are not.
pub proof fn law_digits_are_no_white_space(c: char)
    ensures
        c == ' ' || c == '\t' || c == '\n' || c == '\r' ==> white_space(c),
        '0' <= c <= '9' || 'a' <= c <= 'z' || 'A' <= c <= 'Z' || c == ',' || c == '+' || c == '-'
            ==> !white_space(c),
{
}

/// A text occurs wherever it stands in another, and a text that occurs is no
/// longer than the other.
pub proof fn law_occurrences_are_parts(before: Seq<char>, needle: Seq<char>, after: Seq<char>)
    ensures
        occurs(before + needle + after, needle),
        occurs(before, needle) ==> needle.len() <= before.len(),
{
    let t = before + needle + after;
    assert(t.subrange(before.len() as int, (before.len() + needle.len()) as int) =~= needle);
}

/// Upper-case ASCII letters become lower-case ones and nothing else changes.
pub proof fn law_lower_case_is_ascii_only(c: char)
    ensures
        'A' <= c <= 'Z' ==> 'a' <= ascii_lower(c) <= 'z' && ascii_lower(c) as int - 'a' as int
            == c as int - 'A' as int,
        !('A' <= c <= 'Z') ==> ascii_lower(c) == c,
{
}

// ---- Texts made of pieces ----

/// The first `n` pieces one after the other.
pub open spec fn joined_texts(parts: Seq<Seq<char>>, n: int) -> Seq<char>
    decreases n,
{
    if n <= 0 {
        Seq::empty()
    } else if n == 1 {
        parts[0]
    } else {
        joined_texts(parts, n - 1) + parts[n - 1]
    }
}

proof fn lemma_occurs_more(a: Seq<char>, b: Seq<char>, x: Seq<char>)
    requires
        occurs(a, x),
    ensures
        occurs(a + b, x),
{
    let i = choose|i: int|
        0 <= i <= a.len() - x.len() && #[trigger] a.subrange(i, i + x.len()) == x;
    assert((a + b).subrange(i, i + x.len()) =~= x);
}

proof fn lemma_occurs_last(a: Seq<char>, b: Seq<char>, c: Seq<char>)
    ensures
        occurs(a + b + c, b + c),
{
    let t = a + b + c;
    let x = b + c;
    let i = a.len() as int;
    assert(t.subrange(i, i + x.len()) =~= x);
}

proof fn lemma_occurs_whole(x: Seq<char>)
    ensures
        occurs(x, x),
{
    assert(x.subrange(0, 0 + x.len() as int) =~= x);
}

/// Two pieces that follow one another occur together in the whole.
pub(crate) proof fn lemma_pieces_occur(parts: Seq<Seq<char>>, n: int, k: int)
    requires
        0 <= k,
        k + 1 < n <= parts.len(),
    ensures
        occurs(joined_texts(parts, n), parts[k] + parts[k + 1]),
    decreases n,
{
    if k + 2 < n {
        lemma_pieces_occur(parts, n - 1, k);
        lemma_occurs_more(
            joined_texts(parts, n - 1),
            parts[n - 1],
            parts[k] + parts[k + 1],
        );
    } else {
        reveal_with_fuel(joined_texts, 3);
        if k == 0 {
            lemma_occurs_whole(parts[0] + parts[1]);
        } else {
            lemma_occurs_last(joined_texts(parts, k), parts[k], parts[k + 1]);
        }
    }
}

/// A number may have a plus sign in front; a text with anything else in it, or with
/// nothing, is no number.
pub proof fn law_numbers_are_digits(n: int, s: Seq<char>, i: int)
    requires
        n >= 0,
    ensures
        unsigned_value(seq!['+'] + decimal_text(n)) == Some(n),
        unsigned_value(Seq::<char>::empty()) is None,
        0 <= i < s.len() && !('0' <= s[i] <= '9') && !(i == 0 && s[i] == '+') ==> unsigned_value(
            s,
        ) is None,
{
    lemma_digits_read_back(n);
    assert((seq!['+'] + decimal_text(n)).skip(1) =~= decimal_text(n));
    if 0 <= i < s.len() && !('0' <= s[i] <= '9') && !(i == 0 && s[i] == '+') {
        if s[0] == '+' {
            assert(s.skip(1)[i - 1] == s[i]);
            lemma_no_number(s.skip(1), i - 1);
        } else {
            lemma_no_number(s, i);
        }
    }
}

proof fn lemma_no_number(s: Seq<char>, i: int)
    requires
        0 <= i < s.len(),
        !('0' <= s[i] <= '9'),
    ensures
        digits_value(s) is None,
    decreases s.len(),
{
    if s.len() > 1 && i < s.len() - 1 {
        assert(s.drop_last()[i] == s[i]);
        lemma_no_number(s.drop_last(), i);
    }
}

} // verus!
