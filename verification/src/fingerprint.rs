//! FNV-1a fingerprints of token prefixes, word lists and byte strings.
//!
//! Deterministic across processes and cheap. Not cryptographic: a fingerprint
//! only has to separate inputs that diverge.

use vstd::prelude::*;

verus! {

/// Start value of the 64-bit FNV-1a hash.
pub const FNV_OFFSET: u64 = 0xcbf29ce484222325;

/// Multiplier of the 64-bit FNV-1a hash.
pub const FNV_PRIME: u64 = 0x100000001b3;

/// One round: xor the byte in, then multiply modulo 2^64.
pub open spec fn fnv_round(h: u64, b: u8) -> u64 {
    (h ^ (b as u64)).wrapping_mul(FNV_PRIME)
}

/// The hash continued from `h` over `bytes`, front to back.
pub open spec fn fnv_fold(h: u64, bytes: Seq<u8>) -> u64
    decreases bytes.len(),
{
    if bytes.len() == 0 {
        h
    } else {
        fnv_round(fnv_fold(h, bytes.drop_last()), bytes.last())
    }
}

/// The `n` low bytes of `v`, least significant first.
pub open spec fn le_bytes(v: int, n: nat) -> Seq<u8>
    decreases n,
{
    if n == 0 {
        Seq::empty()
    } else {
        seq![(v % 256) as u8] + le_bytes(v / 256, (n - 1) as nat)
    }
}

/// The little-endian bytes of the words, `n` per word.
pub open spec fn words_bytes(words: Seq<int>, n: nat) -> Seq<u8>
    decreases words.len(),
{
    if words.len() == 0 {
        Seq::empty()
    } else {
        words_bytes(words.drop_last(), n) + le_bytes(words.last(), n)
    }
}

/// Fingerprint of a token prefix: FNV-1a over the little-endian token bytes.
pub open spec fn token_fingerprint(tokens: Seq<u32>) -> u64 {
    fnv_fold(FNV_OFFSET, words_bytes(tokens.map_values(|t: u32| t as int), 4))
}

/// Fingerprint of a word list: FNV-1a over the little-endian word bytes.
pub open spec fn word_fingerprint(words: Seq<u64>) -> u64 {
    fnv_fold(FNV_OFFSET, words_bytes(words.map_values(|w: u64| w as int), 8))
}

proof fn lemma_fold_concat(h: u64, a: Seq<u8>, b: Seq<u8>)
    ensures
        fnv_fold(h, a + b) == fnv_fold(fnv_fold(h, a), b),
    decreases b.len(),
{
    if b.len() == 0 {
        assert(a + b =~= a);
    } else {
        assert((a + b).drop_last() =~= a + b.drop_last());
        lemma_fold_concat(h, a, b.drop_last());
    }
}

proof fn lemma_words_concat(a: Seq<int>, b: Seq<int>, n: nat)
    ensures
        words_bytes(a + b, n) == words_bytes(a, n) + words_bytes(b, n),
    decreases b.len(),
{
    if b.len() == 0 {
        assert(a + b =~= a);
        assert(words_bytes(a, n) + words_bytes(b, n) =~= words_bytes(a, n));
    } else {
        assert((a + b).drop_last() =~= a + b.drop_last());
        lemma_words_concat(a, b.drop_last(), n);
        assert(words_bytes(a + b, n) =~= words_bytes(a, n) + words_bytes(b, n));
    }
}

/// A fingerprint extends: that of a longer prefix is that of the shorter one
/// carried on over the tokens in between, so prefixes with equal fingerprints
/// keep equal fingerprints under the same continuation.
pub proof fn law_fingerprint_extends(prefix: Seq<u32>, rest: Seq<u32>)
    ensures
        token_fingerprint(prefix + rest) == fnv_fold(
            token_fingerprint(prefix),
            words_bytes(rest.map_values(|t: u32| t as int), 4),
        ),
{
    let a = prefix.map_values(|t: u32| t as int);
    let b = rest.map_values(|t: u32| t as int);
    assert((prefix + rest).map_values(|t: u32| t as int) =~= a + b);
    lemma_words_concat(a, b, 4);
    lemma_fold_concat(FNV_OFFSET, words_bytes(a, 4), words_bytes(b, 4));
}

fn fnv_word(h: u64, word: u64, n: usize) -> (r: u64)
    ensures
        r == fnv_fold(h, le_bytes(word as int, n as nat)),
{
    let mut h: u64 = h;
    let mut rest: u64 = word;
    let mut k: usize = 0;
    let ghost h0 = h;
    let ghost all = le_bytes(word as int, n as nat);
    assert(Seq::<u8>::empty() + all =~= all);
    let ghost mut done = Seq::<u8>::empty();
    while k < n
        invariant
            k <= n,
            h == fnv_fold(h0, done),
            all =~= done + le_bytes(rest as int, (n - k) as nat),
        decreases n - k,
    {
        let b: u8 = (rest % 256) as u8;
        proof {
            assert(done.push(b).drop_last() =~= done);
            done = done.push(b);
        }
        h = (h ^ (b as u64)).wrapping_mul(FNV_PRIME);
        rest = rest / 256;
        k = k + 1;
    }
    assert(all =~= done);
    h
}

/// FNV-1a over the little-endian token bytes of a prefix.
pub fn prefix_fingerprint(tokens: &[u32]) -> (h: u64)
    ensures
        h == token_fingerprint(tokens@),
{
    let mut h: u64 = FNV_OFFSET;
    let ghost words = tokens@.map_values(|t: u32| t as int);
    let mut i: usize = 0;
    while i < tokens.len()
        invariant
            i <= tokens@.len(),
            words == tokens@.map_values(|t: u32| t as int),
            h == fnv_fold(FNV_OFFSET, words_bytes(words.take(i as int), 4)),
        decreases tokens@.len() - i,
    {
        h = fnv_word(h, tokens[i] as u64, 4);
        proof {
            assert(words.take(i + 1).drop_last() =~= words.take(i as int));
            lemma_fold_concat(
                FNV_OFFSET,
                words_bytes(words.take(i as int), 4),
                le_bytes(words[i as int], 4),
            );
        }
        i = i + 1;
    }
    assert(words.take(i as int) =~= words);
    h
}

/// FNV-1a over the little-endian bytes of 64-bit words.
pub fn fingerprint_u64(values: &[u64]) -> (h: u64)
    ensures
        h == word_fingerprint(values@),
{
    let mut h: u64 = FNV_OFFSET;
    let ghost words = values@.map_values(|w: u64| w as int);
    let mut i: usize = 0;
    while i < values.len()
        invariant
            i <= values@.len(),
            words == values@.map_values(|w: u64| w as int),
            h == fnv_fold(FNV_OFFSET, words_bytes(words.take(i as int), 8)),
        decreases values@.len() - i,
    {
        h = fnv_word(h, values[i], 8);
        proof {
            assert(words.take(i + 1).drop_last() =~= words.take(i as int));
            lemma_fold_concat(
                FNV_OFFSET,
                words_bytes(words.take(i as int), 8),
                le_bytes(words[i as int], 8),
            );
        }
        i = i + 1;
    }
    assert(words.take(i as int) =~= words);
    h
}

/// FNV-1a over a byte string.
pub fn fingerprint_bytes(bytes: &[u8]) -> (h: u64)
    ensures
        h == fnv_fold(FNV_OFFSET, bytes@),
{
    let mut h: u64 = FNV_OFFSET;
    let mut i: usize = 0;
    while i < bytes.len()
        invariant
            i <= bytes@.len(),
            h == fnv_fold(FNV_OFFSET, bytes@.take(i as int)),
        decreases bytes@.len() - i,
    {
        h = (h ^ (bytes[i] as u64)).wrapping_mul(FNV_PRIME);
        assert(bytes@.take(i + 1).drop_last() =~= bytes@.take(i as int));
        i = i + 1;
    }
    assert(bytes@.take(i as int) =~= bytes@);
    h
}

// ---- What a fingerprint tells apart ----

/// The multiplier has an inverse modulo 2^64.
proof fn lemma_multiplier_is_invertible(x: u64, y: u64)
    requires
        x.wrapping_mul(FNV_PRIME) == y.wrapping_mul(FNV_PRIME),
    ensures
        x == y,
{
    let m: int = 0x1_0000_0000_0000_0000;
    let p = FNV_PRIME as int;
    let inv: int = 14886173955864302971;
    assert(p * inv == 1 + 887285111055 * m) by (nonlinear_arith)
        requires
            p == 1099511628211,
            inv == 14886173955864302971,
            m == 18446744073709551616,
    ;
    lemma_times_and_back(x as int, p, inv, 887285111055, m);
    lemma_times_and_back(y as int, p, inv, 887285111055, m);
    assert(x.wrapping_mul(FNV_PRIME) == (x * p) % m);
    assert(y.wrapping_mul(FNV_PRIME) == (y * p) % m);
}

proof fn lemma_times_and_back(x: int, p: int, inv: int, k: int, m: int)
    requires
        0 <= x < m,
        p * inv == 1 + k * m,
        m > 0,
    ensures
        ((x * p) % m * inv) % m == x,
{
    vstd::arithmetic::div_mod::lemma_mul_mod_noop_left(x * p, inv, m);
    assert(x * p * inv == x + (x * k) * m) by (nonlinear_arith)
        requires
            p * inv == 1 + k * m,
    ;
    vstd::arithmetic::div_mod::lemma_mod_multiples_vanish(x * k, x, m);
    assert(m * (x * k) + x == x + (x * k) * m) by (nonlinear_arith);
    vstd::arithmetic::div_mod::lemma_small_mod(x as nat, m as nat);
}

/// A round tells two states apart, and two bytes.
proof fn lemma_rounds_differ(g: u64, h: u64, a: u8, b: u8)
    ensures
        fnv_round(g, a) == fnv_round(h, a) ==> g == h,
        fnv_round(h, a) == fnv_round(h, b) ==> a == b,
{
    if fnv_round(g, a) == fnv_round(h, a) {
        lemma_multiplier_is_invertible(g ^ (a as u64), h ^ (a as u64));
        let x = a as u64;
        assert(g ^ x == h ^ x ==> g == h) by (bit_vector);
    }
    if fnv_round(h, a) == fnv_round(h, b) {
        lemma_multiplier_is_invertible(h ^ (a as u64), h ^ (b as u64));
        assert(h ^ (a as u64) == h ^ (b as u64) ==> a == b) by (bit_vector);
    }
}

proof fn lemma_fold_differs(g: u64, h: u64, rest: Seq<u8>)
    requires
        fnv_fold(g, rest) == fnv_fold(h, rest),
    ensures
        g == h,
    decreases rest.len(),
{
    if rest.len() > 0 {
        lemma_rounds_differ(
            fnv_fold(g, rest.drop_last()),
            fnv_fold(h, rest.drop_last()),
            rest.last(),
            rest.last(),
        );
        lemma_fold_differs(g, h, rest.drop_last());
    }
}

/// Every byte counts: changing one byte of a text changes its hash, wherever it
/// stands and whatever the hash started from.
pub proof fn law_every_byte_counts(h: u64, front: Seq<u8>, a: u8, b: u8, rest: Seq<u8>)
    requires
        a != b,
    ensures
        fnv_fold(h, front.push(a) + rest) != fnv_fold(h, front.push(b) + rest),
{
    if fnv_fold(h, front.push(a) + rest) == fnv_fold(h, front.push(b) + rest) {
        lemma_fold_concat(h, front.push(a), rest);
        lemma_fold_concat(h, front.push(b), rest);
        lemma_fold_differs(fnv_fold(h, front.push(a)), fnv_fold(h, front.push(b)), rest);
        assert(front.push(a).drop_last() =~= front);
        assert(front.push(b).drop_last() =~= front);
        lemma_rounds_differ(fnv_fold(h, front), fnv_fold(h, front), a, b);
    }
}

proof fn lemma_le_bytes(v: int, w: int, n: nat)
    requires
        0 <= v,
        0 <= w,
    ensures
        le_bytes(v, n).len() == n,
        n == 4 && v < 0x1_0000_0000 && w < 0x1_0000_0000 && le_bytes(v, n) == le_bytes(w, n)
            ==> v == w,
    decreases n,
{
    reveal_with_fuel(le_bytes, 5);
    if n > 0 {
        lemma_le_bytes(v / 256, w / 256, (n - 1) as nat);
    }
    if n == 4 && v < 0x1_0000_0000 && w < 0x1_0000_0000 && le_bytes(v, n) == le_bytes(w, n) {
        let (a, b) = (le_bytes(v, n), le_bytes(w, n));
        assert(a[0] == (v % 256) as u8 && b[0] == (w % 256) as u8);
        assert(a[1] == (v / 256 % 256) as u8 && b[1] == (w / 256 % 256) as u8);
        assert(a[2] == (v / 256 / 256 % 256) as u8 && b[2] == (w / 256 / 256 % 256) as u8);
        assert(a[3] == (v / 256 / 256 / 256 % 256) as u8 && b[3] == (w / 256 / 256 / 256
            % 256) as u8);
    }
}

proof fn lemma_words_len(words: Seq<int>, n: nat)
    requires
        forall|i: int| 0 <= i < words.len() ==> #[trigger] words[i] >= 0,
    ensures
        words_bytes(words, n).len() == n * words.len(),
    decreases words.len(),
{
    if words.len() > 0 {
        assert(words[words.len() - 1] >= 0);
        assert forall|i: int| 0 <= i < words.drop_last().len() implies #[trigger] words.drop_last()[i]
            >= 0 by {
            assert(words[i] >= 0);
        }
        lemma_words_len(words.drop_last(), n);
        lemma_le_bytes(words.last(), words.last(), n);
        let k = words.len() as int;
        assert(n * k == n * (k - 1) + n) by (nonlinear_arith);
    } else {
        assert(n * 0 == 0) by (nonlinear_arith);
    }
}

/// Every token counts: the bytes that a token prefix is fingerprinted by are four
/// for each token, and other tokens have other bytes.
pub proof fn law_tokens_have_their_own_bytes(a: Seq<u32>, b: Seq<u32>)
    ensures
        words_bytes(a.map_values(|t: u32| t as int), 4).len() == 4 * a.len(),
        words_bytes(a.map_values(|t: u32| t as int), 4) == words_bytes(
            b.map_values(|t: u32| t as int),
            4,
        ) ==> a == b,
    decreases a.len(),
{
    let f = |t: u32| t as int;
    let x = a.map_values(f);
    let y = b.map_values(f);
    lemma_words_len(x, 4);
    lemma_words_len(y, 4);
    if words_bytes(x, 4) == words_bytes(y, 4) {
        if a.len() > 0 {
            assert(x.drop_last() =~= a.drop_last().map_values(f));
            assert(y.drop_last() =~= b.drop_last().map_values(f));
            lemma_words_len(x.drop_last(), 4);
            lemma_words_len(y.drop_last(), 4);
            let (p, q) = (words_bytes(x.drop_last(), 4), words_bytes(y.drop_last(), 4));
            let (s, t) = (le_bytes(x.last(), 4), le_bytes(y.last(), 4));
            assert(p =~= (p + s).take(p.len() as int));
            assert(q =~= (q + t).take(q.len() as int));
            assert(s =~= (p + s).skip(p.len() as int));
            assert(t =~= (q + t).skip(q.len() as int));
            lemma_le_bytes(a.last() as int, b.last() as int, 4);
            law_tokens_have_their_own_bytes(a.drop_last(), b.drop_last());
            assert(a =~= a.drop_last().push(a.last()));
            assert(b =~= b.drop_last().push(b.last()));
        } else {
            assert(a =~= b);
        }
    }
}

/// Prompts that differ in one token, and in that only in its low byte, have
/// different fingerprints, wherever the token stands.
pub proof fn law_one_token_changes_the_fingerprint(
    front: Seq<u32>,
    t: u32,
    u: u32,
    rest: Seq<u32>,
)
    requires
        t != u,
        t / 256 == u / 256,
    ensures
        token_fingerprint(front.push(t) + rest) != token_fingerprint(front.push(u) + rest),
{
    lemma_fingerprint_split(front, t, rest);
    lemma_fingerprint_split(front, u, rest);
    let f = |t: u32| t as int;
    law_every_byte_counts(
        FNV_OFFSET,
        words_bytes(front.map_values(f), 4),
        (t % 256) as u8,
        (u % 256) as u8,
        le_bytes((t / 256) as int, 3) + words_bytes(rest.map_values(f), 4),
    );
}

proof fn lemma_fingerprint_split(front: Seq<u32>, t: u32, rest: Seq<u32>)
    ensures
        token_fingerprint(front.push(t) + rest) == fnv_fold(
            FNV_OFFSET,
            words_bytes(front.map_values(|t: u32| t as int), 4).push((t % 256) as u8) + (le_bytes(
                (t / 256) as int,
                3,
            ) + words_bytes(rest.map_values(|t: u32| t as int), 4)),
        ),
{
    let f = |t: u32| t as int;
    let x = front.map_values(f);
    let y = rest.map_values(f);
    assert((front.push(t) + rest).map_values(f) =~= x.push(t as int) + y);
    lemma_words_concat(x.push(t as int), y, 4);
    assert(x.push(t as int).drop_last() =~= x);
    assert(le_bytes(t as int, 4) == seq![(t % 256) as u8] + le_bytes((t / 256) as int, 3));
    assert(words_bytes(x, 4) + le_bytes(t as int, 4) + words_bytes(y, 4) =~= words_bytes(x, 4).push(
        (t % 256) as u8,
    ) + (le_bytes((t / 256) as int, 3) + words_bytes(y, 4)));
}

} // verus!
