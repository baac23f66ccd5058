//! Little-endian limbs: bytes and 32-bit words as digits of unsigned integers.
use vstd::prelude::*;

verus! {

/// The number of byte limbs of a 256-bit integer.
pub const NUM_LIMBS: usize = 32;

/// The number of 32-bit words of a 256-bit integer.
pub const NUM_WORDS: usize = 8;

/// `256^n`.
pub open spec fn pow256(n: nat) -> nat
    decreases n,
{
    if n == 0 {
        1
    } else {
        256 * pow256((n - 1) as nat)
    }
}

/// The value of a polynomial with integer coefficients at 256, lowest coefficient first.
pub open spec fn eval256(c: Seq<int>) -> int
    decreases c.len(),
{
    if c.len() == 0 {
        0
    } else {
        c[0] + 256 * eval256(c.skip(1))
    }
}

/// The bytes as integers.
pub open spec fn ints_of(s: Seq<u8>) -> Seq<int> {
    Seq::new(s.len(), |i: int| s[i] as int)
}

/// The unsigned integer whose little-endian base-256 digits are `s`.
pub open spec fn le_value(s: Seq<u8>) -> nat
    decreases s.len(),
{
    if s.len() == 0 {
        0
    } else {
        s[0] as nat + 256 * le_value(s.skip(1))
    }
}

/// The `width` lowest little-endian base-256 digits of `n`.
pub open spec fn le_limbs(n: nat, width: nat) -> Seq<u8>
    decreases width,
{
    if width == 0 {
        Seq::<u8>::empty()
    } else {
        seq![(n % 256) as u8] + le_limbs(n / 256, (width - 1) as nat)
    }
}

/// The four little-endian bytes of a word.
pub open spec fn word_bytes(w: u32) -> Seq<u8> {
    seq![
        (w % 256) as u8,
        ((w / 0x100) % 256) as u8,
        ((w / 0x1_0000) % 256) as u8,
        ((w / 0x100_0000) % 256) as u8,
    ]
}

/// The word whose little-endian bytes are `b0, b1, b2, b3`.
pub open spec fn word_of_bytes(b0: u8, b1: u8, b2: u8, b3: u8) -> u32 {
    (b0 as int + 0x100 * b1 as int + 0x1_0000 * b2 as int + 0x100_0000 * b3 as int) as u32
}

/// The little-endian bytes of a sequence of words, lowest word first.
pub open spec fn bytes_of_words(words: Seq<u32>) -> Seq<u8> {
    Seq::new(4 * words.len(), |i: int| word_bytes(words[i / 4])[i % 4])
}

/// The words that a sequence of bytes spells, four bytes to a word, lowest first.
pub open spec fn words_of_bytes(bytes: Seq<u8>) -> Seq<u32> {
    Seq::new(
        bytes.len() / 4,
        |i: int| word_of_bytes(bytes[4 * i], bytes[4 * i + 1], bytes[4 * i + 2], bytes[4 * i + 3]),
    )
}

/// The unsigned integer whose little-endian base-`2^32` digits are `words`.
pub open spec fn words_value(words: Seq<u32>) -> nat {
    le_value(bytes_of_words(words))
}

/// `256^n` is positive and grows with `n`.
pub proof fn lemma_pow256_positive(n: nat)
    ensures
        pow256(n) >= 1,
    decreases n,
{
    if n > 0 {
        lemma_pow256_positive((n - 1) as nat);
    }
}

/// `256^(a+b) == 256^a * 256^b`.
pub proof fn lemma_pow256_add(a: nat, b: nat)
    ensures
        pow256(a + b) == pow256(a) * pow256(b),
    decreases a,
{
    if a == 0 {
        assert(pow256(0) == 1);
    } else {
        lemma_pow256_add((a - 1) as nat, b);
        assert(pow256(a + b) == 256 * pow256((a - 1 + b) as nat));
        assert(256 * (pow256((a - 1) as nat) * pow256(b)) == (256 * pow256((a - 1) as nat))
            * pow256(b)) by (nonlinear_arith);
    }
}

/// The value of digits is below `256^len`.
pub proof fn lemma_le_value_bound(s: Seq<u8>)
    ensures
        le_value(s) < pow256(s.len()),
    decreases s.len(),
{
    if s.len() > 0 {
        lemma_le_value_bound(s.skip(1));
    }
}

/// The value of bytes is the value at 256 of the polynomial with those coefficients.
pub proof fn lemma_le_value_is_eval(s: Seq<u8>)
    ensures
        le_value(s) == eval256(ints_of(s)),
    decreases s.len(),
{
    if s.len() > 0 {
        lemma_le_value_is_eval(s.skip(1));
        assert(ints_of(s).skip(1) =~= ints_of(s.skip(1)));
    }
}

/// Decoding the digits of `n` gives `n` back, for every `n` that `width` digits can hold.
pub proof fn lemma_decode_encode(n: nat, width: nat)
    requires
        n < pow256(width),
    ensures
        le_limbs(n, width).len() == width,
        le_value(le_limbs(n, width)) == n,
    decreases width,
{
    if width > 0 {
        lemma_decode_encode(n / 256, (width - 1) as nat);
        let s = le_limbs(n, width);
        assert(s.skip(1) =~= le_limbs(n / 256, (width - 1) as nat));
        assert(s[0] == (n % 256) as u8);
    }
}

/// Without the bound, decoding the `width` lowest digits of `n` gives `n` modulo `256^width`.
pub proof fn lemma_decode_encode_mod(n: nat, width: nat)
    ensures
        le_limbs(n, width).len() == width,
        le_value(le_limbs(n, width)) == n % pow256(width),
    decreases width,
{
    lemma_pow256_positive(width);
    if width > 0 {
        lemma_decode_encode_mod(n / 256, (width - 1) as nat);
        let s = le_limbs(n, width);
        let w1 = (width - 1) as nat;
        assert(s.skip(1) =~= le_limbs(n / 256, w1));
        assert(s[0] == (n % 256) as u8);
        lemma_pow256_positive(w1);
        vstd::arithmetic::div_mod::lemma_mod_breakdown(n as int, 256, pow256(w1) as int);
        assert(256 * pow256(w1) == pow256(width));
    }
}

/// Encoding the value of digits gives the digits back.
pub proof fn lemma_encode_decode(s: Seq<u8>)
    ensures
        le_limbs(le_value(s), s.len()) == s,
    decreases s.len(),
{
    if s.len() == 0 {
        assert(le_limbs(le_value(s), 0) =~= s);
    } else {
        lemma_encode_decode(s.skip(1));
        let n = le_value(s);
        let t = le_value(s.skip(1));
        assert(n == s[0] as nat + 256 * t);
        assert(n % 256 == s[0] as nat && n / 256 == t) by {
            vstd::arithmetic::div_mod::lemma_fundamental_div_mod_converse(
                n as int,
                256,
                t as int,
                s[0] as int,
            );
        }
        assert(le_limbs(n, s.len()) =~= s);
    }
}

/// Digits with the same value and the same length are the same digits.
pub proof fn lemma_le_value_injective(s: Seq<u8>, t: Seq<u8>)
    requires
        s.len() == t.len(),
        le_value(s) == le_value(t),
    ensures
        s == t,
{
    lemma_encode_decode(s);
    lemma_encode_decode(t);
}

/// The value of a concatenation: the second part counts from `256^len` of the first.
pub proof fn lemma_le_value_concat(s: Seq<u8>, t: Seq<u8>)
    ensures
        le_value(s + t) == le_value(s) + pow256(s.len()) * le_value(t),
    decreases s.len(),
{
    if s.len() == 0 {
        assert(s + t =~= t);
        assert(pow256(0) == 1);
        assert(le_value(s) == 0);
    } else {
        lemma_le_value_concat(s.skip(1), t);
        assert((s + t).skip(1) =~= s.skip(1) + t);
        let k = (s.len() - 1) as nat;
        assert((s + t)[0] == s[0]);
        assert(pow256(s.len()) == 256 * pow256(k));
        assert(256 * (pow256(k) * le_value(t)) == (256 * pow256(k)) * le_value(t))
            by (nonlinear_arith);
    }
}

/// Zero digits have the value zero.
pub proof fn lemma_le_value_zeros(s: Seq<u8>)
    requires
        forall|i: int| 0 <= i < s.len() ==> s[i] == 0,
    ensures
        le_value(s) == 0,
    decreases s.len(),
{
    if s.len() > 0 {
        lemma_le_value_zeros(s.skip(1));
    }
}

/// The lowest `n` digits hold the value modulo `256^n`.
pub proof fn lemma_le_value_take(s: Seq<u8>, n: nat)
    requires
        n <= s.len(),
    ensures
        le_value(s.take(n as int)) == le_value(s) % pow256(n),
        le_value(s) < pow256(n) ==> le_value(s.take(n as int)) == le_value(s),
{
    let lo = s.take(n as int);
    let hi = s.skip(n as int);
    assert(lo + hi =~= s);
    lemma_le_value_concat(lo, hi);
    lemma_le_value_bound(lo);
    lemma_pow256_positive(n);
    assert(lo.len() == n);
    assert(pow256(n) * le_value(hi) == le_value(hi) * pow256(n)) by (nonlinear_arith);
    vstd::arithmetic::div_mod::lemma_fundamental_div_mod_converse(
        le_value(s) as int,
        pow256(n) as int,
        le_value(hi) as int,
        le_value(lo) as int,
    );
    if le_value(s) < pow256(n) {
        vstd::arithmetic::div_mod::lemma_small_mod(le_value(s), pow256(n));
    }
}

/// Appending zero digits does not change the value.
pub proof fn lemma_le_value_pad(s: Seq<u8>, z: Seq<u8>)
    requires
        forall|i: int| 0 <= i < z.len() ==> z[i] == 0,
    ensures
        le_value(s + z) == le_value(s),
{
    lemma_le_value_concat(s, z);
    lemma_le_value_zeros(z);
    assert(pow256(s.len()) * 0 == 0) by (nonlinear_arith);
}

/// `256^n` grows with `n`.
pub proof fn lemma_pow256_monotonic(a: nat, b: nat)
    requires
        a <= b,
    ensures
        pow256(a) <= pow256(b),
    decreases b,
{
    if a < b {
        lemma_pow256_monotonic(a, (b - 1) as nat);
    }
}

/// Splitting words into bytes and joining them again gives the words back.
pub proof fn lemma_words_round_trip(words: Seq<u32>)
    ensures
        words_of_bytes(bytes_of_words(words)) == words,
{
    let b = bytes_of_words(words);
    assert forall|i: int| 0 <= i < words.len() implies words_of_bytes(b)[i] == words[i] by {
        let w = words[i];
        assert(b[4 * i] == word_bytes(words[(4 * i) / 4])[(4 * i) % 4]);
        assert(b[4 * i + 1] == word_bytes(words[(4 * i + 1) / 4])[(4 * i + 1) % 4]);
        assert(b[4 * i + 2] == word_bytes(words[(4 * i + 2) / 4])[(4 * i + 2) % 4]);
        assert(b[4 * i + 3] == word_bytes(words[(4 * i + 3) / 4])[(4 * i + 3) % 4]);
        lemma_word_round_trip(w);
    }
    assert(words_of_bytes(b) =~= words);
}

/// One word is the sum of its four bytes, each at its place.
pub proof fn lemma_word_round_trip(w: u32)
    ensures
        word_of_bytes(word_bytes(w)[0], word_bytes(w)[1], word_bytes(w)[2], word_bytes(w)[3])
            == w,
{
    assert(w == (w % 256) + 0x100 * ((w / 0x100) % 256) + 0x1_0000 * ((w / 0x1_0000) % 256)
        + 0x100_0000 * ((w / 0x100_0000) % 256)) by (bit_vector);
}

/// Joining bytes into words and splitting them again gives the bytes back, where the bytes
/// fill whole words.
pub proof fn lemma_bytes_round_trip(bytes: Seq<u8>)
    requires
        bytes.len() % 4 == 0,
    ensures
        bytes_of_words(words_of_bytes(bytes)) == bytes,
{
    let w = words_of_bytes(bytes);
    assert forall|k: int| 0 <= k < bytes.len() implies bytes_of_words(w)[k] == bytes[k] by {
        let i = k / 4;
        lemma_bytes_of_word(bytes[4 * i], bytes[4 * i + 1], bytes[4 * i + 2], bytes[4 * i + 3]);
    }
    assert(bytes_of_words(w) =~= bytes);
}

/// The four bytes of the word that four bytes spell are those bytes.
pub proof fn lemma_bytes_of_word(b0: u8, b1: u8, b2: u8, b3: u8)
    ensures
        word_bytes(word_of_bytes(b0, b1, b2, b3)) == seq![b0, b1, b2, b3],
{
    let x0: u32 = b0 as u32;
    let x1: u32 = b1 as u32;
    let x2: u32 = b2 as u32;
    let x3: u32 = b3 as u32;
    let w = word_of_bytes(b0, b1, b2, b3);
    assert(w == x0 + 0x100 * x1 + 0x1_0000 * x2 + 0x100_0000 * x3);
    assert(w % 256 == x0 && (w / 0x100) % 256 == x1 && (w / 0x1_0000) % 256 == x2 && (w
        / 0x100_0000) % 256 == x3) by (bit_vector)
        requires
            x0 < 256,
            x1 < 256,
            x2 < 256,
            x3 < 256,
            w == x0 + 0x100 * x1 + 0x1_0000 * x2 + 0x100_0000 * x3,
    ;
    assert(word_bytes(w) =~= seq![b0, b1, b2, b3]);
}

/// The little-endian bytes of `words`, four to a word.
pub fn words_to_bytes_le(words: &[u32]) -> (bytes: Vec<u8>)
    requires
        4 * words@.len() <= usize::MAX,
    ensures
        bytes@ == bytes_of_words(words@),
        bytes@.len() == 4 * words@.len(),
{
    let mut bytes: Vec<u8> = Vec::new();
    let mut i: usize = 0;
    while i < words.len()
        invariant
            i <= words@.len(),
            4 * words@.len() <= usize::MAX,
            bytes@.len() == 4 * i,
            forall|k: int| 0 <= k < 4 * i ==> bytes@[k] == word_bytes(words@[k / 4])[k % 4],
        decreases words@.len() - i,
    {
        let w: u32 = words[i];
        bytes.push((w % 256) as u8);
        bytes.push(((w / 0x100) % 256) as u8);
        bytes.push(((w / 0x1_0000) % 256) as u8);
        bytes.push(((w / 0x100_0000) % 256) as u8);
        i = i + 1;
    }
    assert(bytes@ =~= bytes_of_words(words@));
    bytes
}

/// The words that `bytes` spell, four bytes to a word; bytes after the last whole word are
/// left out.
pub fn bytes_to_words_le(bytes: &[u8]) -> (words: Vec<u32>)
    ensures
        words@ == words_of_bytes(bytes@),
        words@.len() == bytes@.len() / 4,
{
    let n: usize = bytes.len() / 4;
    let mut words: Vec<u32> = Vec::new();
    let mut i: usize = 0;
    while i < n
        invariant
            i <= n,
            n == bytes@.len() / 4,
            4 * n <= bytes@.len() <= usize::MAX,
            words@.len() == i,
            forall|k: int| 0 <= k < i ==> words@[k] == words_of_bytes(bytes@)[k],
        decreases n - i,
    {
        let b0: u32 = bytes[4 * i] as u32;
        let b1: u32 = bytes[4 * i + 1] as u32;
        let b2: u32 = bytes[4 * i + 2] as u32;
        let b3: u32 = bytes[4 * i + 3] as u32;
        words.push(b0 + 0x100 * b1 + 0x1_0000 * b2 + 0x100_0000 * b3);
        i = i + 1;
    }
    assert(words@ =~= words_of_bytes(bytes@));
    words
}

/// The `width` lowest digits of the integer that `bytes` spell: the encoding of that integer at
/// a fixed width. Where the integer is below `256^width` they spell it again.
pub fn resize_limbs(bytes: &[u8], width: usize) -> (limbs: Vec<u8>)
    ensures
        limbs@ == le_limbs(le_value(bytes@), width as nat),
        limbs@.len() == width,
        le_value(limbs@) == le_value(bytes@) % pow256(width as nat),
        le_value(bytes@) < pow256(width as nat) ==> le_value(limbs@) == le_value(bytes@),
{
    let mut limbs: Vec<u8> = Vec::new();
    let mut i: usize = 0;
    while i < width
        invariant
            i <= width,
            limbs@.len() == i,
            forall|k: int| 0 <= k < i ==> limbs@[k] == (if k < bytes@.len() {
                bytes@[k]
            } else {
                0u8
            }),
        decreases width - i,
    {
        if i < bytes.len() {
            limbs.push(bytes[i]);
        } else {
            limbs.push(0u8);
        }
        i = i + 1;
    }
    proof {
        let w = width as nat;
        let n = le_value(bytes@);
        lemma_pow256_positive(w);
        if bytes@.len() >= w {
            assert(limbs@ =~= bytes@.take(w as int));
            lemma_le_value_take(bytes@, w);
        } else {
            let z = Seq::new((w - bytes@.len()) as nat, |k: int| 0u8);
            assert(limbs@ =~= bytes@ + z);
            lemma_le_value_pad(bytes@, z);
            lemma_le_value_bound(bytes@);
            lemma_pow256_monotonic(bytes@.len(), w);
            vstd::arithmetic::div_mod::lemma_small_mod(n, pow256(w));
        }
        lemma_decode_encode_mod(n, w);
        lemma_le_value_injective(limbs@, le_limbs(n, w));
        if n < pow256(w) {
            vstd::arithmetic::div_mod::lemma_small_mod(n, pow256(w));
        }
    }
    limbs
}

/// The unsigned integer whose little-endian base-`2^32` digits are `words`, digit by digit.
pub open spec fn words_eval(words: Seq<u32>) -> nat
    decreases words.len(),
{
    if words.len() == 0 {
        0
    } else {
        words[0] as nat + 0x1_0000_0000 * words_eval(words.skip(1))
    }
}

/// The four bytes of a word spell the word.
pub proof fn lemma_word_bytes_value(w: u32)
    ensures
        le_value(word_bytes(w)) == w,
{
    let s = word_bytes(w);
    reveal_with_fuel(le_value, 5);
    assert(s.skip(1).skip(1).skip(1).skip(1).len() == 0);
    assert(le_value(s) == s[0] as nat + 256 * (s[1] as nat + 256 * (s[2] as nat + 256 * (
        s[3] as nat))));
    assert(w == (w % 256) + 0x100 * ((w / 0x100) % 256) + 0x1_0000 * ((w / 0x1_0000) % 256)
        + 0x100_0000 * ((w / 0x100_0000) % 256)) by (bit_vector);
}

/// The bytes of a run of words spell the integer whose base-`2^32` digits the words are.
pub proof fn lemma_words_value(words: Seq<u32>)
    ensures
        words_value(words) == words_eval(words),
    decreases words.len(),
{
    if words.len() == 0 {
        assert(bytes_of_words(words) =~= Seq::<u8>::empty());
    } else {
        let rest = words.skip(1);
        lemma_words_value(rest);
        assert(bytes_of_words(words) =~= word_bytes(words[0]) + bytes_of_words(rest)) by {
            let l = bytes_of_words(words);
            let r = word_bytes(words[0]) + bytes_of_words(rest);
            assert(l.len() == r.len());
            assert forall|i: int| 0 <= i < l.len() implies l[i] == r[i] by {
                if i >= 4 {
                    assert(rest[(i - 4) / 4] == words[i / 4]);
                    assert((i - 4) % 4 == i % 4);
                }
            }
        }
        lemma_le_value_concat(word_bytes(words[0]), bytes_of_words(rest));
        lemma_word_bytes_value(words[0]);
        reveal_with_fuel(pow256, 5);
        assert(pow256(4) == 0x1_0000_0000);
    }
}

/// Digits spell zero exactly if each of them is zero.
pub proof fn lemma_le_value_zero_iff(s: Seq<u8>)
    ensures
        le_value(s) == 0 <==> (forall|i: int| 0 <= i < s.len() ==> s[i] == 0),
    decreases s.len(),
{
    if s.len() > 0 {
        let t = s.skip(1);
        lemma_le_value_zero_iff(t);
        if le_value(s) == 0 {
            assert forall|i: int| 0 <= i < s.len() implies s[i] == 0 by {
                if i > 0 {
                    assert(t[i - 1] == s[i]);
                }
            }
        }
        if forall|i: int| 0 <= i < s.len() ==> s[i] == 0 {
            assert forall|i: int| 0 <= i < t.len() implies t[i] == 0 by {
                assert(t[i] == s[i + 1]);
            }
        }
    }
}

/// Whether every digit is zero: whether the digits spell zero.
pub fn is_zero_limbs(bytes: &[u8]) -> (r: bool)
    ensures
        r == (le_value(bytes@) == 0),
{
    let mut i: usize = 0;
    while i < bytes.len()
        invariant
            i <= bytes@.len(),
            forall|k: int| 0 <= k < i ==> bytes@[k] == 0,
        decreases bytes@.len() - i,
    {
        if bytes[i] != 0 {
            proof {
                lemma_le_value_zero_iff(bytes@);
                assert(bytes@[i as int] != 0);
            }
            return false;
        }
        i = i + 1;
    }
    proof {
        lemma_le_value_zero_iff(bytes@);
    }
    true
}

/// One more digit at the top decides the order of two integers of the same length, unless it
/// is the same digit in both.
pub proof fn lemma_top_digit_orders(s: Seq<u8>, t: Seq<u8>, x: u8, y: u8)
    requires
        s.len() == t.len(),
    ensures
        le_value(s.push(x)) < le_value(t.push(y)) <==> (x < y || (x == y && le_value(s) < le_value(
            t,
        ))),
{
    let q = pow256(s.len());
    lemma_le_value_concat(s, seq![x]);
    lemma_le_value_concat(t, seq![y]);
    assert(s + seq![x] =~= s.push(x));
    assert(t + seq![y] =~= t.push(y));
    assert(le_value(seq![x]) == x) by {
        reveal_with_fuel(le_value, 2);
        assert(seq![x].skip(1).len() == 0);
    }
    assert(le_value(seq![y]) == y) by {
        reveal_with_fuel(le_value, 2);
        assert(seq![y].skip(1).len() == 0);
    }
    lemma_le_value_bound(s);
    lemma_le_value_bound(t);
    let a = le_value(s) as int;
    let b = le_value(t) as int;
    let xi = x as int;
    let yi = y as int;
    let qi = q as int;
    if xi < yi {
        assert(qi * xi + qi <= qi * yi) by (nonlinear_arith)
            requires
                xi + 1 <= yi,
                qi > 0,
        ;
    } else if xi > yi {
        assert(qi * yi + qi <= qi * xi) by (nonlinear_arith)
            requires
                yi + 1 <= xi,
                qi > 0,
        ;
    }
}

/// Whether the integer that `a` spells is below the integer that `b` spells, for digits of the
/// same number.
pub fn limbs_lt(a: &[u8], b: &[u8]) -> (r: bool)
    requires
        a@.len() == b@.len(),
    ensures
        r == (le_value(a@) < le_value(b@)),
{
    let mut lt: bool = false;
    let mut i: usize = 0;
    assert(le_value(a@.take(0)) == 0 && le_value(b@.take(0)) == 0);
    while i < a.len()
        invariant
            i <= a@.len(),
            a@.len() == b@.len(),
            lt == (le_value(a@.take(i as int)) < le_value(b@.take(i as int))),
        decreases a@.len() - i,
    {
        proof {
            lemma_top_digit_orders(a@.take(i as int), b@.take(i as int), a@[i as int], b@[i as int]);
            assert(a@.take(i + 1) =~= a@.take(i as int).push(a@[i as int]));
            assert(b@.take(i + 1) =~= b@.take(i as int).push(b@[i as int]));
        }
        lt = a[i] < b[i] || (a[i] == b[i] && lt);
        i = i + 1;
    }
    assert(a@.take(a@.len() as int) =~= a@);
    assert(b@.take(b@.len() as int) =~= b@);
    lt
}

/// Words that spell the same bytes are the same words.
pub proof fn lemma_bytes_of_words_injective(v: Seq<u32>, w: Seq<u32>)
    requires
        bytes_of_words(v) == bytes_of_words(w),
    ensures
        v == w,
{
    lemma_words_round_trip(v);
    lemma_words_round_trip(w);
}

/// Every digit of zero is zero.
pub proof fn lemma_le_limbs_zero(width: nat)
    ensures
        le_limbs(0, width) == Seq::new(width, |i: int| 0u8),
    decreases width,
{
    let z = Seq::new(width, |i: int| 0u8);
    lemma_decode_encode_mod(0, width);
    lemma_le_value_zeros(z);
    lemma_pow256_positive(width);
    lemma_le_value_injective(le_limbs(0, width), z);
}

} // verus!
