//! Polynomials with integer coefficients, lowest first, and their values at 256.
//!
//! An integer written in base 256 is the value at 256 of the polynomial whose coefficients are
//! its digits. The product of two such polynomials has coefficients that no longer fit a digit,
//! but its value at 256 is still the product of the two integers: that is what lets a modular
//! multiplication be checked coefficient by coefficient.
use crate::limbs::{eval256, pow256};
use vstd::prelude::*;

verus! {

/// Coefficient `k` of `c`; zero outside its length.
pub open spec fn at(c: Seq<int>, k: int) -> int {
    if 0 <= k < c.len() {
        c[k]
    } else {
        0
    }
}

/// The part of coefficient `k` of the product `a * b` that the first `n` coefficients of `a`
/// contribute: the sum of `a[i] * b[k - i]` over `i < n`.
pub open spec fn conv_sum(a: Seq<int>, b: Seq<int>, k: int, n: int) -> int
    decreases n,
{
    if n <= 0 {
        0
    } else {
        conv_sum(a, b, k, n - 1) + at(a, n - 1) * at(b, k - (n - 1))
    }
}

/// The first `len` coefficients of the product `a * b`.
pub open spec fn poly_mul(a: Seq<int>, b: Seq<int>, len: nat) -> Seq<int> {
    Seq::new(len, |k: int| conv_sum(a, b, k, a.len() as int))
}

/// The product of the first `n` coefficients of `a` with `b`, as `len` coefficients.
pub open spec fn mul_rows(a: Seq<int>, b: Seq<int>, n: int, len: nat) -> Seq<int> {
    Seq::new(len, |k: int| conv_sum(a, b, k, n))
}

/// `s * b`, moved up by `n` places, as `len` coefficients.
pub open spec fn shifted(s: int, b: Seq<int>, n: int, len: nat) -> Seq<int> {
    Seq::new(len, |k: int| s * at(b, k - n))
}

/// The value of a polynomial whose coefficients are all zero is zero.
pub proof fn lemma_eval_zeros(c: Seq<int>)
    requires
        forall|k: int| 0 <= k < c.len() ==> c[k] == 0,
    ensures
        eval256(c) == 0,
    decreases c.len(),
{
    if c.len() > 0 {
        lemma_eval_zeros(c.skip(1));
    }
}

/// The value of a sum of polynomials is the sum of their values.
pub proof fn lemma_eval_add(c: Seq<int>, d: Seq<int>, sum: Seq<int>)
    requires
        c.len() == d.len(),
        sum.len() == c.len(),
        forall|k: int| 0 <= k < c.len() ==> sum[k] == c[k] + d[k],
    ensures
        eval256(sum) == eval256(c) + eval256(d),
    decreases c.len(),
{
    if c.len() > 0 {
        lemma_eval_add(c.skip(1), d.skip(1), sum.skip(1));
    }
}

/// The value of a difference of polynomials is the difference of their values.
pub proof fn lemma_eval_sub(c: Seq<int>, d: Seq<int>, diff: Seq<int>)
    requires
        c.len() == d.len(),
        diff.len() == c.len(),
        forall|k: int| 0 <= k < c.len() ==> diff[k] == c[k] - d[k],
    ensures
        eval256(diff) == eval256(c) - eval256(d),
    decreases c.len(),
{
    if c.len() > 0 {
        lemma_eval_sub(c.skip(1), d.skip(1), diff.skip(1));
    }
}

/// Zero coefficients above a polynomial do not change its value.
pub proof fn lemma_eval_padded(b: Seq<int>, len: nat)
    requires
        len >= b.len(),
    ensures
        eval256(Seq::new(len, |k: int| at(b, k))) == eval256(b),
    decreases len,
{
    let c = Seq::new(len, |k: int| at(b, k));
    if len > 0 {
        if b.len() == 0 {
            lemma_eval_zeros(c);
        } else {
            lemma_eval_padded(b.skip(1), (len - 1) as nat);
            assert(c.skip(1) =~= Seq::new((len - 1) as nat, |k: int| at(b.skip(1), k)));
        }
    }
}

/// The value of `s * b` is `s` times the value of `b`.
pub proof fn lemma_eval_scaled(s: int, b: Seq<int>, len: nat)
    requires
        len >= b.len(),
    ensures
        eval256(shifted(s, b, 0, len)) == s * eval256(b),
    decreases len,
{
    let c = shifted(s, b, 0, len);
    if len == 0 {
        assert(s * 0 == 0);
    } else if b.len() == 0 {
        assert forall|k: int| 0 <= k < c.len() implies c[k] == 0 by {
            assert(s * 0 == 0);
        }
        lemma_eval_zeros(c);
        assert(s * 0 == 0);
    } else {
        lemma_eval_scaled(s, b.skip(1), (len - 1) as nat);
        assert(c.skip(1) =~= shifted(s, b.skip(1), 0, (len - 1) as nat));
        let t = eval256(b.skip(1));
        assert(s * b[0] + 256 * (s * t) == s * (b[0] + 256 * t)) by (nonlinear_arith);
    }
}

/// Moving a polynomial up by `n` places multiplies its value by `256^n`.
pub proof fn lemma_eval_shifted(s: int, b: Seq<int>, n: nat, len: nat)
    requires
        len >= n + b.len(),
    ensures
        eval256(shifted(s, b, n as int, len)) == s * pow256(n) * eval256(b),
    decreases n,
{
    let c = shifted(s, b, n as int, len);
    if n == 0 {
        lemma_eval_scaled(s, b, len);
        assert(s * pow256(0) == s) by (nonlinear_arith)
            requires
                pow256(0) == 1,
        ;
    } else {
        lemma_eval_shifted(s, b, (n - 1) as nat, (len - 1) as nat);
        assert(c.skip(1) =~= shifted(s, b, n - 1, (len - 1) as nat));
        assert(c[0] == 0) by {
            assert(s * 0 == 0);
        }
        let e = eval256(b);
        let q = pow256((n - 1) as nat);
        assert(256 * (s * q * e) == s * (256 * q) * e) by (nonlinear_arith);
    }
}

/// One more coefficient at the top adds that coefficient times `256^len` to the value.
pub proof fn lemma_eval_push(c: Seq<int>, x: int)
    ensures
        eval256(c.push(x)) == eval256(c) + x * pow256(c.len()),
    decreases c.len(),
{
    if c.len() == 0 {
        assert(c.push(x).skip(1) =~= Seq::<int>::empty());
        assert(eval256(c.push(x).skip(1)) == 0);
        assert(eval256(c) == 0);
        assert(c.push(x)[0] == x);
        assert(x * pow256(0) == x) by (nonlinear_arith)
            requires
                pow256(0) == 1,
        ;
    } else {
        lemma_eval_push(c.skip(1), x);
        assert(c.push(x).skip(1) =~= c.skip(1).push(x));
        let q = pow256((c.len() - 1) as nat);
        assert(c.push(x)[0] == c[0]);
        assert(pow256(c.len()) == 256 * q);
        assert(256 * (x * q) == x * (256 * q)) by (nonlinear_arith);
    }
}

/// The value of the product of the first `n` coefficients of `a` with `b`.
pub proof fn lemma_eval_mul_rows(a: Seq<int>, b: Seq<int>, n: nat, len: nat)
    requires
        n <= a.len(),
        len + 1 >= a.len() + b.len(),
    ensures
        eval256(mul_rows(a, b, n as int, len)) == eval256(a.take(n as int)) * eval256(b),
    decreases n,
{
    let rows = mul_rows(a, b, n as int, len);
    if n == 0 {
        lemma_eval_zeros(rows);
        assert(a.take(0) =~= Seq::<int>::empty());
        assert(0 * eval256(b) == 0);
    } else {
        let m = (n - 1) as nat;
        let prev = mul_rows(a, b, m as int, len);
        let row = shifted(a[m as int], b, m as int, len);
        lemma_eval_mul_rows(a, b, m, len);
        lemma_eval_shifted(a[m as int], b, m, len);
        lemma_eval_add(prev, row, rows);
        assert(a.take(n as int) =~= a.take(m as int).push(a[m as int]));
        lemma_eval_push(a.take(m as int), a[m as int]);
        let x = eval256(a.take(m as int));
        let y = a[m as int];
        let q = pow256(m);
        let e = eval256(b);
        assert(x * e + y * q * e == (x + y * q) * e) by (nonlinear_arith);
    }
}

/// The value at 256 of a product of polynomials is the product of their values.
pub proof fn lemma_eval_mul(a: Seq<int>, b: Seq<int>, len: nat)
    requires
        len + 1 >= a.len() + b.len(),
    ensures
        eval256(poly_mul(a, b, len)) == eval256(a) * eval256(b),
{
    lemma_eval_mul_rows(a, b, a.len(), len);
    assert(a.take(a.len() as int) =~= a);
    assert(poly_mul(a, b, len) =~= mul_rows(a, b, a.len() as int, len));
}

/// A bound on one coefficient of a product, from bounds on the coefficients of the factors.
pub proof fn lemma_conv_sum_bound(a: Seq<int>, b: Seq<int>, k: int, n: int, ma: int, mb: int)
    requires
        0 <= n,
        0 <= ma,
        0 <= mb,
        forall|i: int| 0 <= i < a.len() ==> 0 <= #[trigger] a[i] <= ma,
        forall|i: int| 0 <= i < b.len() ==> 0 <= #[trigger] b[i] <= mb,
    ensures
        0 <= conv_sum(a, b, k, n) <= n * (ma * mb),
    decreases n,
{
    if n > 0 {
        lemma_conv_sum_bound(a, b, k, n - 1, ma, mb);
        let x = at(a, n - 1);
        let y = at(b, k - (n - 1));
        assert(0 <= x <= ma);
        assert(0 <= y <= mb);
        assert(0 <= x * y <= ma * mb) by (nonlinear_arith)
            requires
                0 <= x <= ma,
                0 <= y <= mb,
        ;
        assert((n - 1) * (ma * mb) + ma * mb == n * (ma * mb)) by (nonlinear_arith);
    } else {
        assert(0 * (ma * mb) == 0);
    }
}

/// The coefficients of the quotient of `v` by `x - 256`, where 256 is a root of `v`: the
/// coefficient at place `k` is the value at 256 of what `v` holds above place `k`.
pub open spec fn root_quotient(v: Seq<int>) -> Seq<int> {
    Seq::new((v.len() - 1) as nat, |k: int| eval256(v.skip(k + 1)))
}

/// Coefficient `k` of `w * (x - 256)`.
pub open spec fn times_root(w: Seq<int>, k: int) -> int {
    at(w, k - 1) - 256 * at(w, k)
}

/// Where 256 is a root of `v`, `v` is its root quotient times `x - 256`, coefficient by
/// coefficient.
pub proof fn lemma_root_quotient(v: Seq<int>, k: int)
    requires
        v.len() >= 1,
        eval256(v) == 0,
        0 <= k < v.len(),
    ensures
        v[k] == times_root(root_quotient(v), k),
{
    let w = root_quotient(v);
    let t = v.skip(k);
    assert(t[0] == v[k]);
    assert(t.skip(1) =~= v.skip(k + 1));
    assert(eval256(t) == v[k] + 256 * eval256(v.skip(k + 1)));
    if k == 0 {
        assert(v.skip(0) =~= v);
    }
    if k == v.len() - 1 {
        assert(v.skip(k + 1) =~= Seq::<int>::empty());
        assert(eval256(v.skip(k + 1)) == 0);
    }
}

/// What a polynomial holds above place `k` has a small value at 256 where its value below is
/// zero in total: with coefficients within `bound`, the value is within `bound / 255`,
/// rounded up.
pub proof fn lemma_tail_bound(v: Seq<int>, k: int, bound: int, w: int)
    requires
        eval256(v) == 0,
        0 <= k <= v.len(),
        forall|i: int| 0 <= i < v.len() ==> -bound <= #[trigger] v[i] <= bound,
        0 <= bound,
        bound <= 255 * w,
    ensures
        -w <= eval256(v.skip(k)) <= w,
    decreases k,
{
    if k == 0 {
        assert(v.skip(0) =~= v);
    } else {
        lemma_tail_bound(v, k - 1, bound, w);
        let t = v.skip(k - 1);
        assert(t[0] == v[k - 1]);
        assert(t.skip(1) =~= v.skip(k));
        assert(eval256(t) == v[k - 1] + 256 * eval256(v.skip(k)));
    }
}

/// The coefficients of `w * (x - 256)`, one more than `w` has.
pub open spec fn times_root_poly(w: Seq<int>) -> Seq<int> {
    Seq::new(w.len() + 1, |k: int| times_root(w, k))
}

/// 256 is a root of `w * (x - 256)`, whatever `w` is.
pub proof fn lemma_times_root_vanishes(w: Seq<int>)
    ensures
        eval256(times_root_poly(w)) == 0,
{
    let len = w.len() + 1;
    let up = shifted(1, w, 1, len);
    let scaled = shifted(256, w, 0, len);
    lemma_eval_shifted(1, w, 1, len);
    lemma_eval_scaled(256, w, len);
    assert forall|k: int| 0 <= k < len implies times_root_poly(w)[k] == up[k] - scaled[k] by {
        assert(1 * at(w, k - 1) == at(w, k - 1));
    }
    lemma_eval_sub(up, scaled, times_root_poly(w));
    assert(pow256(1) == 256) by {
        assert(pow256(0) == 1);
    }
    let e = eval256(w);
    assert(1 * 256 * e == 256 * e);
}

} // verus!
