//! Witnesses for modular arithmetic on 256-bit integers, and the constraint that checks them.
//!
//! To show `a * b = r (mod p)` inside a trace over a 31-bit field, the chip witnesses the
//! quotient `q` with `a * b = q * p + r` and treats the four integers as polynomials in their
//! base-256 digits. The integer identity says that 256 is a root of
//! `v = a * b - r - q * p`, so `v = w * (x - 256)` for a polynomial `w` with small
//! coefficients. The chip witnesses `w` too, shifted to be non-negative and split into bytes,
//! and the constraint compares `v` with `w * (x - 256)` coefficient by coefficient.
use crate::air::{range_check_interactions, zero_when, ConstraintBuilder, Interaction};
use crate::bigint::{big_add, big_div, big_mul, big_rem};
use crate::field::{
    felt_of, lemma_rep_add, lemma_rep_cell, lemma_rep_felt_of, lemma_rep_mul, lemma_rep_sub,
    modulus, residue, Felt,
};
use crate::limbs::{
    bytes_of_words, eval256, ints_of, le_limbs, le_value, lemma_le_value_bound,
    lemma_le_value_is_eval, lemma_words_value, pow256, resize_limbs, words_eval, words_to_bytes_le,
};
use crate::lookup::{add_u8_range_checks_field, low_bytes, u8_range_events, ByteLookupEvent};
use crate::poly::{
    at, conv_sum, lemma_conv_sum_bound, lemma_times_root_vanishes, times_root_poly, lemma_eval_add, lemma_eval_mul, lemma_eval_padded,
    lemma_eval_sub, lemma_root_quotient, lemma_tail_bound, poly_mul, root_quotient, times_root,
};
use vstd::prelude::*;

verus! {

/// The number of limbs of an operand, of the result and of the quotient.
pub const NUM_LIMBS: usize = 32;

/// The number of coefficients of the witness polynomial.
pub const NUM_WITNESS_LIMBS: usize = 62;

/// The number of coefficients of the vanishing polynomial, and so of constraints.
pub const NUM_COEFFS: usize = 63;

/// What is added to a coefficient of the witness polynomial to make it non-negative.
pub const WITNESS_OFFSET: u32 = 16384;

/// The number of cells of the witness columns of one operation.
pub const NUM_FIELD_OP_COLS: usize = 188;

/// The operation that a witness is for.
#[derive(Clone, Copy, Debug, PartialEq, Eq, Structural)]
pub enum FieldOperation {
    /// `a + b` modulo `p`.
    Add,
    /// `a * b` modulo `p`.
    Mul,
}

/// The witness columns of one modular operation.
#[derive(Debug)]
pub struct FieldOpCols {
    /// The limbs of the result `r`.
    pub result: Vec<Felt>,
    /// The limbs of the quotient `q`.
    pub carry: Vec<Felt>,
    /// The low bytes of the shifted coefficients of `w`.
    pub witness_low: Vec<Felt>,
    /// The high bytes of the shifted coefficients of `w`.
    pub witness_high: Vec<Felt>,
}

/// The integer `a + b` or `a * b`, before reduction.
pub open spec fn op_value(op: FieldOperation, a: nat, b: nat) -> nat {
    match op {
        FieldOperation::Add => a + b,
        FieldOperation::Mul => a * b,
    }
}

/// Coefficient `k` of the polynomial `a + b` or `a * b`.
pub open spec fn op_coeff(op: FieldOperation, a: Seq<int>, b: Seq<int>, k: int) -> int {
    match op {
        FieldOperation::Add => at(a, k) + at(b, k),
        FieldOperation::Mul => conv_sum(a, b, k, a.len() as int),
    }
}

/// The polynomial `a op b - r - q * p`, as [`NUM_COEFFS`] coefficients.
pub open spec fn vanishing(
    op: FieldOperation,
    a: Seq<int>,
    b: Seq<int>,
    r: Seq<int>,
    q: Seq<int>,
    p: Seq<int>,
) -> Seq<int> {
    Seq::new(
        NUM_COEFFS as nat,
        |k: int| op_coeff(op, a, b, k) - at(r, k) - conv_sum(q, p, k, q.len() as int),
    )
}

/// The limbs of the result of `a op b` modulo `p`.
pub open spec fn result_limbs(op: FieldOperation, a: Seq<u8>, b: Seq<u8>, p: Seq<u8>) -> Seq<u8> {
    le_limbs(op_value(op, le_value(a), le_value(b)) % le_value(p), NUM_LIMBS as nat)
}

/// The limbs of the quotient of `a op b` by `p`.
pub open spec fn carry_limbs(op: FieldOperation, a: Seq<u8>, b: Seq<u8>, p: Seq<u8>) -> Seq<u8> {
    le_limbs(op_value(op, le_value(a), le_value(b)) / le_value(p), NUM_LIMBS as nat)
}

/// The vanishing polynomial of `a op b` modulo `p`, with the true result and quotient.
pub open spec fn true_vanishing(
    op: FieldOperation,
    a: Seq<u8>,
    b: Seq<u8>,
    p: Seq<u8>,
) -> Seq<int> {
    vanishing(
        op,
        ints_of(a),
        ints_of(b),
        ints_of(result_limbs(op, a, b, p)),
        ints_of(carry_limbs(op, a, b, p)),
        ints_of(p),
    )
}

/// The canonical representatives of a run of field elements.
pub open spec fn residues(s: Seq<Felt>) -> Seq<int> {
    Seq::new(s.len(), |i: int| residue(s[i]))
}

/// The field elements that stand for a run of bytes.
pub open spec fn felts_of_bytes(s: Seq<u8>) -> Seq<Felt> {
    Seq::new(s.len(), |i: int| Felt { value: s[i] as u32 })
}

/// A bound on the size of a coefficient of a vanishing polynomial whose inputs are bytes.
pub open spec fn coeff_bound() -> int {
    2081055
}

/// A bound on the size of a coefficient of the witness polynomial.
pub open spec fn witness_bound() -> int {
    8162
}

impl FieldOpCols {
    /// Whether each column has its width.
    pub open spec fn wf(self) -> bool {
        &&& self.result@.len() == NUM_LIMBS
        &&& self.carry@.len() == NUM_LIMBS
        &&& self.witness_low@.len() == NUM_WITNESS_LIMBS
        &&& self.witness_high@.len() == NUM_WITNESS_LIMBS
    }

    /// The coefficients of the witness polynomial that the columns hold: low byte, high byte
    /// and the shift taken back.
    pub open spec fn witness_ints(self) -> Seq<int> {
        Seq::new(
            NUM_WITNESS_LIMBS as nat,
            |k: int|
                residue(self.witness_low@[k]) + 256 * residue(self.witness_high@[k])
                    - WITNESS_OFFSET as int,
        )
    }

    /// The integer that constraint `k` reduces modulo the field order: coefficient `k` of
    /// `a op b - r - q * p - w * (x - 256)`, over the canonical representatives of the cells.
    pub open spec fn constraint_int(
        self,
        op: FieldOperation,
        a: Seq<Felt>,
        b: Seq<Felt>,
        p: Seq<Felt>,
        k: int,
    ) -> int {
        vanishing(
            op,
            residues(a),
            residues(b),
            residues(self.result@),
            residues(self.carry@),
            residues(p),
        )[k] - times_root(self.witness_ints(), k)
    }

    /// Whether every constraint evaluates to zero.
    pub open spec fn satisfies(
        self,
        op: FieldOperation,
        a: Seq<Felt>,
        b: Seq<Felt>,
        p: Seq<Felt>,
    ) -> bool {
        forall|k: int|
            0 <= k < NUM_COEFFS ==> #[trigger] self.constraint_int(op, a, b, p, k) % modulus()
                == 0
    }

    /// Whether every constraint evaluates to zero or `is_real` is zero.
    pub open spec fn satisfies_when(
        self,
        is_real: Felt,
        op: FieldOperation,
        a: Seq<Felt>,
        b: Seq<Felt>,
        p: Seq<Felt>,
    ) -> bool {
        forall|k: int|
            0 <= k < NUM_COEFFS ==> zero_when(
                is_real,
                felt_of(#[trigger] self.constraint_int(op, a, b, p, k)),
            )
    }

    /// Whether the columns hold the witness of `a op b` modulo `p`: the limbs of the result
    /// and of the quotient, and the bytes of the shifted quotient of the vanishing polynomial
    /// by `x - 256`.
    pub open spec fn is_witness_of(
        self,
        op: FieldOperation,
        a: Seq<u8>,
        b: Seq<u8>,
        p: Seq<u8>,
    ) -> bool {
        let w = root_quotient(true_vanishing(op, a, b, p));
        &&& self.wf()
        &&& self.result@ == felts_of_bytes(result_limbs(op, a, b, p))
        &&& self.carry@ == felts_of_bytes(carry_limbs(op, a, b, p))
        &&& forall|k: int|
            0 <= k < NUM_WITNESS_LIMBS ==> (#[trigger] self.witness_low@[k]).value == (w[k]
                + WITNESS_OFFSET) % 256
        &&& forall|k: int|
            0 <= k < NUM_WITNESS_LIMBS ==> (#[trigger] self.witness_high@[k]).value == (w[k]
                + WITNESS_OFFSET) / 256
    }

    /// The cells of the columns, in row order.
    pub open spec fn flat(self) -> Seq<Felt> {
        self.result@ + self.carry@ + self.witness_low@ + self.witness_high@
    }

    /// The interactions that the constraint declares: the requests that every cell of the four
    /// columns holds a byte, each sent `is_real` times.
    pub open spec fn range_interactions(self, is_real: Felt) -> Seq<Interaction> {
        range_check_interactions(self.result@, is_real) + range_check_interactions(
            self.carry@,
            is_real,
        ) + range_check_interactions(self.witness_low@, is_real) + range_check_interactions(
            self.witness_high@,
            is_real,
        )
    }

    /// The range-check requests for the four columns, in the order result, quotient, low
    /// witness bytes, high witness bytes.
    pub open spec fn range_events(self, shard: u32) -> Seq<ByteLookupEvent> {
        u8_range_events(shard, low_bytes(self.result@)) + u8_range_events(
            shard,
            low_bytes(self.carry@),
        ) + u8_range_events(shard, low_bytes(self.witness_low@)) + u8_range_events(
            shard,
            low_bytes(self.witness_high@),
        )
    }
}

/// The value at 256 of the vanishing polynomial is `a op b - r - q * p` over the integers.
pub proof fn lemma_vanishing_eval(
    op: FieldOperation,
    a: Seq<int>,
    b: Seq<int>,
    r: Seq<int>,
    q: Seq<int>,
    p: Seq<int>,
)
    requires
        a.len() == NUM_LIMBS,
        b.len() == NUM_LIMBS,
        r.len() == NUM_LIMBS,
        q.len() == NUM_LIMBS,
        p.len() == NUM_LIMBS,
    ensures
        eval256(vanishing(op, a, b, r, q, p)) == (match op {
            FieldOperation::Add => eval256(a) + eval256(b),
            FieldOperation::Mul => eval256(a) * eval256(b),
        }) - eval256(r) - eval256(q) * eval256(p),
{
    let n = NUM_COEFFS as nat;
    let v = vanishing(op, a, b, r, q, p);
    let ops = Seq::new(n, |k: int| op_coeff(op, a, b, k));
    let rs = Seq::new(n, |k: int| at(r, k));
    let qp = poly_mul(q, p, n);
    let d = Seq::new(n, |k: int| ops[k] - rs[k]);
    lemma_eval_padded(r, n);
    lemma_eval_mul(q, p, n);
    lemma_eval_sub(ops, rs, d);
    lemma_eval_sub(d, qp, v);
    match op {
        FieldOperation::Add => {
            let pa = Seq::new(n, |k: int| at(a, k));
            let pb = Seq::new(n, |k: int| at(b, k));
            lemma_eval_padded(a, n);
            lemma_eval_padded(b, n);
            lemma_eval_add(pa, pb, ops);
        },
        FieldOperation::Mul => {
            lemma_eval_mul(a, b, n);
            assert(ops =~= poly_mul(a, b, n));
        },
    }
}

/// Each coefficient of a vanishing polynomial over bytes is within [`coeff_bound`].
pub proof fn lemma_vanishing_bound(
    op: FieldOperation,
    a: Seq<u8>,
    b: Seq<u8>,
    r: Seq<u8>,
    q: Seq<u8>,
    p: Seq<u8>,
    k: int,
)
    requires
        a.len() == NUM_LIMBS,
        b.len() == NUM_LIMBS,
        r.len() == NUM_LIMBS,
        q.len() == NUM_LIMBS,
        p.len() == NUM_LIMBS,
        0 <= k < NUM_COEFFS,
    ensures
        -coeff_bound() <= vanishing(op, ints_of(a), ints_of(b), ints_of(r), ints_of(q), ints_of(p))[k]
            <= coeff_bound(),
        0 <= op_coeff(op, ints_of(a), ints_of(b), k) <= 32 * 65025,
        0 <= conv_sum(ints_of(q), ints_of(p), k, NUM_LIMBS as int) <= 32 * 65025,
        0 <= at(ints_of(r), k) <= 255,
{
    lemma_conv_sum_bound(ints_of(a), ints_of(b), k, 32, 255, 255);
    lemma_conv_sum_bound(ints_of(q), ints_of(p), k, 32, 255, 255);
}

/// The true result and quotient make 256 a root of the vanishing polynomial, and both fit
/// their limbs.
pub proof fn lemma_true_vanishing_root(op: FieldOperation, a: Seq<u8>, b: Seq<u8>, p: Seq<u8>)
    requires
        a.len() == NUM_LIMBS,
        b.len() == NUM_LIMBS,
        p.len() == NUM_LIMBS,
        le_value(a) < le_value(p),
        le_value(b) < le_value(p),
    ensures
        eval256(true_vanishing(op, a, b, p)) == 0,
        le_value(result_limbs(op, a, b, p)) == op_value(op, le_value(a), le_value(b)) % le_value(
            p,
        ),
        le_value(carry_limbs(op, a, b, p)) == op_value(op, le_value(a), le_value(b)) / le_value(p),
        result_limbs(op, a, b, p).len() == NUM_LIMBS,
        carry_limbs(op, a, b, p).len() == NUM_LIMBS,
{
    let va = le_value(a);
    let vb = le_value(b);
    let vp = le_value(p);
    let n = op_value(op, va, vb);
    let r = result_limbs(op, a, b, p);
    let q = carry_limbs(op, a, b, p);
    lemma_le_value_bound(p);
    assert(pow256(32) == pow256(NUM_LIMBS as nat));
    vstd::arithmetic::div_mod::lemma_mod_bound(n as int, vp as int);
    assert(n / vp < vp) by {
        match op {
            FieldOperation::Add => {
                assert(n < 2 * vp);
                vstd::arithmetic::div_mod::lemma_multiply_divide_lt(n as int, vp as int, 2);
                assert(n / vp < 2);
            },
            FieldOperation::Mul => {
                assert(va * vb < vp * vp) by (nonlinear_arith)
                    requires
                        va < vp,
                        vb < vp,
                ;
                vstd::arithmetic::div_mod::lemma_multiply_divide_lt(n as int, vp as int, vp as int);
            },
        }
    }
    assert(n / vp >= 0) by {
        vstd::arithmetic::div_mod::lemma_div_pos_is_pos(n as int, vp as int);
    }
    crate::limbs::lemma_decode_encode(n % vp, NUM_LIMBS as nat);
    crate::limbs::lemma_decode_encode(n / vp, NUM_LIMBS as nat);
    lemma_le_value_is_eval(a);
    lemma_le_value_is_eval(b);
    lemma_le_value_is_eval(p);
    lemma_le_value_is_eval(r);
    lemma_le_value_is_eval(q);
    lemma_vanishing_eval(op, ints_of(a), ints_of(b), ints_of(r), ints_of(q), ints_of(p));
    vstd::arithmetic::div_mod::lemma_fundamental_div_mod(n as int, vp as int);
    assert((n / vp) * vp == vp * (n / vp)) by (nonlinear_arith);
}

/// The witness of an operation satisfies the operation's constraints: each of them is zero
/// already over the integers.
pub proof fn lemma_witness_satisfies(
    cols: FieldOpCols,
    op: FieldOperation,
    a: Seq<u8>,
    b: Seq<u8>,
    p: Seq<u8>,
)
    requires
        a.len() == NUM_LIMBS,
        b.len() == NUM_LIMBS,
        p.len() == NUM_LIMBS,
        le_value(a) < le_value(p),
        le_value(b) < le_value(p),
        cols.is_witness_of(op, a, b, p),
    ensures
        cols.satisfies(op, felts_of_bytes(a), felts_of_bytes(b), felts_of_bytes(p)),
        forall|k: int|
            0 <= k < NUM_COEFFS ==> #[trigger] cols.constraint_int(
                op,
                felts_of_bytes(a),
                felts_of_bytes(b),
                felts_of_bytes(p),
                k,
            ) == 0,
{
    let r = result_limbs(op, a, b, p);
    let q = carry_limbs(op, a, b, p);
    let v = true_vanishing(op, a, b, p);
    let w = root_quotient(v);
    lemma_true_vanishing_root(op, a, b, p);
    assert(residues(felts_of_bytes(a)) =~= ints_of(a));
    assert(residues(felts_of_bytes(b)) =~= ints_of(b));
    assert(residues(felts_of_bytes(p)) =~= ints_of(p));
    assert(residues(cols.result@) =~= ints_of(r));
    assert(residues(cols.carry@) =~= ints_of(q));
    assert forall|k: int| 0 <= k < NUM_WITNESS_LIMBS implies cols.witness_ints()[k] == w[k] by {
        lemma_witness_range(op, a, b, p, k);
        let s = w[k] + WITNESS_OFFSET;
        assert(cols.witness_low@[k].value == s % 256);
        assert(cols.witness_high@[k].value == s / 256);
    }
    assert(cols.witness_ints() =~= w);
    assert forall|k: int| 0 <= k < NUM_COEFFS implies #[trigger] cols.constraint_int(
        op,
        felts_of_bytes(a),
        felts_of_bytes(b),
        felts_of_bytes(p),
        k,
    ) == 0 by {
        lemma_root_quotient(v, k);
    }
}

/// The witness of an operation on zero and zero has the result zero and the quotient zero:
/// nothing is divided.
pub proof fn lemma_zero_witness(cols: FieldOpCols, op: FieldOperation, p: Seq<u8>)
    requires
        cols.is_witness_of(
            op,
            Seq::new(NUM_LIMBS as nat, |i: int| 0u8),
            Seq::new(NUM_LIMBS as nat, |i: int| 0u8),
            p,
        ),
        le_value(p) > 0,
    ensures
        cols.result@ == Seq::new(NUM_LIMBS as nat, |i: int| crate::field::fzero()),
        cols.carry@ == Seq::new(NUM_LIMBS as nat, |i: int| crate::field::fzero()),
{
    let z = Seq::new(NUM_LIMBS as nat, |i: int| 0u8);
    crate::limbs::lemma_le_value_zeros(z);
    assert(op_value(op, 0, 0) == 0) by {
        assert(0 * 0 == 0);
    }
    assert(0nat % le_value(p) == 0 && 0nat / le_value(p) == 0) by {
        vstd::arithmetic::div_mod::lemma_small_mod(0, le_value(p));
        vstd::arithmetic::div_mod::lemma_div_basics_1(le_value(p) as int);
    }
    crate::limbs::lemma_le_limbs_zero(NUM_LIMBS as nat);
    assert(cols.result@ =~= Seq::new(NUM_LIMBS as nat, |i: int| crate::field::fzero()));
    assert(cols.carry@ =~= Seq::new(NUM_LIMBS as nat, |i: int| crate::field::fzero()));
}

/// A coefficient of the witness polynomial, shifted, fits fifteen bits.
pub proof fn lemma_witness_range(
    op: FieldOperation,
    a: Seq<u8>,
    b: Seq<u8>,
    p: Seq<u8>,
    k: int,
)
    requires
        a.len() == NUM_LIMBS,
        b.len() == NUM_LIMBS,
        p.len() == NUM_LIMBS,
        le_value(a) < le_value(p),
        le_value(b) < le_value(p),
        0 <= k < NUM_WITNESS_LIMBS,
    ensures
        -witness_bound() <= root_quotient(true_vanishing(op, a, b, p))[k] <= witness_bound(),
{
    let r = result_limbs(op, a, b, p);
    let q = carry_limbs(op, a, b, p);
    let v = true_vanishing(op, a, b, p);
    lemma_true_vanishing_root(op, a, b, p);
    assert forall|i: int| 0 <= i < v.len() implies -coeff_bound() <= #[trigger] v[i]
        <= coeff_bound() by {
        lemma_vanishing_bound(op, a, b, r, q, p, i);
    }
    lemma_tail_bound(v, k + 1, coeff_bound(), witness_bound());
}

/// Coefficient `k` of the product of two byte polynomials.
fn conv_bytes(a: &[u8], b: &[u8], k: usize) -> (s: u64)
    requires
        a@.len() <= 64,
    ensures
        s as int == conv_sum(ints_of(a@), ints_of(b@), k as int, a@.len() as int),
        s <= a@.len() * 65025,
{
    let mut s: u64 = 0;
    let mut i: usize = 0;
    while i < a.len()
        invariant
            i <= a@.len() <= 64,
            s as int == conv_sum(ints_of(a@), ints_of(b@), k as int, i as int),
            s <= i * 65025,
        decreases a@.len() - i,
    {
        if i <= k && k - i < b.len() {
            let x: u64 = a[i] as u64;
            let y: u64 = b[k - i] as u64;
            assert(x * y <= 65025) by (nonlinear_arith)
                requires
                    x <= 255,
                    y <= 255,
            ;
            s = s + x * y;
        } else {
            assert(at(ints_of(b@), k - i) == 0);
            assert(at(ints_of(a@), i as int) * 0 == 0);
        }
        i = i + 1;
    }
    s
}

/// The field elements that stand for `bytes`.
pub fn bytes_to_felts(bytes: &[u8]) -> (felts: Vec<Felt>)
    ensures
        felts@ == felts_of_bytes(bytes@),
{
    let mut felts: Vec<Felt> = Vec::new();
    let mut i: usize = 0;
    while i < bytes.len()
        invariant
            i <= bytes@.len(),
            felts@.len() == i,
            forall|k: int| 0 <= k < i ==> felts@[k] == felts_of_bytes(bytes@)[k],
        decreases bytes@.len() - i,
    {
        felts.push(Felt::from_canonical_u8(bytes[i]));
        i = i + 1;
    }
    assert(felts@ =~= felts_of_bytes(bytes@));
    felts
}

/// `len` zero field elements.
pub fn zero_felts(len: usize) -> (felts: Vec<Felt>)
    ensures
        felts@ == Seq::new(len as nat, |i: int| crate::field::fzero()),
{
    let mut felts: Vec<Felt> = Vec::new();
    let mut i: usize = 0;
    while i < len
        invariant
            i <= len,
            felts@.len() == i,
            forall|k: int| 0 <= k < i ==> felts@[k] == crate::field::fzero(),
        decreases len - i,
    {
        felts.push(Felt::zero());
        i = i + 1;
    }
    assert(felts@ =~= Seq::new(len as nat, |i: int| crate::field::fzero()));
    felts
}

impl FieldOpCols {
    /// Appends the cells of the columns to a row.
    pub fn push_to(&self, row: &mut Vec<Felt>)
        ensures
            final(row)@ == old(row)@ + self.flat(),
    {
        crate::memory::push_felts(row, self.result.as_slice());
        crate::memory::push_felts(row, self.carry.as_slice());
        crate::memory::push_felts(row, self.witness_low.as_slice());
        crate::memory::push_felts(row, self.witness_high.as_slice());
        assert(row@ =~= old(row)@ + self.flat());
    }

    /// The columns whose cells are the cells of `row` from `pos` on.
    pub fn read_from(row: &[Felt], pos: usize) -> (cols: FieldOpCols)
        requires
            pos + NUM_FIELD_OP_COLS <= row@.len(),
        ensures
            cols.wf(),
            cols.flat() == row@.subrange(pos as int, pos + NUM_FIELD_OP_COLS),
    {
        let total: usize = row.len();
        let cols = FieldOpCols {
            result: crate::memory::read_felts(row, pos, NUM_LIMBS),
            carry: crate::memory::read_felts(row, pos + 32, NUM_LIMBS),
            witness_low: crate::memory::read_felts(row, pos + 64, NUM_WITNESS_LIMBS),
            witness_high: crate::memory::read_felts(row, pos + 126, NUM_WITNESS_LIMBS),
        };
        assert(cols.flat() =~= row@.subrange(pos as int, pos + NUM_FIELD_OP_COLS));
        cols
    }

    /// Columns of the right widths, all zero.
    pub fn new() -> (cols: FieldOpCols)
        ensures
            cols.wf(),
            cols.result@ == Seq::new(NUM_LIMBS as nat, |i: int| crate::field::fzero()),
            cols.carry@ == Seq::new(NUM_LIMBS as nat, |i: int| crate::field::fzero()),
            cols.witness_low@ == Seq::new(NUM_WITNESS_LIMBS as nat, |i: int| crate::field::fzero()),
            cols.witness_high@ == Seq::new(
                NUM_WITNESS_LIMBS as nat,
                |i: int| crate::field::fzero(),
            ),
    {
        FieldOpCols {
            result: zero_felts(NUM_LIMBS),
            carry: zero_felts(NUM_LIMBS),
            witness_low: zero_felts(NUM_WITNESS_LIMBS),
            witness_high: zero_felts(NUM_WITNESS_LIMBS),
        }
    }

    /// Fills the columns with the witness of `a op b` modulo `modulus`, appends the range-check
    /// requests for every limb to `ledger`, and returns the limbs of the result.
    ///
    /// The operands are below the modulus. The columns then satisfy the constraints that
    /// [`FieldOpCols::eval_with_modulus`] asserts for the same operands.
    pub fn populate_with_modulus(
        &mut self,
        ledger: &mut Vec<ByteLookupEvent>,
        shard: u32,
        a: &[u8],
        b: &[u8],
        modulus: &[u8],
        op: FieldOperation,
    ) -> (result: Vec<u8>)
        requires
            a@.len() == NUM_LIMBS,
            b@.len() == NUM_LIMBS,
            modulus@.len() == NUM_LIMBS,
            le_value(a@) < le_value(modulus@),
            le_value(b@) < le_value(modulus@),
        ensures
            final(self).is_witness_of(op, a@, b@, modulus@),
            final(self).satisfies(
                op,
                felts_of_bytes(a@),
                felts_of_bytes(b@),
                felts_of_bytes(modulus@),
            ),
            result@ == result_limbs(op, a@, b@, modulus@),
            result@.len() == NUM_LIMBS,
            le_value(result@) == op_value(op, le_value(a@), le_value(b@)) % le_value(modulus@),
            final(ledger)@ == old(ledger)@ + final(self).range_events(shard),
    {
        let unreduced: Vec<u8> = match op {
            FieldOperation::Add => big_add(a, b),
            FieldOperation::Mul => big_mul(a, b),
        };
        let r_raw: Vec<u8> = big_rem(unreduced.as_slice(), modulus);
        let q_raw: Vec<u8> = big_div(unreduced.as_slice(), modulus);
        let r: Vec<u8> = resize_limbs(r_raw.as_slice(), NUM_LIMBS);
        let q: Vec<u8> = resize_limbs(q_raw.as_slice(), NUM_LIMBS);
        let ghost tv = true_vanishing(op, a@, b@, modulus@);
        let ghost w = root_quotient(tv);
        proof {
            lemma_true_vanishing_root(op, a@, b@, modulus@);
            assert(r@ == result_limbs(op, a@, b@, modulus@));
            assert(q@ == carry_limbs(op, a@, b@, modulus@));
        }
        let mut v: Vec<i64> = Vec::new();
        let mut k: usize = 0;
        while k < NUM_COEFFS
            invariant
                k <= NUM_COEFFS,
                a@.len() == NUM_LIMBS,
                b@.len() == NUM_LIMBS,
                modulus@.len() == NUM_LIMBS,
                r@.len() == NUM_LIMBS,
                q@.len() == NUM_LIMBS,
                tv == vanishing(
                    op,
                    ints_of(a@),
                    ints_of(b@),
                    ints_of(r@),
                    ints_of(q@),
                    ints_of(modulus@),
                ),
                v@.len() == k,
                forall|j: int| 0 <= j < k ==> (#[trigger] v@[j]) as int == tv[j],
            decreases NUM_COEFFS - k,
        {
            let opk: u64 = match op {
                FieldOperation::Add => if k < NUM_LIMBS {
                    a[k] as u64 + b[k] as u64
                } else {
                    0
                },
                FieldOperation::Mul => conv_bytes(a, b, k),
            };
            let rk: u64 = if k < NUM_LIMBS {
                r[k] as u64
            } else {
                0
            };
            let qpk: u64 = conv_bytes(q.as_slice(), modulus, k);
            v.push(opk as i64 - rk as i64 - qpk as i64);
            k = k + 1;
        }
        let mut low: Vec<Felt> = Vec::new();
        let mut high: Vec<Felt> = Vec::new();
        let mut e: i64 = 0;
        let mut k: usize = 0;
        proof {
            assert(tv.skip(0) =~= tv);
        }
        while k < NUM_WITNESS_LIMBS
            invariant
                k <= NUM_WITNESS_LIMBS,
                a@.len() == NUM_LIMBS,
                b@.len() == NUM_LIMBS,
                modulus@.len() == NUM_LIMBS,
                le_value(a@) < le_value(modulus@),
                le_value(b@) < le_value(modulus@),
                tv == true_vanishing(op, a@, b@, modulus@),
                w == root_quotient(tv),
                result_limbs(op, a@, b@, modulus@).len() == NUM_LIMBS,
                carry_limbs(op, a@, b@, modulus@).len() == NUM_LIMBS,
                v@.len() == NUM_COEFFS,
                forall|j: int| 0 <= j < NUM_COEFFS ==> (#[trigger] v@[j]) as int == tv[j],
                e as int == eval256(tv.skip(k as int)),
                -witness_bound() <= e <= witness_bound(),
                low@.len() == k,
                high@.len() == k,
                forall|j: int|
                    0 <= j < k ==> (#[trigger] low@[j]).value == (w[j] + WITNESS_OFFSET) % 256,
                forall|j: int|
                    0 <= j < k ==> (#[trigger] high@[j]).value == (w[j] + WITNESS_OFFSET) / 256,
            decreases NUM_WITNESS_LIMBS - k,
        {
            proof {
                let t = tv.skip(k as int);
                assert(t[0] == tv[k as int]);
                assert(t.skip(1) =~= tv.skip(k + 1));
                assert(eval256(t) == tv[k as int] + 256 * eval256(tv.skip(k + 1)));
                lemma_witness_range(op, a@, b@, modulus@, k as int);
                lemma_vanishing_bound(
                    op,
                    a@,
                    b@,
                    result_limbs(op, a@, b@, modulus@),
                    carry_limbs(op, a@, b@, modulus@),
                    modulus@,
                    k as int,
                );
                assert(w[k as int] == eval256(tv.skip(k + 1)));
            }
            let shifted: i64 = (e - v[k] + 256 * 16384) / 256;
            assert(shifted == w[k as int] + WITNESS_OFFSET);
            low.push(Felt::from_canonical_u32((shifted % 256) as u32));
            high.push(Felt::from_canonical_u32((shifted / 256) as u32));
            e = shifted - 16384;
            k = k + 1;
        }
        self.result = bytes_to_felts(r.as_slice());
        self.carry = bytes_to_felts(q.as_slice());
        self.witness_low = low;
        self.witness_high = high;
        proof {
            lemma_witness_satisfies(*self, op, a@, b@, modulus@);
        }
        add_u8_range_checks_field(ledger, shard, self.result.as_slice());
        add_u8_range_checks_field(ledger, shard, self.carry.as_slice());
        add_u8_range_checks_field(ledger, shard, self.witness_low.as_slice());
        add_u8_range_checks_field(ledger, shard, self.witness_high.as_slice());
        assert(ledger@ =~= old(ledger)@ + self.range_events(shard));
        r
    }
}

/// Coefficient `k` of the product of two polynomials over the field.
fn conv_felts(a: &[Felt], b: &[Felt], k: usize) -> (s: Felt)
    ensures
        s == felt_of(conv_sum(residues(a@), residues(b@), k as int, a@.len() as int)),
{
    let mut s: Felt = Felt::zero();
    let mut i: usize = 0;
    while i < a.len()
        invariant
            i <= a@.len(),
            s == felt_of(conv_sum(residues(a@), residues(b@), k as int, i as int)),
        decreases a@.len() - i,
    {
        let ghost before = conv_sum(residues(a@), residues(b@), k as int, i as int);
        if i <= k && k - i < b.len() {
            let t: Felt = a[i].mul(b[k - i]);
            proof {
                let x = residue(a@[i as int]);
                let y = residue(b@[k - i]);
                lemma_rep_cell(a@[i as int]);
                lemma_rep_cell(b@[k - i]);
                lemma_rep_mul(a@[i as int], x, b@[k - i], y);
                lemma_rep_felt_of(before);
                lemma_rep_add(s, before, t, x * y);
            }
            s = s.add(t);
        } else {
            assert(at(residues(b@), k - i) == 0);
            assert(at(residues(a@), i as int) * 0 == 0);
        }
        i = i + 1;
    }
    s
}

impl FieldOpCols {
    /// Coefficient `j` of the witness polynomial, as the columns hold it.
    fn witness_coeff(&self, j: usize) -> (c: Felt)
        requires
            self.wf(),
            j < NUM_WITNESS_LIMBS,
        ensures
            c == felt_of(self.witness_ints()[j as int]),
    {
        let base: Felt = Felt::from_canonical_u32(256);
        let offset: Felt = Felt::from_canonical_u32(WITNESS_OFFSET);
        let t: Felt = base.mul(self.witness_high[j]);
        let u: Felt = self.witness_low[j].add(t);
        proof {
            let lo = self.witness_low@[j as int];
            let hi = self.witness_high@[j as int];
            lemma_rep_cell(lo);
            lemma_rep_cell(hi);
            lemma_rep_felt_of(256);
            lemma_rep_felt_of(WITNESS_OFFSET as int);
            lemma_rep_mul(base, 256, hi, residue(hi));
            lemma_rep_add(lo, residue(lo), t, 256 * residue(hi));
            lemma_rep_sub(u, residue(lo) + 256 * residue(hi), offset, WITNESS_OFFSET as int);
        }
        u.sub(offset)
    }

    /// The value of constraint `k`: coefficient `k` of `a op b - r - q * p - w * (x - 256)`.
    fn constraint_value(
        &self,
        op: FieldOperation,
        a: &[Felt],
        b: &[Felt],
        p: &[Felt],
        k: usize,
    ) -> (c: Felt)
        requires
            self.wf(),
            a@.len() == NUM_LIMBS,
            b@.len() == NUM_LIMBS,
            p@.len() == NUM_LIMBS,
            k < NUM_COEFFS,
        ensures
            c == felt_of(self.constraint_int(op, a@, b@, p@, k as int)),
    {
        let ghost opi = op_coeff(op, residues(a@), residues(b@), k as int);
        let ghost ri = at(residues(self.result@), k as int);
        let ghost qpi = conv_sum(residues(self.carry@), residues(p@), k as int, NUM_LIMBS as int);
        let ghost wi = self.witness_ints();
        let opk: Felt = match op {
            FieldOperation::Add => if k < NUM_LIMBS {
                proof {
                    lemma_rep_cell(a@[k as int]);
                    lemma_rep_cell(b@[k as int]);
                    lemma_rep_add(
                        a@[k as int],
                        residue(a@[k as int]),
                        b@[k as int],
                        residue(b@[k as int]),
                    );
                }
                a[k].add(b[k])
            } else {
                Felt::zero()
            },
            FieldOperation::Mul => conv_felts(a, b, k),
        };
        assert(opk == felt_of(opi));
        let rk: Felt = if k < NUM_LIMBS {
            self.result[k]
        } else {
            Felt::zero()
        };
        let qpk: Felt = conv_felts(self.carry.as_slice(), p, k);
        let below: Felt = if k >= 1 {
            self.witness_coeff(k - 1)
        } else {
            Felt::zero()
        };
        let here: Felt = if k < NUM_WITNESS_LIMBS {
            self.witness_coeff(k)
        } else {
            Felt::zero()
        };
        let base: Felt = Felt::from_canonical_u32(256);
        let scaled: Felt = base.mul(here);
        let quotient_term: Felt = below.sub(scaled);
        let d1: Felt = opk.sub(rk);
        let d2: Felt = d1.sub(qpk);
        proof {
            lemma_rep_felt_of(opi);
            lemma_rep_cell(rk);
            lemma_rep_felt_of(0);
            assert(crate::field::rep(rk, ri)) by {
                if k < NUM_LIMBS {
                    lemma_rep_cell(self.result@[k as int]);
                }
            }
            lemma_rep_sub(opk, opi, rk, ri);
            lemma_rep_felt_of(qpi);
            lemma_rep_sub(d1, opi - ri, qpk, qpi);
            lemma_rep_felt_of(256);
            lemma_rep_felt_of(at(wi, k as int));
            lemma_rep_felt_of(at(wi, k - 1));
            lemma_rep_mul(base, 256, here, at(wi, k as int));
            lemma_rep_sub(below, at(wi, k - 1), scaled, 256 * at(wi, k as int));
            lemma_rep_sub(d2, opi - ri - qpi, quotient_term, times_root(wi, k as int));
        }
        d2.sub(quotient_term)
    }

    /// Fills the columns with the witness of `a op b` modulo the BN254 scalar field's order; see
    /// [`FieldOpCols::populate_with_modulus`].
    pub fn populate(
        &mut self,
        ledger: &mut Vec<ByteLookupEvent>,
        shard: u32,
        a: &[u8],
        b: &[u8],
        op: FieldOperation,
    ) -> (result: Vec<u8>)
        requires
            a@.len() == NUM_LIMBS,
            b@.len() == NUM_LIMBS,
            le_value(a@) < bn254_scalar_modulus(),
            le_value(b@) < bn254_scalar_modulus(),
        ensures
            final(self).is_witness_of(op, a@, b@, bn254_scalar_modulus_seq()),
            final(self).satisfies(
                op,
                felts_of_bytes(a@),
                felts_of_bytes(b@),
                felts_of_bytes(bn254_scalar_modulus_seq()),
            ),
            result@ == result_limbs(op, a@, b@, bn254_scalar_modulus_seq()),
            result@.len() == NUM_LIMBS,
            le_value(result@) == op_value(op, le_value(a@), le_value(b@)) % bn254_scalar_modulus(),
            final(ledger)@ == old(ledger)@ + final(self).range_events(shard),
    {
        let p: Vec<u8> = bn254_scalar_modulus_limbs();
        self.populate_with_modulus(ledger, shard, a, b, p.as_slice(), op)
    }

    /// Asserts the constraints of `a op b` modulo the BN254 scalar field's order; see
    /// [`FieldOpCols::eval_with_modulus`].
    pub fn eval(
        &self,
        builder: &mut ConstraintBuilder,
        a: &[Felt],
        b: &[Felt],
        op: FieldOperation,
        is_real: Felt,
    )
        requires
            self.wf(),
            a@.len() == NUM_LIMBS,
            b@.len() == NUM_LIMBS,
        ensures
            final(builder).extends(
                *old(builder),
                self.satisfies_when(
                    is_real,
                    op,
                    a@,
                    b@,
                    felts_of_bytes(bn254_scalar_modulus_seq()),
                ),
                self.range_interactions(is_real),
            ),
    {
        let p: Vec<u8> = bn254_scalar_modulus_limbs();
        self.eval_with_modulus(builder, a, b, p.as_slice(), op, is_real)
    }

    /// Asserts the constraints of `a op b` modulo `modulus` on the columns, each in force where
    /// `is_real` is not zero, and sends the byte table the range checks of every cell.
    pub fn eval_with_modulus(
        &self,
        builder: &mut ConstraintBuilder,
        a: &[Felt],
        b: &[Felt],
        modulus: &[u8],
        op: FieldOperation,
        is_real: Felt,
    )
        requires
            self.wf(),
            a@.len() == NUM_LIMBS,
            b@.len() == NUM_LIMBS,
            modulus@.len() == NUM_LIMBS,
        ensures
            final(builder).extends(
                *old(builder),
                self.satisfies_when(is_real, op, a@, b@, felts_of_bytes(modulus@)),
                self.range_interactions(is_real),
            ),
    {
        let p: Vec<Felt> = bytes_to_felts(modulus);
        let mut k: usize = 0;
        while k < NUM_COEFFS
            invariant
                k <= NUM_COEFFS,
                self.wf(),
                a@.len() == NUM_LIMBS,
                b@.len() == NUM_LIMBS,
                p@.len() == NUM_LIMBS,
                p@ == felts_of_bytes(modulus@),
                builder.asserted(
                    *old(builder),
                    forall|j: int|
                        0 <= j < k ==> zero_when(
                            is_real,
                            felt_of(#[trigger] self.constraint_int(op, a@, b@, p@, j)),
                        ),
                ),
            decreases NUM_COEFFS - k,
        {
            let c: Felt = self.constraint_value(op, a, b, p.as_slice(), k);
            let ghost before = *builder;
            builder.assert_zero_when(is_real, c);
            k = k + 1;
        }
        builder.slice_range_check_u8(self.result.as_slice(), is_real);
        builder.slice_range_check_u8(self.carry.as_slice(), is_real);
        builder.slice_range_check_u8(self.witness_low.as_slice(), is_real);
        builder.slice_range_check_u8(self.witness_high.as_slice(), is_real);
        assert(builder.interactions@ =~= old(builder).interactions@ + self.range_interactions(
            is_real,
        ));
    }
}

/// Witness columns with the same cells hold the same limbs, and satisfy the same constraints.
pub proof fn lemma_field_op_by_cells(x: FieldOpCols, y: FieldOpCols)
    requires
        x.wf(),
        y.wf(),
        x.flat() == y.flat(),
    ensures
        x.result@ == y.result@,
        x.carry@ == y.carry@,
        x.witness_low@ == y.witness_low@,
        x.witness_high@ == y.witness_high@,
        x.witness_ints() == y.witness_ints(),
        forall|is_real: Felt, op: FieldOperation, a: Seq<Felt>, b: Seq<Felt>, p: Seq<Felt>|
            #[trigger] x.satisfies_when(is_real, op, a, b, p) == y.satisfies_when(
                is_real,
                op,
                a,
                b,
                p,
            ),
{
    let f = x.flat();
    let g = y.flat();
    assert(x.result@ =~= f.subrange(0, 32));
    assert(y.result@ =~= g.subrange(0, 32));
    assert(x.carry@ =~= f.subrange(32, 64));
    assert(y.carry@ =~= g.subrange(32, 64));
    assert(x.witness_low@ =~= f.subrange(64, 126));
    assert(y.witness_low@ =~= g.subrange(64, 126));
    assert(x.witness_high@ =~= f.subrange(126, 188));
    assert(y.witness_high@ =~= g.subrange(126, 188));
    assert(x.witness_ints() =~= y.witness_ints());
    assert forall|is_real: Felt, op: FieldOperation, a: Seq<Felt>, b: Seq<Felt>, p: Seq<Felt>|
        #[trigger] x.satisfies_when(is_real, op, a, b, p) == y.satisfies_when(
            is_real,
            op,
            a,
            b,
            p,
        ) by {
        assert forall|k: int| 0 <= k < NUM_COEFFS implies #[trigger] x.constraint_int(
            op,
            a,
            b,
            p,
            k,
        ) == y.constraint_int(op, a, b, p, k) by {}
        if x.satisfies_when(is_real, op, a, b, p) {
            assert forall|k: int| 0 <= k < NUM_COEFFS implies zero_when(
                is_real,
                felt_of(#[trigger] y.constraint_int(op, a, b, p, k)),
            ) by {
                assert(x.constraint_int(op, a, b, p, k) == y.constraint_int(op, a, b, p, k));
            }
        }
        if y.satisfies_when(is_real, op, a, b, p) {
            assert forall|k: int| 0 <= k < NUM_COEFFS implies zero_when(
                is_real,
                felt_of(#[trigger] x.constraint_int(op, a, b, p, k)),
            ) by {
                assert(x.constraint_int(op, a, b, p, k) == y.constraint_int(op, a, b, p, k));
            }
        }
    }
}

/// The byte that a cell holds, where it holds one.
pub open spec fn bytes_of_felts(s: Seq<Felt>) -> Seq<u8> {
    Seq::new(s.len(), |i: int| s[i].value as u8)
}

/// Whether every cell of a run holds a byte: what the range checks ask of the byte table.
pub open spec fn are_bytes(s: Seq<Felt>) -> bool {
    forall|i: int| 0 <= i < s.len() ==> (#[trigger] s[i]).value < 256
}

/// An integer within the field order on either side of zero that the field takes for zero is
/// zero.
pub proof fn lemma_small_residue_zero(x: int)
    requires
        -modulus() < x < modulus(),
        x % modulus() == 0,
    ensures
        x == 0,
{
    if x > 0 {
        vstd::arithmetic::div_mod::lemma_small_mod(x as nat, modulus() as nat);
    } else if x < 0 {
        vstd::arithmetic::div_mod::lemma_small_mod((x + modulus()) as nat, modulus() as nat);
        vstd::arithmetic::div_mod::lemma_mod_add_multiples_vanish(x, modulus());
    }
}

/// The constraints are sound: columns whose cells are bytes and that satisfy the constraints
/// of `a op b` modulo `p` hold a result `r` and a quotient `q` with `a op b = r + q * p` over
/// the integers, so that `r` is `a op b` modulo `p`, reduced or not.
pub proof fn lemma_constraints_sound(
    cols: FieldOpCols,
    op: FieldOperation,
    a: Seq<u8>,
    b: Seq<u8>,
    p: Seq<u8>,
)
    requires
        cols.wf(),
        a.len() == NUM_LIMBS,
        b.len() == NUM_LIMBS,
        p.len() == NUM_LIMBS,
        are_bytes(cols.result@),
        are_bytes(cols.carry@),
        are_bytes(cols.witness_low@),
        are_bytes(cols.witness_high@),
        cols.satisfies(op, felts_of_bytes(a), felts_of_bytes(b), felts_of_bytes(p)),
    ensures
        op_value(op, le_value(a), le_value(b)) == le_value(bytes_of_felts(cols.result@)) + le_value(
            bytes_of_felts(cols.carry@),
        ) * le_value(p),
        le_value(p) > 0 ==> le_value(bytes_of_felts(cols.result@)) % le_value(p) == op_value(
            op,
            le_value(a),
            le_value(b),
        ) % le_value(p),
{
    let r = bytes_of_felts(cols.result@);
    let q = bytes_of_felts(cols.carry@);
    let w = cols.witness_ints();
    let v = vanishing(op, ints_of(a), ints_of(b), ints_of(r), ints_of(q), ints_of(p));
    assert(residues(felts_of_bytes(a)) =~= ints_of(a));
    assert(residues(felts_of_bytes(b)) =~= ints_of(b));
    assert(residues(felts_of_bytes(p)) =~= ints_of(p));
    assert(residues(cols.result@) =~= ints_of(r)) by {
        assert forall|i: int| 0 <= i < NUM_LIMBS implies residues(cols.result@)[i] == ints_of(r)[i] by {
            assert(cols.result@[i].value < 256);
        }
    }
    assert(residues(cols.carry@) =~= ints_of(q)) by {
        assert forall|i: int| 0 <= i < NUM_LIMBS implies residues(cols.carry@)[i] == ints_of(q)[i] by {
            assert(cols.carry@[i].value < 256);
        }
    }
    assert forall|k: int| 0 <= k < NUM_WITNESS_LIMBS implies -16384 <= #[trigger] w[k] <= 49151 by {
        assert(cols.witness_low@[k].value < 256);
        assert(cols.witness_high@[k].value < 256);
    }
    assert forall|k: int| 0 <= k < NUM_COEFFS implies #[trigger] v[k] == times_root_poly(w)[k] by {
        lemma_vanishing_bound(op, a, b, r, q, p, k);
        let t = times_root(w, k);
        assert(-16384 - 256 * 49151 <= t <= 49151 + 256 * 16384) by {
            if 0 <= k - 1 < NUM_WITNESS_LIMBS {
                assert(-16384 <= w[k - 1] <= 49151);
            }
            if 0 <= k < NUM_WITNESS_LIMBS {
                assert(-16384 <= w[k] <= 49151);
            }
        }
        let c = cols.constraint_int(op, felts_of_bytes(a), felts_of_bytes(b), felts_of_bytes(p), k);
        assert(c == v[k] - t);
        assert(c % modulus() == 0);
        lemma_small_residue_zero(c);
    }
    assert(v =~= times_root_poly(w));
    lemma_times_root_vanishes(w);
    lemma_vanishing_eval(op, ints_of(a), ints_of(b), ints_of(r), ints_of(q), ints_of(p));
    lemma_le_value_is_eval(a);
    lemma_le_value_is_eval(b);
    lemma_le_value_is_eval(p);
    lemma_le_value_is_eval(r);
    lemma_le_value_is_eval(q);
    let n = op_value(op, le_value(a), le_value(b)) as int;
    let vr = le_value(r) as int;
    let vq = le_value(q) as int;
    let vp = le_value(p) as int;
    assert(n == vr + vq * vp);
    if vp > 0 {
        vstd::arithmetic::div_mod::lemma_mod_multiples_vanish(vq, vr, vp);
        assert(vp * vq == vq * vp) by (nonlinear_arith);
    }
}

/// On a real row the constraints are in force: what holds where `is_real` is one holds.
pub proof fn lemma_satisfies_when_real(
    cols: FieldOpCols,
    op: FieldOperation,
    a: Seq<Felt>,
    b: Seq<Felt>,
    p: Seq<Felt>,
)
    requires
        cols.satisfies_when(crate::field::fone(), op, a, b, p),
    ensures
        cols.satisfies(op, a, b, p),
{
    assert forall|k: int| 0 <= k < NUM_COEFFS implies #[trigger] cols.constraint_int(
        op,
        a,
        b,
        p,
        k,
    ) % modulus() == 0 by {
        let c = cols.constraint_int(op, a, b, p, k);
        assert(zero_when(crate::field::fone(), felt_of(c)));
        crate::field::lemma_residue_felt_of(c);
        crate::field::lemma_rep_felt_of(1);
        crate::field::lemma_rep_felt_of(c);
        crate::field::lemma_rep_mul(crate::field::fone(), 1, felt_of(c), c);
        assert(1 * c == c);
    }
}

/// Cells that hold bytes are the cells of their bytes.
pub proof fn lemma_bytes_of_felts(s: Seq<Felt>)
    requires
        are_bytes(s),
    ensures
        felts_of_bytes(bytes_of_felts(s)) == s,
{
    assert forall|i: int| 0 <= i < s.len() implies felts_of_bytes(bytes_of_felts(s))[i] == s[i] by {
        assert(s[i].value < 256);
    }
    assert(felts_of_bytes(bytes_of_felts(s)) =~= s);
}

/// Where the constraints are zero, they are zero whatever `is_real` is.
pub proof fn lemma_satisfies_when(
    cols: FieldOpCols,
    is_real: Felt,
    op: FieldOperation,
    a: Seq<Felt>,
    b: Seq<Felt>,
    p: Seq<Felt>,
)
    requires
        cols.satisfies(op, a, b, p) || crate::air::is_zero(is_real),
    ensures
        cols.satisfies_when(is_real, op, a, b, p),
{
    assert forall|k: int| 0 <= k < NUM_COEFFS implies zero_when(
        is_real,
        felt_of(#[trigger] cols.constraint_int(op, a, b, p, k)),
    ) by {
        let c = cols.constraint_int(op, a, b, p, k);
        crate::field::lemma_residue_felt_of(c);
        crate::air::lemma_zero_when_zero(is_real, felt_of(c));
    }
}

/// The order of the scalar field of the BN254 curve, the modulus of the chips' arithmetic.
pub open spec fn bn254_scalar_modulus() -> nat {
    0x30644e72e131a029b85045b68181585d2833e84879b9709143e1f593f0000001nat
}

/// The words of [`bn254_scalar_modulus`], lowest first.
pub open spec fn bn254_scalar_modulus_words() -> Seq<u32> {
    seq![
        0xf0000001u32,
        0x43e1f593,
        0x79b97091,
        0x2833e848,
        0x8181585d,
        0xb85045b6,
        0xe131a029,
        0x30644e72,
    ]
}

/// The limbs of [`bn254_scalar_modulus`].
pub open spec fn bn254_scalar_modulus_seq() -> Seq<u8> {
    bytes_of_words(bn254_scalar_modulus_words())
}

/// The limbs spell the modulus.
pub proof fn lemma_bn254_scalar_modulus()
    ensures
        bn254_scalar_modulus_seq().len() == NUM_LIMBS,
        le_value(bn254_scalar_modulus_seq()) == bn254_scalar_modulus(),
{
    let w = bn254_scalar_modulus_words();
    lemma_words_value(w);
    reveal_with_fuel(words_eval, 9);
    assert(w.skip(1).skip(1).skip(1).skip(1).skip(1).skip(1).skip(1).skip(1).len() == 0);
}

/// The limbs of the BN254 scalar field's order.
pub fn bn254_scalar_modulus_limbs() -> (p: Vec<u8>)
    ensures
        p@ == bn254_scalar_modulus_seq(),
        p@.len() == NUM_LIMBS,
        le_value(p@) == bn254_scalar_modulus(),
{
    let words: [u32; 8] = [
        0xf0000001u32,
        0x43e1f593,
        0x79b97091,
        0x2833e848,
        0x8181585d,
        0xb85045b6,
        0xe131a029,
        0x30644e72,
    ];
    proof {
        lemma_bn254_scalar_modulus();
        assert(words@ =~= bn254_scalar_modulus_words());
    }
    words_to_bytes_le(words.as_slice())
}

} // verus!
