//! The arithmetic that the three multiply-add chips share: `x + a * b` modulo the BN254 scalar
//! field's order, witnessed as a multiplication followed by an addition.
use crate::air::{eq_when, lemma_eq_felt_same, lemma_zero_when_zero, ConstraintBuilder, Interaction};
use crate::field::Felt;
use crate::field_op::{
    bn254_scalar_modulus, bn254_scalar_modulus_seq, felts_of_bytes, lemma_bn254_scalar_modulus,
    lemma_satisfies_when, lemma_true_vanishing_root, lemma_witness_satisfies, result_limbs,
    FieldOpCols, FieldOperation, NUM_LIMBS,
};
use crate::limbs::{bytes_of_words, bytes_to_words_le, le_value, resize_limbs, words_to_bytes_le};
use crate::lookup::ByteLookupEvent;
use vstd::prelude::*;

verus! {

/// The limbs of `a * b` modulo the order.
pub open spec fn mul_limbs(a: Seq<u8>, b: Seq<u8>) -> Seq<u8> {
    result_limbs(FieldOperation::Mul, a, b, bn254_scalar_modulus_seq())
}

/// The limbs of `x + a * b` modulo the order.
pub open spec fn mul_add_limbs(x: Seq<u8>, a: Seq<u8>, b: Seq<u8>) -> Seq<u8> {
    result_limbs(FieldOperation::Add, x, mul_limbs(a, b), bn254_scalar_modulus_seq())
}

/// `x + a * b` modulo the order.
pub open spec fn mul_add_value(x: nat, a: nat, b: nat) -> nat {
    (x + a * b) % bn254_scalar_modulus()
}

/// Whether `mul` and `add` hold the witnesses of `a * b` and of `x + (a * b)`.
pub open spec fn is_mul_add_witness(
    mul: FieldOpCols,
    add: FieldOpCols,
    x: Seq<u8>,
    a: Seq<u8>,
    b: Seq<u8>,
) -> bool {
    &&& mul.is_witness_of(FieldOperation::Mul, a, b, bn254_scalar_modulus_seq())
    &&& add.is_witness_of(FieldOperation::Add, x, mul_limbs(a, b), bn254_scalar_modulus_seq())
}

/// The constraints on the two witnesses of a row: the multiplication of `a` by `b`, the
/// addition of `x` to its result, and that the sum's limbs are those of `written`; each in
/// force where `is_real` is not zero.
pub open spec fn mul_add_constraints(
    mul: FieldOpCols,
    add: FieldOpCols,
    x: Seq<Felt>,
    a: Seq<Felt>,
    b: Seq<Felt>,
    written: Seq<Felt>,
    is_real: Felt,
) -> bool {
    &&& mul.satisfies_when(
        is_real,
        FieldOperation::Mul,
        a,
        b,
        felts_of_bytes(bn254_scalar_modulus_seq()),
    )
    &&& add.satisfies_when(
        is_real,
        FieldOperation::Add,
        x,
        mul.result@,
        felts_of_bytes(bn254_scalar_modulus_seq()),
    )
    &&& forall|i: int| 0 <= i < NUM_LIMBS ==> eq_when(is_real, #[trigger] add.result@[i], written[i])
}

/// The interactions that the constraints on the two witnesses declare.
pub open spec fn mul_add_interactions(mul: FieldOpCols, add: FieldOpCols, is_real: Felt) -> Seq<
    Interaction,
> {
    mul.range_interactions(is_real) + add.range_interactions(is_real)
}

/// The limbs of `x + a * b` spell that value.
pub proof fn lemma_mul_add_value(x: Seq<u8>, a: Seq<u8>, b: Seq<u8>)
    requires
        x.len() == NUM_LIMBS,
        a.len() == NUM_LIMBS,
        b.len() == NUM_LIMBS,
        le_value(x) < bn254_scalar_modulus(),
        le_value(a) < bn254_scalar_modulus(),
        le_value(b) < bn254_scalar_modulus(),
    ensures
        mul_limbs(a, b).len() == NUM_LIMBS,
        le_value(mul_limbs(a, b)) == (le_value(a) * le_value(b)) % bn254_scalar_modulus(),
        le_value(mul_limbs(a, b)) < bn254_scalar_modulus(),
        mul_add_limbs(x, a, b).len() == NUM_LIMBS,
        le_value(mul_add_limbs(x, a, b)) == mul_add_value(le_value(x), le_value(a), le_value(b)),
{
    let p = bn254_scalar_modulus_seq();
    let m = bn254_scalar_modulus() as int;
    lemma_bn254_scalar_modulus();
    lemma_true_vanishing_root(FieldOperation::Mul, a, b, p);
    let ab = (le_value(a) * le_value(b)) as int;
    vstd::arithmetic::div_mod::lemma_mod_bound(ab, m);
    lemma_true_vanishing_root(FieldOperation::Add, x, mul_limbs(a, b), p);
    vstd::arithmetic::div_mod::lemma_add_mod_noop_right(le_value(x) as int, ab, m);
}

/// The witnesses of `x + a * b` satisfy the constraints on them, with the limbs of the sum as
/// what is written.
pub proof fn lemma_mul_add_sound(
    mul: FieldOpCols,
    add: FieldOpCols,
    x: Seq<u8>,
    a: Seq<u8>,
    b: Seq<u8>,
    is_real: Felt,
)
    requires
        x.len() == NUM_LIMBS,
        a.len() == NUM_LIMBS,
        b.len() == NUM_LIMBS,
        le_value(x) < bn254_scalar_modulus(),
        le_value(a) < bn254_scalar_modulus(),
        le_value(b) < bn254_scalar_modulus(),
        is_mul_add_witness(mul, add, x, a, b),
    ensures
        mul_add_constraints(
            mul,
            add,
            felts_of_bytes(x),
            felts_of_bytes(a),
            felts_of_bytes(b),
            felts_of_bytes(mul_add_limbs(x, a, b)),
            is_real,
        ),
{
    let p = bn254_scalar_modulus_seq();
    lemma_bn254_scalar_modulus();
    lemma_mul_add_value(x, a, b);
    lemma_witness_satisfies(mul, FieldOperation::Mul, a, b, p);
    lemma_witness_satisfies(add, FieldOperation::Add, x, mul_limbs(a, b), p);
    lemma_satisfies_when(
        mul,
        is_real,
        FieldOperation::Mul,
        felts_of_bytes(a),
        felts_of_bytes(b),
        felts_of_bytes(p),
    );
    lemma_satisfies_when(
        add,
        is_real,
        FieldOperation::Add,
        felts_of_bytes(x),
        mul.result@,
        felts_of_bytes(p),
    );
    let written = felts_of_bytes(mul_add_limbs(x, a, b));
    assert forall|i: int| 0 <= i < NUM_LIMBS implies eq_when(
        is_real,
        #[trigger] add.result@[i],
        written[i],
    ) by {
        lemma_eq_felt_same(add.result@[i], written[i]);
    }
}

/// Constraints that are in force only where `is_real` is not zero hold where it is zero.
pub proof fn lemma_mul_add_unreal(
    mul: FieldOpCols,
    add: FieldOpCols,
    x: Seq<Felt>,
    a: Seq<Felt>,
    b: Seq<Felt>,
    written: Seq<Felt>,
    is_real: Felt,
)
    requires
        crate::air::is_zero(is_real),
    ensures
        mul_add_constraints(mul, add, x, a, b, written, is_real),
{
    let p = felts_of_bytes(bn254_scalar_modulus_seq());
    lemma_satisfies_when(mul, is_real, FieldOperation::Mul, a, b, p);
    lemma_satisfies_when(add, is_real, FieldOperation::Add, x, mul.result@, p);
    assert forall|i: int| 0 <= i < NUM_LIMBS implies eq_when(
        is_real,
        #[trigger] add.result@[i],
        written[i],
    ) by {
        lemma_zero_when_zero(is_real, crate::field::fsub(add.result@[i], written[i]));
    }
}

/// Whether the constraints on two witnesses hold depends on the witnesses' cells alone.
pub proof fn lemma_mul_add_by_cells(
    mul: FieldOpCols,
    add: FieldOpCols,
    other_mul: FieldOpCols,
    other_add: FieldOpCols,
    x: Seq<Felt>,
    a: Seq<Felt>,
    b: Seq<Felt>,
    written: Seq<Felt>,
    is_real: Felt,
)
    requires
        mul.wf(),
        add.wf(),
        other_mul.wf(),
        other_add.wf(),
        mul.flat() == other_mul.flat(),
        add.flat() == other_add.flat(),
    ensures
        mul_add_constraints(mul, add, x, a, b, written, is_real) == mul_add_constraints(
            other_mul,
            other_add,
            x,
            a,
            b,
            written,
            is_real,
        ),
{
    crate::field_op::lemma_field_op_by_cells(mul, other_mul);
    crate::field_op::lemma_field_op_by_cells(add, other_add);
    let p = felts_of_bytes(bn254_scalar_modulus_seq());
    assert(mul.satisfies_when(is_real, FieldOperation::Mul, a, b, p) == other_mul.satisfies_when(
        is_real,
        FieldOperation::Mul,
        a,
        b,
        p,
    ));
    assert(add.satisfies_when(is_real, FieldOperation::Add, x, mul.result@, p)
        == other_add.satisfies_when(is_real, FieldOperation::Add, x, other_mul.result@, p));
}

/// The constraints of a real row are sound: where every cell of the two witnesses holds a
/// byte, as the range checks ask, and the constraints hold with `is_real` one, the limbs
/// written spell `x + a * b` modulo the order, reduced or not.
pub proof fn lemma_mul_add_constraints_sound(
    mul: FieldOpCols,
    add: FieldOpCols,
    x: Seq<u8>,
    a: Seq<u8>,
    b: Seq<u8>,
    written: Seq<u8>,
)
    requires
        mul.wf(),
        add.wf(),
        x.len() == NUM_LIMBS,
        a.len() == NUM_LIMBS,
        b.len() == NUM_LIMBS,
        written.len() == NUM_LIMBS,
        crate::field_op::are_bytes(mul.result@),
        crate::field_op::are_bytes(mul.carry@),
        crate::field_op::are_bytes(mul.witness_low@),
        crate::field_op::are_bytes(mul.witness_high@),
        crate::field_op::are_bytes(add.result@),
        crate::field_op::are_bytes(add.carry@),
        crate::field_op::are_bytes(add.witness_low@),
        crate::field_op::are_bytes(add.witness_high@),
        mul_add_constraints(
            mul,
            add,
            felts_of_bytes(x),
            felts_of_bytes(a),
            felts_of_bytes(b),
            felts_of_bytes(written),
            crate::field::fone(),
        ),
    ensures
        le_value(written) % bn254_scalar_modulus() == mul_add_value(
            le_value(x),
            le_value(a),
            le_value(b),
        ),
{
    let p = bn254_scalar_modulus_seq();
    let pf = felts_of_bytes(p);
    let one = crate::field::fone();
    lemma_bn254_scalar_modulus();
    let r1 = crate::field_op::bytes_of_felts(mul.result@);
    let q1 = crate::field_op::bytes_of_felts(mul.carry@);
    let r2 = crate::field_op::bytes_of_felts(add.result@);
    let q2 = crate::field_op::bytes_of_felts(add.carry@);
    crate::field_op::lemma_satisfies_when_real(
        mul,
        FieldOperation::Mul,
        felts_of_bytes(a),
        felts_of_bytes(b),
        pf,
    );
    crate::field_op::lemma_constraints_sound(mul, FieldOperation::Mul, a, b, p);
    crate::field_op::lemma_bytes_of_felts(mul.result@);
    crate::field_op::lemma_satisfies_when_real(
        add,
        FieldOperation::Add,
        felts_of_bytes(x),
        mul.result@,
        pf,
    );
    crate::field_op::lemma_constraints_sound(add, FieldOperation::Add, x, r1, p);
    assert(r2 =~= written) by {
        assert forall|i: int| 0 <= i < NUM_LIMBS implies r2[i] == written[i] by {
            assert(eq_when(one, add.result@[i], felts_of_bytes(written)[i]));
            crate::air::lemma_eq_when_real(add.result@[i], felts_of_bytes(written)[i]);
            assert(add.result@[i].value < 256);
        }
    }
    let m = bn254_scalar_modulus() as int;
    let vx = le_value(x) as int;
    let va = le_value(a) as int;
    let vb = le_value(b) as int;
    let vw = le_value(written) as int;
    let v1 = le_value(r1) as int;
    let k1 = le_value(q1) as int;
    let k2 = le_value(q2) as int;
    assert(va * vb == v1 + k1 * m);
    assert(vx + v1 == vw + k2 * m);
    assert(vx + va * vb == vw + (k1 + k2) * m) by (nonlinear_arith)
        requires
            va * vb == v1 + k1 * m,
            vx + v1 == vw + k2 * m,
    ;
    assert(m * (k1 + k2) == (k1 + k2) * m) by (nonlinear_arith);
    vstd::arithmetic::div_mod::lemma_mod_multiples_vanish(k1 + k2, vw, m);
}

/// Fills `mul` with the witness of `a * b` and `add` with the witness of `x + (a * b)`,
/// appends the range-check requests of both to `ledger`, and returns the limbs of the sum.
pub fn populate_mul_add(
    mul: &mut FieldOpCols,
    add: &mut FieldOpCols,
    ledger: &mut Vec<ByteLookupEvent>,
    shard: u32,
    x: &[u8],
    a: &[u8],
    b: &[u8],
) -> (sum: Vec<u8>)
    requires
        x@.len() == NUM_LIMBS,
        a@.len() == NUM_LIMBS,
        b@.len() == NUM_LIMBS,
        le_value(x@) < bn254_scalar_modulus(),
        le_value(a@) < bn254_scalar_modulus(),
        le_value(b@) < bn254_scalar_modulus(),
    ensures
        is_mul_add_witness(*final(mul), *final(add), x@, a@, b@),
        sum@ == mul_add_limbs(x@, a@, b@),
        sum@.len() == NUM_LIMBS,
        le_value(sum@) == mul_add_value(le_value(x@), le_value(a@), le_value(b@)),
        final(ledger)@ == old(ledger)@ + final(mul).range_events(shard) + final(add).range_events(
            shard,
        ),
{
    proof {
        lemma_mul_add_value(x@, a@, b@);
    }
    let product: Vec<u8> = mul.populate(ledger, shard, a, b, FieldOperation::Mul);
    add.populate(ledger, shard, x, product.as_slice(), FieldOperation::Add)
}

/// Asserts the constraints on the two witnesses of a row and declares their interactions.
pub fn eval_mul_add(
    builder: &mut ConstraintBuilder,
    mul: &FieldOpCols,
    add: &FieldOpCols,
    x: &[Felt],
    a: &[Felt],
    b: &[Felt],
    written: &[Felt],
    is_real: Felt,
)
    requires
        mul.wf(),
        add.wf(),
        x@.len() == NUM_LIMBS,
        a@.len() == NUM_LIMBS,
        b@.len() == NUM_LIMBS,
        written@.len() == NUM_LIMBS,
    ensures
        final(builder).extends(
            *old(builder),
            mul_add_constraints(*mul, *add, x@, a@, b@, written@, is_real),
            mul_add_interactions(*mul, *add, is_real),
        ),
{
    mul.eval(builder, a, b, FieldOperation::Mul, is_real);
    add.eval(builder, x, mul.result.as_slice(), FieldOperation::Add, is_real);
    let ghost mid = *builder;
    let mut i: usize = 0;
    while i < NUM_LIMBS
        invariant
            i <= NUM_LIMBS,
            add.wf(),
            written@.len() == NUM_LIMBS,
            builder.asserted(
                mid,
                forall|k: int| 0 <= k < i ==> eq_when(is_real, #[trigger] add.result@[k], written@[k]),
            ),
        decreases NUM_LIMBS - i,
    {
        builder.assert_eq_when(is_real, add.result[i], written[i]);
        i = i + 1;
    }
    assert(builder.interactions@ =~= old(builder).interactions@ + mul_add_interactions(
        *mul,
        *add,
        is_real,
    ));
}

/// The eight words of `x + a * b` modulo the order, for operands of eight words each, whatever
/// their size.
pub fn mul_add_words(x: &[u32], a: &[u32], b: &[u32]) -> (sum: Vec<u32>)
    requires
        x@.len() == 8,
        a@.len() == 8,
        b@.len() == 8,
    ensures
        sum@.len() == 8,
        le_value(bytes_of_words(sum@)) == mul_add_value(
            le_value(bytes_of_words(x@)),
            le_value(bytes_of_words(a@)),
            le_value(bytes_of_words(b@)),
        ),
{
    let xb: Vec<u8> = words_to_bytes_le(x);
    let ab: Vec<u8> = words_to_bytes_le(a);
    let bb: Vec<u8> = words_to_bytes_le(b);
    let p: Vec<u8> = crate::field_op::bn254_scalar_modulus_limbs();
    let product: Vec<u8> = crate::bigint::big_mul(ab.as_slice(), bb.as_slice());
    let total: Vec<u8> = crate::bigint::big_add(xb.as_slice(), product.as_slice());
    let reduced: Vec<u8> = crate::bigint::big_rem(total.as_slice(), p.as_slice());
    let limbs: Vec<u8> = resize_limbs(reduced.as_slice(), NUM_LIMBS);
    proof {
        crate::limbs::lemma_le_value_bound(p@);
        vstd::arithmetic::div_mod::lemma_mod_bound(
            le_value(total@) as int,
            bn254_scalar_modulus() as int,
        );
        crate::limbs::lemma_bytes_round_trip(limbs@);
    }
    bytes_to_words_le(limbs.as_slice())
}

} // verus!
