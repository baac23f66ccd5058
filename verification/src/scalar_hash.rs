//! Arithmetic on BN254 scalars for a permutation whose state is three scalars: the power map,
//! and the ways in which the state is filled.
//!
//! A scalar is eight words; the state is three scalars, each owned by the state and copied in
//! and out as a whole.
use crate::field_op::bn254_scalar_modulus;
use crate::limbs::{bytes_of_words, bytes_to_words_le, le_value, resize_limbs, words_to_bytes_le};
use vstd::prelude::*;

verus! {

/// An integer of 256 bits, as eight words, lowest first.
pub type U256 = [u32; 8];

/// The state of the permutation.
pub type State = [U256; 3];

/// The number of scalars of the state.
pub const T: usize = 3;

/// The integer that eight words spell.
pub open spec fn u256_value(v: U256) -> nat {
    le_value(bytes_of_words(v@))
}

/// `a * b` modulo the order.
pub open spec fn mul_mod(a: nat, b: nat) -> nat {
    (a * b) % bn254_scalar_modulus()
}

/// `a + b` modulo the order.
pub open spec fn add_mod(a: nat, b: nat) -> nat {
    (a + b) % bn254_scalar_modulus()
}

/// `v` to the fifth power, reduced modulo the order after each multiplication.
pub open spec fn pow5_mod(v: nat) -> nat {
    mul_mod(mul_mod(mul_mod(mul_mod(v, v), v), v), v)
}

/// The scalar zero.
pub fn u256_zero() -> (z: U256)
    ensures
        z@ == Seq::new(8, |i: int| 0u32),
{
    let z: U256 = [0, 0, 0, 0, 0, 0, 0, 0];
    assert(z@ =~= Seq::new(8, |i: int| 0u32));
    z
}

/// The words of an integer below the order, from its bytes.
fn u256_from_reduced(bytes: &[u8]) -> (v: U256)
    requires
        le_value(bytes@) < bn254_scalar_modulus(),
    ensures
        u256_value(v) == le_value(bytes@),
{
    let limbs: Vec<u8> = resize_limbs(bytes, 32);
    let words: Vec<u32> = bytes_to_words_le(limbs.as_slice());
    proof {
        crate::field_op::lemma_bn254_scalar_modulus();
        crate::limbs::lemma_le_value_bound(crate::field_op::bn254_scalar_modulus_seq());
        crate::limbs::lemma_bytes_round_trip(limbs@);
    }
    crate::guest::words_array(&words)
}

/// `a * b` modulo the order.
pub fn uint256_mul(a: &U256, b: &U256) -> (product: U256)
    ensures
        u256_value(product) == mul_mod(u256_value(*a), u256_value(*b)),
{
    let ab: Vec<u8> = words_to_bytes_le(a.as_slice());
    let bb: Vec<u8> = words_to_bytes_le(b.as_slice());
    let p: Vec<u8> = crate::field_op::bn254_scalar_modulus_limbs();
    let product: Vec<u8> = crate::bigint::big_mul(ab.as_slice(), bb.as_slice());
    let reduced: Vec<u8> = crate::bigint::big_rem(product.as_slice(), p.as_slice());
    proof {
        vstd::arithmetic::div_mod::lemma_mod_bound(
            le_value(product@) as int,
            bn254_scalar_modulus() as int,
        );
    }
    u256_from_reduced(reduced.as_slice())
}

/// `a + b` modulo the order.
pub fn uint256_add(a: &U256, b: &U256) -> (sum: U256)
    ensures
        u256_value(sum) == add_mod(u256_value(*a), u256_value(*b)),
{
    let ab: Vec<u8> = words_to_bytes_le(a.as_slice());
    let bb: Vec<u8> = words_to_bytes_le(b.as_slice());
    let p: Vec<u8> = crate::field_op::bn254_scalar_modulus_limbs();
    let sum: Vec<u8> = crate::bigint::big_add(ab.as_slice(), bb.as_slice());
    let reduced: Vec<u8> = crate::bigint::big_rem(sum.as_slice(), p.as_slice());
    proof {
        vstd::arithmetic::div_mod::lemma_mod_bound(
            le_value(sum@) as int,
            bn254_scalar_modulus() as int,
        );
    }
    u256_from_reduced(reduced.as_slice())
}

/// Replaces a scalar by its fifth power: a copy of it is multiplied by it four times and
/// copied back.
pub fn sbox_inplace(val: &mut U256)
    ensures
        u256_value(*final(val)) == pow5_mod(u256_value(*old(val))),
{
    let mut a: U256 = *val;
    a = uint256_mul(&a, val);
    a = uint256_mul(&a, val);
    a = uint256_mul(&a, val);
    a = uint256_mul(&a, val);
    *val = a;
}

/// Sets every scalar of the state to `val`.
pub fn fill_state(state: &mut State, val: &U256)
    ensures
        forall|i: int| 0 <= i < T ==> final(state)@[i] == *val,
{
    state[0] = *val;
    state[1] = *val;
    state[2] = *val;
}

/// Sets the state to `new_state`, scalar by scalar.
pub fn set_state(state: &mut State, new_state: &State)
    ensures
        final(state)@ == new_state@,
{
    state[0] = new_state[0];
    state[1] = new_state[1];
    state[2] = new_state[2];
    assert(state@ =~= new_state@);
}

/// The state that a hash starts from: the capacity scalar first, then the first two scalars of
/// the message, with zero where the message has fewer.
pub fn init_state_with_cap_and_msg(cap: &U256, msg: &[U256]) -> (state: State)
    ensures
        state@[0] == *cap,
        state@[1]@ == (if msg@.len() >= 1 {
            msg@[0]@
        } else {
            Seq::new(8, |i: int| 0u32)
        }),
        state@[2]@ == (if msg@.len() >= 2 {
            msg@[1]@
        } else {
            Seq::new(8, |i: int| 0u32)
        }),
{
    let zero: U256 = u256_zero();
    let mut state: State = [zero, zero, zero];
    state[0] = *cap;
    if msg.len() == 0 {
        state[1] = zero;
        state[2] = zero;
    } else if msg.len() == 1 {
        state[1] = msg[0];
        state[2] = zero;
    } else {
        state[1] = msg[0];
        state[2] = msg[1];
    }
    state
}

/// Adds `a * b` to `dst`, modulo the order.
pub fn mul_add_assign(dst: &mut U256, a: &U256, b: &U256)
    ensures
        u256_value(*final(dst)) == add_mod(
            u256_value(*old(dst)),
            mul_mod(u256_value(*a), u256_value(*b)),
        ),
{
    let tmp: U256 = uint256_mul(a, b);
    *dst = uint256_add(dst, &tmp);
}

} // verus!
