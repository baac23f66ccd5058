use precompile_chips::air::ConstraintBuilder;
use precompile_chips::field::Felt;
use precompile_chips::field_op::{bytes_to_felts, FieldOpCols, FieldOperation};
use precompile_chips::limbs::{bytes_to_words_le, resize_limbs, words_to_bytes_le};
use precompile_chips::lookup::ByteLookupEvent;

fn limbs_of_u64(n: u64) -> Vec<u8> {
    resize_limbs(&n.to_le_bytes(), 32)
}

#[test]
fn mul_witness_satisfies_constraints() {
    let a = limbs_of_u64(0xdead_beef_1234_5678);
    let b = limbs_of_u64(0xffff_ffff_ffff_fff1);
    let mut cols = FieldOpCols::new();
    let mut ledger: Vec<ByteLookupEvent> = Vec::new();
    let r = cols.populate(&mut ledger, 1, &a, &b, FieldOperation::Mul);
    let expected: u128 = 0xdead_beef_1234_5678u128 * 0xffff_ffff_ffff_fff1u128;
    assert_eq!(r, resize_limbs(&expected.to_le_bytes(), 32));
    let mut builder = ConstraintBuilder::new(true, true);
    cols.eval(&mut builder, &bytes_to_felts(&a), &bytes_to_felts(&b), FieldOperation::Mul, Felt::one());
    assert!(builder.ok);
    assert_eq!(ledger.len(), 16 + 16 + 31 + 31);
}

#[test]
fn words_and_bytes_round_trip() {
    let words: Vec<u32> = vec![0x0403_0201, 0xffee_ddcc];
    let bytes = words_to_bytes_le(&words);
    assert_eq!(bytes, vec![1, 2, 3, 4, 0xcc, 0xdd, 0xee, 0xff]);
    assert_eq!(bytes_to_words_le(&bytes), words);
}
