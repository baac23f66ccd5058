use num::BigUint;
use precompile_chips::air::{ConstraintBuilder, Interaction};
use precompile_chips::bn254_mul_add::{Bn254MulAddChip, Bn254MulAddCols};
use precompile_chips::events::{ExecutionRecord, PrecompileEvent, PoseidonEvent, SyscallCode};
use precompile_chips::field::{Felt, MODULUS};
use precompile_chips::field_op::{
    bn254_scalar_modulus_limbs, bytes_to_felts, zero_felts, FieldOpCols, FieldOperation,
};
use precompile_chips::limbs::{
    bytes_to_words_le, is_zero_limbs, limbs_lt, resize_limbs, words_to_bytes_le,
};
use precompile_chips::lookup::{
    add_u16_range_check, add_u8_range_check, add_u8_range_checks, add_u8_range_checks_field,
    ByteLookupEvent, ByteOpcode,
};
use precompile_chips::memory::{
    limbs_from_access, limbs_from_prev_access, limbs_from_read_access, MemoryReadCols,
    MemoryReadRecord, MemoryWriteCols, MemoryWriteRecord, Word,
};
use precompile_chips::poseidon::PoseidonChip;
use precompile_chips::registry::PrecompileChip;
use precompile_chips::runtime::SyscallContext;
use precompile_chips::scalar_hash::{
    fill_state, init_state_with_cap_and_msg, mul_add_assign, sbox_inplace, set_state,
    u256_zero, uint256_add, uint256_mul, U256,
};
use precompile_chips::syscalls::Bn254MulAddSyscall;
use precompile_chips::trace::{next_power_of_two, TraceMatrix};

fn modulus() -> BigUint {
    BigUint::from_bytes_le(&bn254_scalar_modulus_limbs())
}

fn limbs(x: &BigUint) -> Vec<u8> {
    resize_limbs(&x.to_bytes_le(), 32)
}

fn felt(n: u32) -> Felt {
    Felt::from_canonical_u32(n)
}

#[test]
fn field_arithmetic_is_modular() {
    let m = MODULUS;
    assert_eq!(m, 15 * (1 << 27) + 1);
    assert_eq!(felt(m).value, 0);
    assert_eq!(felt(m + 5).value, 5);
    assert_eq!(felt(m - 1).add(felt(2)).value, 1);
    assert_eq!(felt(3).sub(felt(5)).value, m - 2);
    assert_eq!(felt(0).neg().value, 0);
    assert_eq!(felt(1).neg().value, m - 1);
    assert_eq!(felt(m - 1).mul(felt(m - 1)).value, 1);
    assert_eq!(felt(1 << 16).mul(felt(1 << 16)).value, ((1u64 << 32) % m as u64) as u32);
    assert_eq!(felt(2).pow5().value, 32);
    assert_eq!(felt(7).square().value, 49);
    assert_eq!(Felt::from_canonical_u64(0xa07f783a0d634fb9).value as u64, 0xa07f783a0d634fb9u64 % m as u64);
    assert_eq!(Felt::from_canonical_u8(255).value, 255);
    assert_eq!(Felt::from_canonical_u16(65535).value, 65535);
    assert_eq!(Felt::from_canonical_usize(12).value, 12);
    assert_eq!(Felt::from_bool(true), Felt::one());
    assert_eq!(Felt::from_bool(false), Felt::zero());
    assert!(Felt { value: m }.is_zero());
    assert!(!felt(1).is_zero());
    assert_eq!(Felt { value: m + 3 }.as_canonical_u32(), 3);
}

#[test]
fn limbs_are_little_endian_digits() {
    assert_eq!(resize_limbs(&[1, 2], 4), vec![1, 2, 0, 0]);
    assert_eq!(resize_limbs(&[1, 2, 3], 2), vec![1, 2]);
    assert_eq!(resize_limbs(&[], 3), vec![0, 0, 0]);
    assert_eq!(words_to_bytes_le(&[0x1234_5678]), vec![0x78, 0x56, 0x34, 0x12]);
    assert_eq!(bytes_to_words_le(&[0x78, 0x56, 0x34, 0x12, 9]), vec![0x1234_5678]);
    assert!(limbs_lt(&[0xff, 0x00], &[0x00, 0x01]));
    assert!(!limbs_lt(&[0x00, 0x01], &[0xff, 0x00]));
    assert!(!limbs_lt(&[7, 7], &[7, 7]));
    assert!(limbs_lt(&[6, 7], &[7, 7]));
    assert!(is_zero_limbs(&[0, 0, 0]));
    assert!(!is_zero_limbs(&[0, 0, 1]));
    assert!(is_zero_limbs(&[]));
    let p = bn254_scalar_modulus_limbs();
    assert_eq!(p.len(), 32);
    assert_eq!(
        BigUint::from_bytes_le(&p),
        BigUint::parse_bytes(
            b"21888242871839275222246405745257275088548364400416034343698204186575808495617",
            10
        )
        .unwrap()
    );
}

#[test]
fn encoding_then_decoding_gives_the_value_back() {
    for n in [0u64, 1, 255, 256, 0xdead_beef, u64::MAX] {
        let encoded = resize_limbs(&n.to_le_bytes(), 32);
        assert_eq!(encoded.len(), 32);
        assert_eq!(BigUint::from_bytes_le(&encoded), BigUint::from(n));
        let words = bytes_to_words_le(&encoded);
        assert_eq!(words_to_bytes_le(&words), encoded);
    }
}

#[test]
fn range_checks_pair_bytes() {
    let mut ledger: Vec<ByteLookupEvent> = Vec::new();
    add_u8_range_check(&mut ledger, 3, 1, 2);
    add_u16_range_check(&mut ledger, 3, 0xabcd);
    add_u8_range_checks(&mut ledger, 4, &[10, 11, 12]);
    add_u8_range_checks_field(&mut ledger, 5, &[felt(0x1ff), felt(7)]);
    let u8r = |shard, b, c| ByteLookupEvent { shard, opcode: ByteOpcode::U8Range, a1: 0, a2: 0, b, c };
    assert_eq!(
        ledger,
        vec![
            u8r(3, 1, 2),
            ByteLookupEvent { shard: 3, opcode: ByteOpcode::U16Range, a1: 0xabcd, a2: 0, b: 0, c: 0 },
            u8r(4, 10, 11),
            u8r(4, 12, 0),
            u8r(5, 0xff, 7),
        ]
    );
}

#[test]
fn heights_are_padded_to_powers_of_two() {
    assert_eq!(next_power_of_two(0, None), 16);
    assert_eq!(next_power_of_two(16, None), 16);
    assert_eq!(next_power_of_two(17, None), 32);
    assert_eq!(next_power_of_two(1000, None), 1024);
    assert_eq!(next_power_of_two(5, Some(3)), 8);
    assert_eq!(next_power_of_two(0, Some(0)), 1);
    assert_eq!(next_power_of_two(64, Some(6)), 64);
}

#[test]
fn matrices_hold_rows_one_after_another() {
    let rows = vec![vec![felt(1), felt(2)], vec![felt(3), felt(4)], vec![felt(5), felt(6)]];
    let m = TraceMatrix::from_rows(&rows, 2);
    assert_eq!((m.height(), m.width()), (3, 2));
    assert_eq!(m.values, vec![felt(1), felt(2), felt(3), felt(4), felt(5), felt(6)]);
    assert_eq!(m.row_slice(1), vec![felt(3), felt(4)]);
    let n = TraceMatrix::new(m.values.clone(), 3);
    assert_eq!(n.height(), 2);
    assert_eq!(n.row_slice(1), vec![felt(4), felt(5), felt(6)]);
}

#[test]
fn addition_witness_carries_one_past_the_modulus() {
    let p = modulus();
    let a = &p - 1u32;
    let b = BigUint::from(5u32);
    let mut cols = FieldOpCols::new();
    let mut ledger = Vec::new();
    let r = cols.populate(&mut ledger, 9, &limbs(&a), &limbs(&b), FieldOperation::Add);
    assert_eq!(BigUint::from_bytes_le(&r), BigUint::from(4u32));
    assert_eq!(cols.result, bytes_to_felts(&limbs(&BigUint::from(4u32))));
    assert_eq!(cols.carry[0], felt(1));
    assert!(cols.carry[1..].iter().all(|c| *c == Felt::zero()));
    assert!(ledger.iter().all(|e| e.shard == 9 && e.opcode == ByteOpcode::U8Range));
    let mut builder = ConstraintBuilder::new(true, false);
    cols.eval(&mut builder, &bytes_to_felts(&limbs(&a)), &bytes_to_felts(&limbs(&b)), FieldOperation::Add, Felt::one());
    assert!(builder.ok);
    assert_eq!(builder.interactions.len(), 16 + 16 + 31 + 31);
    let mut wrong = ConstraintBuilder::new(true, false);
    cols.eval(&mut wrong, &bytes_to_felts(&limbs(&a)), &bytes_to_felts(&limbs(&b)), FieldOperation::Mul, Felt::one());
    assert!(!wrong.ok);
    let mut unreal = ConstraintBuilder::new(true, false);
    cols.eval(&mut unreal, &bytes_to_felts(&limbs(&a)), &bytes_to_felts(&limbs(&b)), FieldOperation::Mul, Felt::zero());
    assert!(unreal.ok);
}

#[test]
fn multiplication_witness_holds_result_and_quotient() {
    let p = modulus();
    let a = &p - 1u32;
    let b = &p - 2u32;
    let mut cols = FieldOpCols::new();
    let mut ledger = Vec::new();
    let r = cols.populate(&mut ledger, 0, &limbs(&a), &limbs(&b), FieldOperation::Mul);
    let product = &a * &b;
    assert_eq!(BigUint::from_bytes_le(&r), &product % &p);
    assert_eq!(BigUint::from_bytes_le(&r), BigUint::from(2u32));
    let carry: Vec<u8> = cols.carry.iter().map(|f| f.value as u8).collect();
    assert_eq!(BigUint::from_bytes_le(&carry), &product / &p);
    for k in 0..62 {
        let shifted = cols.witness_low[k].value + 256 * cols.witness_high[k].value;
        assert!(shifted < (1 << 15));
        assert!(cols.witness_low[k].value < 256 && cols.witness_high[k].value < 256);
    }
    let mut builder = ConstraintBuilder::new(false, true);
    cols.eval(&mut builder, &bytes_to_felts(&limbs(&a)), &bytes_to_felts(&limbs(&b)), FieldOperation::Mul, Felt::one());
    assert!(builder.ok);
    cols.witness_low[40] = cols.witness_low[40].add(Felt::one());
    let mut tampered = ConstraintBuilder::new(false, true);
    cols.eval(&mut tampered, &bytes_to_felts(&limbs(&a)), &bytes_to_felts(&limbs(&b)), FieldOperation::Mul, Felt::one());
    assert!(!tampered.ok);
}

#[test]
fn zero_operands_have_a_witness_with_quotient_zero() {
    let zero = vec![0u8; 32];
    let mut cols = FieldOpCols::new();
    let mut ledger = Vec::new();
    let r = cols.populate(&mut ledger, 0, &zero, &zero, FieldOperation::Mul);
    assert_eq!(r, zero);
    assert_eq!(cols.result, zero_felts(32));
    assert_eq!(cols.carry, zero_felts(32));
    assert_eq!(cols.witness_low, zero_felts(62));
    assert_eq!(cols.witness_high, vec![felt(64); 62]);
    assert_eq!(ledger.len(), 94);
}

#[test]
fn a_small_modulus_works_as_well() {
    let p = resize_limbs(&[97], 32);
    let a = resize_limbs(&[50], 32);
    let b = resize_limbs(&[60], 32);
    let mut cols = FieldOpCols::new();
    let mut ledger = Vec::new();
    let r = cols.populate_with_modulus(&mut ledger, 0, &a, &b, &p, FieldOperation::Mul);
    assert_eq!(r[0], (50 * 60 % 97) as u8);
    assert_eq!(cols.carry[0], felt(50 * 60 / 97));
    let mut builder = ConstraintBuilder::new(true, true);
    cols.eval_with_modulus(&mut builder, &bytes_to_felts(&a), &bytes_to_felts(&b), &p, FieldOperation::Mul, Felt::one());
    assert!(builder.ok);
    let mut other = ConstraintBuilder::new(true, true);
    cols.eval(&mut other, &bytes_to_felts(&a), &bytes_to_felts(&b), FieldOperation::Mul, Felt::one());
    assert!(!other.ok);
}

#[test]
fn memory_columns_restate_records() {
    let read = MemoryReadRecord { addr: 8, value: 0x0403_0201, shard: 2, timestamp: 70_000, prev_shard: 2, prev_timestamp: 3 };
    assert!(read.is_wf());
    let mut cols = MemoryReadCols::zero();
    let mut ledger = Vec::new();
    cols.populate(read, &mut ledger);
    assert_eq!(cols.access.value.bytes, [felt(1), felt(2), felt(3), felt(4)]);
    assert_eq!(cols.access.prev_shard, felt(2));
    assert_eq!(cols.access.prev_clk, felt(3));
    assert_eq!(cols.access.compare_clk, Felt::one());
    let gap = 70_000 - 3 - 1;
    assert_eq!(cols.access.diff_16bit_limb, felt(gap % 65536));
    assert_eq!(cols.access.diff_8bit_limb, felt(gap / 65536));
    assert_eq!(
        ledger,
        vec![
            ByteLookupEvent { shard: 2, opcode: ByteOpcode::U16Range, a1: (gap % 65536) as u16, a2: 0, b: 0, c: 0 },
            ByteLookupEvent { shard: 2, opcode: ByteOpcode::U8Range, a1: 0, a2: 0, b: 0, c: 1 },
        ]
    );
    let write = MemoryWriteRecord { addr: 8, value: 0xff, shard: 5, timestamp: 1, prev_value: 0x0100, prev_shard: 2, prev_timestamp: 9 };
    assert!(write.is_wf());
    let mut wcols = MemoryWriteCols::zero();
    wcols.populate(write, &mut ledger);
    assert_eq!(wcols.prev_value.bytes, [felt(0), felt(1), felt(0), felt(0)]);
    assert_eq!(wcols.access.compare_clk, Felt::zero());
    assert_eq!(wcols.access.diff_16bit_limb, felt(2));
    assert_eq!(limbs_from_read_access(&[cols]), vec![felt(1), felt(2), felt(3), felt(4)]);
    assert_eq!(limbs_from_access(&[wcols]), vec![felt(0xff), felt(0), felt(0), felt(0)]);
    assert_eq!(limbs_from_prev_access(&[wcols]), vec![felt(0), felt(1), felt(0), felt(0)]);
    assert_eq!(Word::from_u32(0x0000_0300).reduce(), felt(0x300));
    let stale = MemoryReadRecord { addr: 8, value: 0, shard: 2, timestamp: 3, prev_shard: 2, prev_timestamp: 3 };
    assert!(!stale.is_wf());
}

#[test]
fn the_journal_stamps_words_and_remembers_the_access_before() {
    let mut rt = SyscallContext::new(1, 10);
    rt.write_unsafe(0x20, 77);
    assert!(rt.is_fresh(0x20));
    let first = rt.mr(0x20);
    assert_eq!(first, MemoryReadRecord { addr: 0x20, value: 77, shard: 1, timestamp: 10, prev_shard: 0, prev_timestamp: 0 });
    assert!(!rt.is_fresh(0x20));
    rt.clk = 11;
    let second = rt.mw(0x20, 78);
    assert_eq!(second, MemoryWriteRecord { addr: 0x20, value: 78, shard: 1, timestamp: 11, prev_value: 77, prev_shard: 1, prev_timestamp: 10 });
    assert_eq!(rt.word_unsafe(0x20), 78);
    rt.clk = 12;
    let (records, values) = rt.mr_slice(0x1c, 3);
    assert_eq!(values, vec![0, 78, 0]);
    assert_eq!(records[1].prev_timestamp, 11);
    assert_eq!(records[2].addr, 0x24);
    assert!(!rt.is_region_fresh(0x18, 2));
    assert!(rt.is_region_fresh(0x28, 2));
    assert!(rt.is_region_fresh_at(0x18, 2, 13));
    rt.clk = 13;
    let written = rt.mw_slice(0x1c, &[1, 2, 3]);
    assert_eq!(written[1].prev_value, 78);
    assert_eq!(rt.slice_unsafe(0x1c, 3), vec![1, 2, 3]);
    assert_eq!(rt.entry_at(0x24).timestamp, 13);
}

#[test]
fn syscalls_have_distinct_identifiers() {
    let codes = [
        SyscallCode::BN254_MULADD,
        SyscallCode::BN254_SCALAR_MAC,
        SyscallCode::BN254_SCALAR_MULADD,
        SyscallCode::MEMCPY_32,
        SyscallCode::MEMCPY_64,
        SyscallCode::POSEIDON,
    ];
    for (i, a) in codes.iter().enumerate() {
        assert_eq!(a.syscall_id(), a.code() & 0xff);
        for b in &codes[i + 1..] {
            assert_ne!(a.syscall_id(), b.syscall_id());
        }
    }
    assert_eq!(SyscallCode::MEMCPY_32.code(), 0x00_01_01_90);
}

#[test]
fn records_collect_events_by_kind_and_merge() {
    let mut first = ExecutionRecord::new();
    let mut second = ExecutionRecord::new();
    let event = |clk| PrecompileEvent::Poseidon(PoseidonEvent { shard: 0, clk, input_ptr: 0, output_ptr: 0, input: [0; 3] });
    assert_eq!(event(1).code(), SyscallCode::POSEIDON);
    first.add_precompile_event(event(1));
    second.add_precompile_event(event(2));
    second.add_precompile_event(event(3));
    first.add_byte_lookup_events(vec![ByteLookupEvent { shard: 0, opcode: ByteOpcode::U8Range, a1: 0, a2: 0, b: 1, c: 2 }]);
    second.add_byte_lookup_events(vec![ByteLookupEvent { shard: 0, opcode: ByteOpcode::U8Range, a1: 0, a2: 0, b: 3, c: 4 }]);
    first.append(&mut second);
    assert_eq!(first.num_events(SyscallCode::POSEIDON), 3);
    assert_eq!(first.poseidon_events.iter().map(|e| e.clk).collect::<Vec<_>>(), vec![1, 2, 3]);
    assert_eq!(first.byte_lookups.iter().map(|e| e.b).collect::<Vec<_>>(), vec![1, 3]);
    assert_eq!(second.num_events(SyscallCode::POSEIDON), 0);
    assert!(second.byte_lookups.is_empty());
    assert_eq!(first.num_events(SyscallCode::MEMCPY_32), 0);
}

#[test]
fn builder_remembers_violations_and_interactions() {
    let mut b = ConstraintBuilder::new(true, false);
    b.assert_zero(Felt::zero());
    b.assert_eq(felt(4), felt(MODULUS + 4));
    b.assert_bool(Felt::one());
    b.assert_zero_when(Felt::zero(), felt(9));
    b.assert_eq_when(Felt::zero(), felt(1), felt(2));
    b.assert_eq_transition(felt(1), felt(2));
    b.assert_eq_transition_when(felt(1), felt(1), felt(2));
    b.assert_zero_first_row(Felt::zero());
    assert!(b.ok);
    b.send_byte(ByteOpcode::U16Range, felt(5), Felt::zero(), Felt::zero(), Felt::zero(), Felt::one());
    b.slice_range_check_u8(&[felt(1), felt(2), felt(3)], felt(1));
    assert_eq!(b.interactions.len(), 3);
    assert_eq!(
        b.interactions[2],
        Interaction::Byte { opcode: ByteOpcode::U8Range, a1: Felt::zero(), a2: Felt::zero(), b: felt(3), c: Felt::zero(), multiplicity: felt(1) }
    );
    b.assert_bool(felt(2));
    assert!(!b.ok);
    b.assert_zero(Felt::zero());
    assert!(!b.ok);
    let mut first_row = ConstraintBuilder::new(true, true);
    first_row.assert_zero_first_row(felt(1));
    assert!(!first_row.ok);
    let mut transition = ConstraintBuilder::new(false, true);
    transition.assert_zero_first_row(felt(1));
    assert!(transition.ok);
    transition.assert_eq_transition(felt(1), felt(2));
    assert!(!transition.ok);
}

#[test]
fn scalars_are_multiplied_and_added_modulo_the_order() {
    let p = modulus();
    let to_u256 = |x: &BigUint| -> U256 { bytes_to_words_le(&limbs(x)).try_into().unwrap() };
    let value = |v: &U256| BigUint::from_bytes_le(&words_to_bytes_le(v));
    let a = to_u256(&(&p - 3u32));
    let b = to_u256(&BigUint::from(5u32));
    assert_eq!(value(&uint256_mul(&a, &b)), &p - 15u32);
    assert_eq!(value(&uint256_add(&a, &b)), BigUint::from(2u32));
    let mut v = to_u256(&BigUint::from(3u32));
    sbox_inplace(&mut v);
    assert_eq!(value(&v), BigUint::from(243u32));
    let mut big = a;
    sbox_inplace(&mut big);
    assert_eq!(value(&big), &p - 243u32);
    let mut acc = to_u256(&BigUint::from(10u32));
    mul_add_assign(&mut acc, &b, &b);
    assert_eq!(value(&acc), BigUint::from(35u32));

    let zero = u256_zero();
    assert_eq!(zero, [0u32; 8]);
    let cap = to_u256(&BigUint::from(99u32));
    assert_eq!(init_state_with_cap_and_msg(&cap, &[]), [cap, zero, zero]);
    assert_eq!(init_state_with_cap_and_msg(&cap, &[a]), [cap, a, zero]);
    assert_eq!(init_state_with_cap_and_msg(&cap, &[a, b]), [cap, a, b]);
    assert_eq!(init_state_with_cap_and_msg(&cap, &[a, b, cap]), [cap, a, b]);
    let mut state = [zero, zero, zero];
    fill_state(&mut state, &cap);
    assert_eq!(state, [cap, cap, cap]);
    set_state(&mut state, &[a, b, zero]);
    assert_eq!(state, [a, b, zero]);
}

#[test]
fn matrices_are_checked_as_their_rows_are() {
    let mut rt = SyscallContext::new(1, 1);
    rt.write_unsafe(0x200, 6);
    rt.write_unsafe(0x220, 7);
    assert!(Bn254MulAddSyscall::is_executable(&rt, 0x100, 0x200));
    Bn254MulAddSyscall::new().execute(&mut rt, 0x100, 0x200);
    let chip = Bn254MulAddChip::new();
    let mut output = ExecutionRecord::new();
    let mut trace = chip.generate_trace(&rt.record, &mut output);
    assert!(chip.check_trace(&trace).is_ok());
    let row = Bn254MulAddCols::from_row(&trace.row_slice(0));
    assert_eq!(row.add_eval.result[0], felt(42));
    assert_eq!(row.to_row(), trace.row_slice(0));
    trace.values[630 * 5 + 2] = felt(9);
    assert_eq!(chip.check_trace(&trace).unwrap_err().row, 4);

    let poseidon = PoseidonChip::new();
    let mut record = ExecutionRecord::new();
    record.add_precompile_event(PrecompileEvent::Poseidon(PoseidonEvent { shard: 1, clk: 2, input_ptr: 4, output_ptr: 8, input: [u64::MAX, 0, 1] }));
    let mut trace = poseidon.generate_trace(&record, &mut output);
    assert!(poseidon.check_trace(&trace).is_ok());
    trace.values[32 * 64 + 31] = felt(1).add(trace.values[32 * 64 + 31]);
    assert_eq!(poseidon.check_trace(&trace).unwrap_err().row, 64);
}

#[test]
fn every_syscall_has_its_chip() {
    let chips = PrecompileChip::all();
    let names: Vec<String> = chips.iter().map(|c| c.name()).collect();
    assert_eq!(
        names,
        vec!["Bn254MulAdd", "Bn254ScalarMac", "Bn254ScalarMulAdd", "MemCopy8Chip", "MemCopy16Chip", "Poseidon"]
    );
    let widths: Vec<usize> = chips.iter().map(|c| c.width()).collect();
    assert_eq!(widths, vec![630, 649, 649, 183, 359, 32]);
    let mut rt = SyscallContext::new(1, 1);
    assert!(Bn254MulAddSyscall::is_executable(&rt, 0x100, 0x200));
    Bn254MulAddSyscall::new().execute(&mut rt, 0x100, 0x200);
    for chip in &chips {
        assert_eq!(PrecompileChip::for_code(chip.code()).name(), chip.name());
        assert_eq!(chip.included(&rt.record), chip.code() == SyscallCode::BN254_MULADD);
        let mut output = ExecutionRecord::new();
        let trace = chip.generate_trace(&rt.record, &mut output);
        assert_eq!(trace.width(), chip.width());
        assert!(trace.height().is_power_of_two());
        assert!(chip.check_trace(&trace).is_ok());
        for i in 0..trace.height() {
            let nonce_column = match chip.code() {
                SyscallCode::BN254_MULADD => 2,
                SyscallCode::POSEIDON => 3,
                _ => 4,
            };
            assert_eq!(trace.row_slice(i)[nonce_column], Felt::from_canonical_usize(i));
        }
    }
}
