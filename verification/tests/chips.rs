use num::BigUint;
use precompile_chips::air::{ConstraintBuilder, Interaction};
use precompile_chips::bn254_mul_add::{Bn254MulAddChip, Bn254MulAddCols};
use precompile_chips::bn254_scalar::{Bn254ScalarMacChip, Bn254ScalarMulAddChip};
use precompile_chips::events::{ExecutionRecord, Shape, SyscallCode};
use precompile_chips::field::Felt;
use precompile_chips::guest::{sys_bigint, sys_bn254_muladd, uint256_muladd};
use precompile_chips::limbs::{bytes_to_words_le, words_to_bytes_le};
use precompile_chips::memcopy::{MemCopy32Chip, MemCopy64Chip};
use precompile_chips::runtime::SyscallContext;
use precompile_chips::syscalls::{
    is_executable_scalar, memory_copy_32, memory_copy_64, Bn254MulAddSyscall,
    Bn254ScalarMacSyscall, Bn254ScalarMulAddSyscall, MemCopySyscall,
};
use rand::Rng;

const MODULUS_DEC: &[u8] =
    b"21888242871839275222246405745257275088548364400416034343698204186575808495617";

fn modulus() -> BigUint {
    BigUint::parse_bytes(MODULUS_DEC, 10).unwrap()
}

fn biguint_to_bytes_le(x: &BigUint) -> [u8; 32] {
    let mut bytes = x.to_bytes_le();
    bytes.resize(32, 0);
    bytes.try_into().unwrap()
}

fn words_of(x: &BigUint) -> Vec<u32> {
    bytes_to_words_le(&biguint_to_bytes_le(x))
}

fn value_of(words: &[u32]) -> BigUint {
    BigUint::from_bytes_le(&words_to_bytes_le(words))
}

fn store(rt: &mut SyscallContext, addr: u32, words: &[u32]) {
    for (i, w) in words.iter().enumerate() {
        rt.write_unsafe(addr + 4 * i as u32, *w);
    }
}

fn random_scalar() -> BigUint {
    let bytes: [u8; 32] = rand::thread_rng().gen();
    BigUint::from_bytes_le(&bytes) % modulus()
}

#[test]
fn test_uint256_muladd() {
    let x_big = random_scalar();
    let y_big = random_scalar();
    let z_big = random_scalar();
    let x = biguint_to_bytes_le(&x_big);
    let y = biguint_to_bytes_le(&y_big);
    let z = biguint_to_bytes_le(&z_big);

    let result_bytes = uint256_muladd(&x, &y, &z);

    let result = ((&x_big * &y_big) + &z_big) % modulus();
    let result_syscall = BigUint::from_bytes_le(&result_bytes);
    assert_eq!(result, result_syscall);

    let mut rt = SyscallContext::new(1, 5);
    store(&mut rt, 0x100, &words_of(&z_big));
    store(&mut rt, 0x200, &words_of(&x_big));
    store(&mut rt, 0x220, &words_of(&y_big));
    assert!(Bn254MulAddSyscall::is_executable(&rt, 0x100, 0x200));
    Bn254MulAddSyscall::new().execute(&mut rt, 0x100, 0x200);
    assert!(rt.record.is_wf());
    let chip = Bn254MulAddChip::new();
    let mut output = ExecutionRecord::new();
    let rows = chip.generate_rows(&rt.record, &mut output);
    assert!(chip.check_rows(&rows).is_ok());
}

#[test]
fn two_times_three_plus_four_is_ten() {
    let mut x = [0u8; 32];
    let mut y = [0u8; 32];
    let mut z = [0u8; 32];
    x[0] = 2;
    y[0] = 3;
    z[0] = 4;
    let result = uint256_muladd(&x, &y, &z);
    let mut expected = vec![0u8; 32];
    expected[0] = 10;
    assert_eq!(result, expected);
    let words = sys_bn254_muladd(0, &[2, 0, 0, 0, 0, 0, 0, 0], &[3, 0, 0, 0, 0, 0, 0, 0], &[4, 0, 0, 0, 0, 0, 0, 0]);
    assert_eq!(words, vec![10, 0, 0, 0, 0, 0, 0, 0]);
}

#[test]
fn multiply_add_wraps_at_the_modulus() {
    let p_minus_one = modulus() - 1u32;
    let w: [u32; 8] = words_of(&p_minus_one).try_into().unwrap();
    let one: [u32; 8] = [1, 0, 0, 0, 0, 0, 0, 0];
    // (p - 1) * (p - 1) + 1 = p * (p - 2) + 2
    let result = sys_bn254_muladd(0, &w, &w, &one);
    assert_eq!(result, vec![2, 0, 0, 0, 0, 0, 0, 0]);
}

#[test]
fn sys_bigint_reduces_by_the_modulus_or_by_two_to_the_256() {
    let x: [u32; 8] = [0xffff_ffff; 8];
    let y: [u32; 8] = [3, 0, 0, 0, 0, 0, 0, 0];
    let seven: [u32; 8] = [7, 0, 0, 0, 0, 0, 0, 0];
    let zero: [u32; 8] = [0; 8];
    let full = value_of(&x) * 3u32;
    assert_eq!(value_of(&sys_bigint(0, &x, &y, &seven)), &full % 7u32);
    let two_256 = BigUint::from(1u32) << 256;
    assert_eq!(value_of(&sys_bigint(0, &x, &y, &zero)), &full % two_256);
    assert_eq!(sys_bigint(0, &x, &y, &zero), vec![0xffff_fffd, 0xffff_ffff, 0xffff_ffff, 0xffff_ffff, 0xffff_ffff, 0xffff_ffff, 0xffff_ffff, 0xffff_ffff]);
}

#[test]
fn memory_copy_32_copies_eight_words_one_clock_later() {
    let words: Vec<u32> = (0..8).map(|i| 0x1111_0000 + i).collect();
    let mut rt = SyscallContext::new(2, 40);
    store(&mut rt, 0x400, &words);
    store(&mut rt, 0x800, &[9; 8]);
    assert!(MemCopySyscall::<8>::is_executable(&rt, 0x400, 0x800));
    let returned = MemCopySyscall::<8>::new().execute(&mut rt, 0x400, 0x800);
    assert_eq!(returned, None);
    assert_eq!(rt.clk, 41);
    assert_eq!(rt.slice_unsafe(0x800, 8), words);
    assert_eq!(rt.slice_unsafe(0x400, 8), words);
    assert_eq!(rt.record.memcpy32_events.len(), 1);
    let event = &rt.record.memcpy32_events[0];
    assert_eq!((event.shard, event.clk, event.src_ptr, event.dst_ptr), (2, 40, 0x400, 0x800));
    assert_eq!(event.read_records.len(), 8);
    assert_eq!(event.write_records.len(), 8);
    for i in 0..8 {
        let r = event.read_records[i];
        let w = event.write_records[i];
        assert_eq!((r.addr, r.value, r.shard, r.timestamp), (0x400 + 4 * i as u32, words[i], 2, 40));
        assert_eq!((r.prev_shard, r.prev_timestamp), (0, 0));
        assert_eq!((w.addr, w.value, w.shard, w.timestamp), (0x800 + 4 * i as u32, words[i], 2, 41));
        assert_eq!(w.prev_value, 9);
    }
    assert!(event.is_wf(8));
    assert_eq!(MemCopySyscall::<8>::new().num_extra_cycles(), 1);
}

#[test]
fn memory_copy_chips_restate_their_events() {
    let mut rt = SyscallContext::new(1, 7);
    let words: Vec<u32> = (0..16).map(|i| 1000 + i).collect();
    store(&mut rt, 0x1000, &words);
    assert!(MemCopySyscall::<16>::is_executable(&rt, 0x1000, 0x2000));
    MemCopySyscall::<16>::new().execute(&mut rt, 0x1000, 0x2000);
    assert!(!MemCopySyscall::<8>::is_executable(&rt, 0x2000, 0x3000));
    rt.clk += 1;
    assert!(MemCopySyscall::<8>::is_executable(&rt, 0x2000, 0x3000));
    MemCopySyscall::<8>::new().execute(&mut rt, 0x2000, 0x3000);
    assert_eq!(rt.slice_unsafe(0x2000, 16), words);
    assert_eq!(rt.slice_unsafe(0x3000, 8), words[..8].to_vec());
    assert!(rt.record.is_wf());

    let chip64 = MemCopy64Chip::new();
    let chip32 = MemCopy32Chip::new();
    assert_eq!(chip64.name(), "MemCopy16Chip");
    assert_eq!(chip32.name(), "MemCopy8Chip");
    assert_eq!(chip32.width(), 7 + 22 * 8);
    assert_eq!(chip64.width(), 7 + 22 * 16);
    assert!(chip32.included(&rt.record) && chip64.included(&rt.record));
    assert!(!chip32.included(&ExecutionRecord::new()));
    assert_eq!(MemCopy32Chip::syscall_id(), SyscallCode::MEMCPY_32.syscall_id());
    assert_eq!(MemCopy64Chip::syscall_id(), SyscallCode::MEMCPY_64.syscall_id());

    let mut output = ExecutionRecord::new();
    let rows = chip64.generate_rows(&rt.record, &mut output);
    assert_eq!(rows.len(), 16);
    assert_eq!(output.byte_lookups.len(), 2 * 32);
    assert!(chip64.check_rows(&rows).is_ok());
    assert_eq!(rows[0].is_real, Felt::one());
    assert_eq!(rows[0].src_ptr, Felt::from_canonical_u32(0x1000));
    assert_eq!(rows[0].dst_ptr, Felt::from_canonical_u32(0x2000));
    assert_eq!(rows[0].clk, Felt::from_canonical_u32(7));
    for (i, row) in rows.iter().enumerate() {
        assert_eq!(row.nonce, Felt::from_canonical_usize(i));
        assert_eq!(row.is_real, Felt::from_bool(i == 0));
    }
    let trace = chip64.generate_trace(&rt.record, &mut output);
    assert_eq!(trace.width(), chip64.width());
    assert_eq!(trace.height(), 16);
    assert_eq!(trace.row_slice(3)[4], Felt::from_canonical_u32(3));

    let mut rows32 = chip32.generate_rows(&rt.record, &mut output);
    assert!(chip32.check_rows(&rows32).is_ok());
    rows32[0].dst_access[2].access.value.bytes[1] = Felt::from_canonical_u32(77);
    let violation = chip32.check_rows(&rows32).unwrap_err();
    assert_eq!(violation.row, 0);
    assert_eq!(violation.chip, "MemCopy8Chip");
}

#[test]
fn overlapping_or_misaligned_copies_are_not_executable() {
    let rt = SyscallContext::new(1, 1);
    assert!(!MemCopySyscall::<8>::is_executable(&rt, 0x402, 0x800));
    assert!(!MemCopySyscall::<8>::is_executable(&rt, 0x400, 0x801));
    assert!(!MemCopySyscall::<8>::is_executable(&rt, 0xffff_fff0, 0x800));
    assert!(MemCopySyscall::<8>::is_executable(&rt, 0xffff_ffe0, 0x800));
    assert!(MemCopySyscall::<8>::is_executable(&rt, 0x400, 0x410));
    let stale = SyscallContext::new(0, 0);
    assert!(!MemCopySyscall::<8>::is_executable(&stale, 0x400, 0x800));
    let mut rt = SyscallContext::new(1, 1);
    rt.mr(0x404);
    assert!(!MemCopySyscall::<8>::is_executable(&rt, 0x400, 0x800));
    assert!(MemCopySyscall::<8>::is_executable(&rt, 0x800, 0x400));
    rt.clk = 2;
    assert!(MemCopySyscall::<8>::is_executable(&rt, 0x400, 0x800));
}

#[test]
fn local_memory_events_span_one_clock() {
    let mut rt = SyscallContext::new(3, 12);
    let words: Vec<u32> = (0..8).map(|i| 0xab00 + i).collect();
    store(&mut rt, 0x40, &words);
    assert!(MemCopySyscall::<8>::is_executable(&rt, 0x40, 0x80));
    let e = memory_copy_32(&mut rt, 0x40, 0x80);
    assert_eq!(rt.slice_unsafe(0x80, 8), words);
    assert_eq!(rt.slice_unsafe(0x40, 8), words);
    assert_eq!(rt.clk, 13);
    assert_eq!(rt.record.memcpy32_events.len(), 1);
    assert_eq!(e.addr, 0x40);
    assert_eq!((e.initial_mem_access.shard, e.initial_mem_access.timestamp, e.initial_mem_access.value), (3, 12, 0xab00));
    assert_eq!((e.final_mem_access.shard, e.final_mem_access.timestamp, e.final_mem_access.value), (3, 13, 0xab00));

    let wide: Vec<u32> = (0..16).map(|i| 0x1200 + i).collect();
    store(&mut rt, 0x100, &wide);
    assert!(MemCopySyscall::<16>::is_executable(&rt, 0x100, 0x200));
    let (low, high) = memory_copy_64(&mut rt, 0x100, 0x200);
    assert_eq!(rt.slice_unsafe(0x200, 16), wide);
    assert_eq!(rt.record.memcpy64_events.len(), 1);
    assert_eq!((low.addr, low.initial_mem_access.value, low.initial_mem_access.timestamp), (0x100, 0x1200, 13));
    assert_eq!((high.addr, high.initial_mem_access.value, high.final_mem_access.timestamp), (0x104, 0x1201, 14));
}

fn scalar_context(x: &BigUint, a: &BigUint, b: &BigUint) -> SyscallContext {
    let mut rt = SyscallContext::new(1, 100);
    store(&mut rt, 0x100, &words_of(x));
    store(&mut rt, 0x200, &[0x300, 0x400]);
    store(&mut rt, 0x300, &words_of(a));
    store(&mut rt, 0x400, &words_of(b));
    rt
}

#[test]
fn scalar_mac_accumulates_and_its_chip_accepts_the_trace() {
    let x = random_scalar();
    let a = random_scalar();
    let b = random_scalar();
    let mut rt = scalar_context(&x, &a, &b);
    assert!(is_executable_scalar(&rt, 0x100, 0x200));
    let returned = Bn254ScalarMacSyscall::new().execute(&mut rt, 0x100, 0x200);
    assert_eq!(returned, None);
    assert_eq!(value_of(&rt.slice_unsafe(0x100, 8)), (&x + &a * &b) % modulus());
    assert_eq!(value_of(&rt.slice_unsafe(0x300, 8)), a);
    assert_eq!(rt.clk, 101);
    let event = &rt.record.bn254_scalar_mac_events[0];
    assert_eq!((event.arg1.ptr, event.arg2.ptr), (0x100, 0x200));
    assert_eq!(event.a.as_ref().unwrap().ptr, 0x300);
    assert_eq!(event.b.as_ref().unwrap().ptr, 0x400);
    assert_eq!(event.arg2.memory_records[1].value, 0x400);
    assert_eq!(event.arg1.memory_records[0].timestamp, 101);
    assert_eq!(event.a.as_ref().unwrap().memory_records[7].timestamp, 100);
    assert!(event.is_wf());

    let chip = Bn254ScalarMacChip::new();
    assert_eq!(chip.name(), "Bn254ScalarMac");
    assert_eq!(chip.width(), 649);
    assert_eq!(chip.degree(), 4);
    assert_eq!(chip.minimal_cyclic_domain_size(), 64);
    assert!(chip.included(&rt.record));
    let mut output = ExecutionRecord::new();
    let rows = chip.generate_rows(&rt.record, &mut output);
    assert_eq!(rows.len(), 16);
    assert!(chip.check_rows(&rows).is_ok());
    let trace = chip.generate_trace(&rt.record, &mut output);
    assert_eq!((trace.height(), trace.width()), (16, 649));
    let mut copy = vec![Felt::zero(); 3];
    chip.execute(&[Felt::one(), Felt::zero(), Felt::one()], &mut copy);
    assert_eq!(copy, vec![Felt::one(), Felt::zero(), Felt::one()]);
}

#[test]
fn scalar_mul_add_chip_reports_a_wrong_result() {
    let x = BigUint::from(5u32);
    let a = BigUint::from(6u32);
    let b = BigUint::from(7u32);
    let mut rt = scalar_context(&x, &a, &b);
    assert!(is_executable_scalar(&rt, 0x100, 0x200));
    Bn254ScalarMulAddSyscall::new().execute(&mut rt, 0x100, 0x200);
    assert_eq!(rt.slice_unsafe(0x100, 8), vec![47, 0, 0, 0, 0, 0, 0, 0]);
    assert!(rt.record.bn254_scalar_mac_events.is_empty());
    let chip = Bn254ScalarMulAddChip::new();
    assert_eq!(chip.name(), "Bn254ScalarMulAdd");
    let mut output = ExecutionRecord::new();
    let mut rows = chip.generate_rows(&rt.record, &mut output);
    assert!(chip.check_rows(&rows).is_ok());
    assert_eq!(rows[0].add_eval.result[0], Felt::from_canonical_u32(47));
    assert_eq!(rows[0].a_mul_b.result[0], Felt::from_canonical_u32(42));
    assert_eq!(rows[0].x_memory[0].prev_value.bytes[0], Felt::from_canonical_u32(5));

    let mut builder = ConstraintBuilder::new(true, true);
    chip.eval(&mut builder, &rows[0], &rows[1]);
    assert!(builder.ok);
    let syscalls: Vec<&Interaction> = builder
        .interactions
        .iter()
        .filter(|i| matches!(i, Interaction::Syscall { .. }))
        .collect();
    assert_eq!(syscalls.len(), 1);
    assert_eq!(
        *syscalls[0],
        Interaction::Syscall {
            shard: Felt::from_canonical_u32(1),
            clk: Felt::from_canonical_u32(100),
            nonce: Felt::zero(),
            syscall_id: Felt::from_canonical_u32(SyscallCode::BN254_SCALAR_MULADD.syscall_id()),
            arg1: Felt::from_canonical_u32(0x100),
            arg2: Felt::from_canonical_u32(0x200),
            multiplicity: Felt::one(),
        }
    );

    rows[0].x_memory[0].access.value.bytes[0] = Felt::from_canonical_u32(48);
    let violation = chip.check_rows(&rows).unwrap_err();
    assert_eq!((violation.row, violation.chip.as_str()), (0, "Bn254ScalarMulAdd"));
}

#[test]
fn scalar_syscalls_need_distinct_fresh_operands() {
    let x = BigUint::from(1u32);
    let mut rt = scalar_context(&x, &x, &x);
    store(&mut rt, 0x200, &[0x300, 0x300]);
    assert!(!is_executable_scalar(&rt, 0x100, 0x200));
    store(&mut rt, 0x200, &[0x300, 0x402]);
    assert!(!is_executable_scalar(&rt, 0x100, 0x200));
    store(&mut rt, 0x200, &[0x300, 0x204]);
    assert!(!is_executable_scalar(&rt, 0x100, 0x200));
    store(&mut rt, 0x200, &[0x300, 0x400]);
    assert!(is_executable_scalar(&rt, 0x100, 0x200));
    assert!(is_executable_scalar(&rt, 0x300, 0x200));
    assert!(!is_executable_scalar(&rt, 0x101, 0x200));
}

#[test]
fn multiply_add_chip_pads_numbers_and_accepts_its_trace() {
    let mut rt = SyscallContext::new(4, 20);
    for k in 0..3u32 {
        let base = 0x1000 * (k + 1);
        store(&mut rt, base, &words_of(&random_scalar()));
        store(&mut rt, base + 0x100, &words_of(&random_scalar()));
        store(&mut rt, base + 0x120, &words_of(&random_scalar()));
        assert!(Bn254MulAddSyscall::is_executable(&rt, base, base + 0x100));
        Bn254MulAddSyscall::new().execute(&mut rt, base, base + 0x100);
    }
    assert_eq!(rt.clk, 23);
    assert!(rt.record.is_wf());
    let chip = Bn254MulAddChip::new();
    assert_eq!(chip.name(), "Bn254MulAdd");
    assert_eq!(chip.width(), 630);
    assert!(chip.included(&rt.record));
    let mut output = ExecutionRecord::new();
    let rows = chip.generate_rows(&rt.record, &mut output);
    assert_eq!(rows.len(), 16);
    assert_eq!(output.byte_lookups.len(), 3 * (24 * 2 + 2 * 94));
    for (i, row) in rows.iter().enumerate() {
        assert_eq!(row.nonce, Felt::from_canonical_usize(i));
        assert_eq!(row.is_real, Felt::from_bool(i < 3));
    }
    assert_eq!(rows[1].clk, Felt::from_canonical_u32(21));
    assert_eq!(rows[2].x_ptr, Felt::from_canonical_u32(0x3000));
    assert_eq!(rows[2].y_ptr, Felt::from_canonical_u32(0x3100));
    assert!(chip.check_rows(&rows).is_ok());

    let padding: &Bn254MulAddCols = &rows[9];
    assert!(padding.a_mul_b.result.iter().all(|f| *f == Felt::zero()));
    assert!(padding.a_mul_b.carry.iter().all(|f| *f == Felt::zero()));
    assert!(padding.a_mul_b.witness_low.iter().all(|f| *f == Felt::zero()));
    assert!(padding.a_mul_b.witness_high.iter().all(|f| *f == Felt::from_canonical_u32(64)));
    let mut builder = ConstraintBuilder::new(false, true);
    let zero = vec![Felt::zero(); 32];
    padding.a_mul_b.eval(&mut builder, &zero, &zero, precompile_chips::field_op::FieldOperation::Mul, Felt::one());
    assert!(builder.ok);

    let trace = chip.generate_trace(&rt.record, &mut output);
    assert_eq!((trace.height(), trace.width()), (16, 630));
    for i in 0..16 {
        assert_eq!(trace.row_slice(i)[2], Felt::from_canonical_usize(i));
        assert_eq!(trace.row_slice(i)[629], Felt::from_bool(i < 3));
    }
}

#[test]
fn a_shape_fixes_the_height_and_not_the_inclusion() {
    let chip = Bn254MulAddChip::new();
    let shape = |height| Shape {
        bn254_muladd: height,
        bn254_scalar_mac: Some(3),
        bn254_scalar_muladd: None,
        memcpy_32: None,
        memcpy_64: None,
        poseidon: None,
    };
    let mut empty = ExecutionRecord::new();
    assert!(!chip.included(&empty));
    empty.shape = Some(shape(Some(2)));
    assert!(!chip.included(&empty));

    let mut rt = SyscallContext::new(1, 1);
    store(&mut rt, 0x100, &[1, 0, 0, 0, 0, 0, 0, 0]);
    assert!(Bn254MulAddSyscall::is_executable(&rt, 0x100, 0x200));
    Bn254MulAddSyscall::new().execute(&mut rt, 0x100, 0x200);
    assert!(chip.included(&rt.record));
    let mut output = ExecutionRecord::new();
    assert_eq!(chip.generate_rows(&rt.record, &mut output).len(), 16);
    rt.record.shape = Some(shape(Some(2)));
    assert!(chip.included(&rt.record));
    assert_eq!(chip.generate_rows(&rt.record, &mut output).len(), 4);
    rt.record.shape = Some(shape(None));
    assert!(chip.included(&rt.record));
    assert_eq!(chip.generate_rows(&rt.record, &mut output).len(), 16);
    assert_eq!(rt.record.fixed_log2_rows(SyscallCode::BN254_SCALAR_MAC), Some(3));
    assert_eq!(rt.record.fixed_log2_rows(SyscallCode::BN254_MULADD), None);
}

#[test]
fn unreduced_operands_are_recorded_but_not_restated() {
    let mut rt = SyscallContext::new(1, 1);
    store(&mut rt, 0x200, &[0xffff_ffff; 8]);
    store(&mut rt, 0x220, &[2, 0, 0, 0, 0, 0, 0, 0]);
    assert!(Bn254MulAddSyscall::is_executable(&rt, 0x100, 0x200));
    Bn254MulAddSyscall::new().execute(&mut rt, 0x100, 0x200);
    let big = (BigUint::from(1u32) << 256) - 1u32;
    assert_eq!(value_of(&rt.slice_unsafe(0x100, 8)), (big * 2u32) % modulus());
    assert!(!rt.record.bn254_muladd_events[0].is_wf());
    assert!(!rt.record.is_wf());
}

#[test]
fn a_wrong_journal_is_built_and_found_by_the_constraints() {
    let mut rt = SyscallContext::new(1, 1);
    store(&mut rt, 0x100, &[5, 0, 0, 0, 0, 0, 0, 0]);
    store(&mut rt, 0x200, &[6, 0, 0, 0, 0, 0, 0, 0]);
    store(&mut rt, 0x220, &[7, 0, 0, 0, 0, 0, 0, 0]);
    assert!(Bn254MulAddSyscall::is_executable(&rt, 0x100, 0x200));
    Bn254MulAddSyscall::new().execute(&mut rt, 0x100, 0x200);
    assert_eq!(rt.record.bn254_muladd_events[0].x_memory_records[0].value, 47);
    rt.record.bn254_muladd_events[0].x_memory_records[0].value = 48;
    assert!(rt.record.bn254_muladd_events[0].is_restatable());
    assert!(rt.record.is_restatable(SyscallCode::BN254_MULADD));
    assert!(!rt.record.bn254_muladd_events[0].is_wf());
    let chip = Bn254MulAddChip::new();
    let mut output = ExecutionRecord::new();
    let rows = chip.generate_rows(&rt.record, &mut output);
    assert_eq!(rows.len(), 16);
    let violation = chip.check_rows(&rows).unwrap_err();
    assert_eq!((violation.row, violation.chip.as_str()), (0, "Bn254MulAdd"));
    let trace = chip.generate_trace(&rt.record, &mut output);
    let violation = chip.check_trace(&trace).unwrap_err();
    assert_eq!((violation.row, violation.chip.as_str()), (0, "Bn254MulAdd"));

    let mut copy = SyscallContext::new(1, 1);
    store(&mut copy, 0x400, &[1, 2, 3, 4, 5, 6, 7, 8]);
    assert!(MemCopySyscall::<8>::is_executable(&copy, 0x400, 0x800));
    MemCopySyscall::<8>::new().execute(&mut copy, 0x400, 0x800);
    copy.record.memcpy32_events[0].write_records[3].value = 9;
    assert!(copy.record.is_restatable(SyscallCode::MEMCPY_32));
    assert!(!copy.record.is_wf());
    let chip = MemCopy32Chip::new();
    let rows = chip.generate_rows(&copy.record, &mut output);
    assert_eq!(chip.check_rows(&rows).unwrap_err().row, 0);

    copy.record.memcpy32_events[0].write_records.pop();
    assert!(!copy.record.is_restatable(SyscallCode::MEMCPY_32));
    assert!(copy.record.is_restatable(SyscallCode::POSEIDON));
}
