//! The chips as one closed family: for each syscall the chip that serves it, and what every
//! chip offers the prover (a name, a width, an inclusion test, a trace and a verdict on a
//! trace), dispatched on the kind of chip.
use crate::bn254_mul_add::Bn254MulAddChip;
use crate::bn254_scalar::{Bn254ScalarMacChip, Bn254ScalarMulAddChip};
use crate::events::{ExecutionRecord, SyscallCode};
use crate::memcopy::{MemCopy32Chip, MemCopy64Chip};
use crate::poseidon::{PoseidonChip, NUM_ROUNDS};
use crate::trace::{trace_fits, ConstraintViolation, TraceMatrix};
use vstd::prelude::*;

verus! {

/// A precompile chip of any kind.
#[derive(Clone, Copy, Debug)]
pub enum PrecompileChip {
    Bn254MulAdd(Bn254MulAddChip),
    Bn254ScalarMac(Bn254ScalarMacChip),
    Bn254ScalarMulAdd(Bn254ScalarMulAddChip),
    MemCopy32(MemCopy32Chip),
    MemCopy64(MemCopy64Chip),
    Poseidon(PoseidonChip),
}

/// The number of columns of the trace of the chip that serves `code`.
pub open spec fn chip_width(code: SyscallCode) -> nat {
    match code {
        SyscallCode::BN254_MULADD => crate::bn254_mul_add::NUM_COLS as nat,
        SyscallCode::BN254_SCALAR_MAC => crate::bn254_scalar::NUM_COLS as nat,
        SyscallCode::BN254_SCALAR_MULADD => crate::bn254_scalar::NUM_COLS as nat,
        SyscallCode::MEMCPY_32 => crate::memcopy::num_cols(8),
        SyscallCode::MEMCPY_64 => crate::memcopy::num_cols(16),
        SyscallCode::POSEIDON => crate::poseidon::NUM_COLS as nat,
    }
}

/// The name of the chip that serves `code`.
pub open spec fn chip_name(code: SyscallCode) -> Seq<char> {
    match code {
        SyscallCode::BN254_MULADD => "Bn254MulAdd"@,
        SyscallCode::BN254_SCALAR_MAC => "Bn254ScalarMac"@,
        SyscallCode::BN254_SCALAR_MULADD => "Bn254ScalarMulAdd"@,
        SyscallCode::MEMCPY_32 => "MemCopy8Chip"@,
        SyscallCode::MEMCPY_64 => "MemCopy16Chip"@,
        SyscallCode::POSEIDON => "Poseidon"@,
    }
}

/// Whether the chip that serves `code` is part of the proof of `shard`.
pub open spec fn chip_included(code: SyscallCode, shard: ExecutionRecord) -> bool {
    shard.spec_num_events(code) > 0
}

/// Whether the chip that serves `code` can build its trace for `input`: the chip can build a
/// row from every event of its kind, and the padded trace fits the machine.
pub open spec fn can_generate(code: SyscallCode, input: ExecutionRecord) -> bool {
    match code {
        SyscallCode::BN254_MULADD => {
            &&& crate::bn254_mul_add::events_restatable(input.bn254_muladd_events@)
            &&& trace_fits(
                input.bn254_muladd_events@.len(),
                input.spec_fixed_log2_rows(code),
                chip_width(code),
            )
        },
        SyscallCode::BN254_SCALAR_MAC => {
            &&& crate::bn254_scalar::events_restatable(input.bn254_scalar_mac_events@)
            &&& trace_fits(
                input.bn254_scalar_mac_events@.len(),
                input.spec_fixed_log2_rows(code),
                chip_width(code),
            )
        },
        SyscallCode::BN254_SCALAR_MULADD => {
            &&& crate::bn254_scalar::events_restatable(input.bn254_scalar_muladd_events@)
            &&& trace_fits(
                input.bn254_scalar_muladd_events@.len(),
                input.spec_fixed_log2_rows(code),
                chip_width(code),
            )
        },
        SyscallCode::MEMCPY_32 => {
            &&& crate::memcopy::events_restatable(input.memcpy32_events@, 8)
            &&& trace_fits(
                input.memcpy32_events@.len(),
                input.spec_fixed_log2_rows(code),
                chip_width(code),
            )
        },
        SyscallCode::MEMCPY_64 => {
            &&& crate::memcopy::events_restatable(input.memcpy64_events@, 16)
            &&& trace_fits(
                input.memcpy64_events@.len(),
                input.spec_fixed_log2_rows(code),
                chip_width(code),
            )
        },
        SyscallCode::POSEIDON => 2 * (NUM_ROUNDS * input.poseidon_events@.len()) * chip_width(code)
            <= usize::MAX,
    }
}

/// Whether `trace` is the trace of the chip that serves `code` for `input`, and `after` the
/// ledger that `before` becomes by building it.
pub open spec fn is_chip_trace(
    code: SyscallCode,
    trace: TraceMatrix,
    input: ExecutionRecord,
    before: Seq<crate::lookup::ByteLookupEvent>,
    after: Seq<crate::lookup::ByteLookupEvent>,
) -> bool {
    match code {
        SyscallCode::BN254_MULADD => crate::bn254_mul_add::is_trace_of(
            trace,
            input.bn254_muladd_events@,
            before,
            after,
        ),
        SyscallCode::BN254_SCALAR_MAC => crate::bn254_scalar::is_trace_of(
            trace,
            input.bn254_scalar_mac_events@,
            before,
            after,
        ),
        SyscallCode::BN254_SCALAR_MULADD => crate::bn254_scalar::is_trace_of(
            trace,
            input.bn254_scalar_muladd_events@,
            before,
            after,
        ),
        SyscallCode::MEMCPY_32 => {
            &&& crate::memcopy::is_trace_of(trace, input.memcpy32_events@, 8)
            &&& after == before + crate::memcopy::trace_events(
                input.memcpy32_events@,
                input.memcpy32_events@.len(),
            )
        },
        SyscallCode::MEMCPY_64 => {
            &&& crate::memcopy::is_trace_of(trace, input.memcpy64_events@, 16)
            &&& after == before + crate::memcopy::trace_events(
                input.memcpy64_events@,
                input.memcpy64_events@.len(),
            )
        },
        SyscallCode::POSEIDON => {
            &&& crate::poseidon::trace::is_trace_of(trace, input.poseidon_events@)
            &&& after == before
        },
    }
}

/// The column of the nonce in the trace of the chip that serves `code`.
pub open spec fn nonce_column(code: SyscallCode) -> int {
    match code {
        SyscallCode::BN254_MULADD => 2,
        SyscallCode::POSEIDON => 3,
        _ => 4,
    }
}

/// The column of `is_real` in the trace of the chip that serves `code`.
pub open spec fn is_real_column(code: SyscallCode) -> int {
    match code {
        SyscallCode::BN254_MULADD => 629,
        _ => 0,
    }
}

/// The number of rows that restate events in the trace of the chip that serves `code`: one
/// for each event, sixty-five for each event of the hash.
pub open spec fn real_rows(code: SyscallCode, input: ExecutionRecord) -> nat {
    match code {
        SyscallCode::POSEIDON => (NUM_ROUNDS * input.poseidon_events@.len()) as nat,
        _ => input.spec_num_events(code),
    }
}

/// Whether `r` is the verdict of the chip that serves `code` on `trace`.
pub open spec fn is_chip_verdict(
    code: SyscallCode,
    r: Result<(), ConstraintViolation>,
    trace: TraceMatrix,
) -> bool {
    match code {
        SyscallCode::BN254_MULADD => crate::bn254_mul_add::is_trace_verdict(r, trace),
        SyscallCode::BN254_SCALAR_MAC => crate::bn254_scalar::is_trace_verdict(r, trace),
        SyscallCode::BN254_SCALAR_MULADD => crate::bn254_scalar::is_trace_verdict(r, trace),
        SyscallCode::MEMCPY_32 => crate::memcopy::is_trace_verdict(r, trace, 8),
        SyscallCode::MEMCPY_64 => crate::memcopy::is_trace_verdict(r, trace, 16),
        SyscallCode::POSEIDON => crate::poseidon::air::is_trace_verdict(r, trace),
    }
}

impl PrecompileChip {
    /// The syscall that the chip serves.
    pub open spec fn spec_code(self) -> SyscallCode {
        match self {
            PrecompileChip::Bn254MulAdd(_) => SyscallCode::BN254_MULADD,
            PrecompileChip::Bn254ScalarMac(_) => SyscallCode::BN254_SCALAR_MAC,
            PrecompileChip::Bn254ScalarMulAdd(_) => SyscallCode::BN254_SCALAR_MULADD,
            PrecompileChip::MemCopy32(_) => SyscallCode::MEMCPY_32,
            PrecompileChip::MemCopy64(_) => SyscallCode::MEMCPY_64,
            PrecompileChip::Poseidon(_) => SyscallCode::POSEIDON,
        }
    }

    /// The chip that serves `code`.
    pub fn for_code(code: SyscallCode) -> (chip: PrecompileChip)
        ensures
            chip.spec_code() == code,
    {
        match code {
            SyscallCode::BN254_MULADD => PrecompileChip::Bn254MulAdd(Bn254MulAddChip::new()),
            SyscallCode::BN254_SCALAR_MAC => PrecompileChip::Bn254ScalarMac(
                Bn254ScalarMacChip::new(),
            ),
            SyscallCode::BN254_SCALAR_MULADD => PrecompileChip::Bn254ScalarMulAdd(
                Bn254ScalarMulAddChip::new(),
            ),
            SyscallCode::MEMCPY_32 => PrecompileChip::MemCopy32(MemCopy32Chip::new()),
            SyscallCode::MEMCPY_64 => PrecompileChip::MemCopy64(MemCopy64Chip::new()),
            SyscallCode::POSEIDON => PrecompileChip::Poseidon(PoseidonChip::new()),
        }
    }

    /// Every chip, one for each syscall.
    pub fn all() -> (chips: Vec<PrecompileChip>)
        ensures
            chips@.len() == 6,
            chips@[0].spec_code() == SyscallCode::BN254_MULADD,
            chips@[1].spec_code() == SyscallCode::BN254_SCALAR_MAC,
            chips@[2].spec_code() == SyscallCode::BN254_SCALAR_MULADD,
            chips@[3].spec_code() == SyscallCode::MEMCPY_32,
            chips@[4].spec_code() == SyscallCode::MEMCPY_64,
            chips@[5].spec_code() == SyscallCode::POSEIDON,
    {
        let mut chips: Vec<PrecompileChip> = Vec::new();
        chips.push(PrecompileChip::for_code(SyscallCode::BN254_MULADD));
        chips.push(PrecompileChip::for_code(SyscallCode::BN254_SCALAR_MAC));
        chips.push(PrecompileChip::for_code(SyscallCode::BN254_SCALAR_MULADD));
        chips.push(PrecompileChip::for_code(SyscallCode::MEMCPY_32));
        chips.push(PrecompileChip::for_code(SyscallCode::MEMCPY_64));
        chips.push(PrecompileChip::for_code(SyscallCode::POSEIDON));
        chips
    }

    /// The syscall that the chip serves.
    pub fn code(&self) -> (code: SyscallCode)
        ensures
            code == self.spec_code(),
    {
        match self {
            PrecompileChip::Bn254MulAdd(_) => SyscallCode::BN254_MULADD,
            PrecompileChip::Bn254ScalarMac(_) => SyscallCode::BN254_SCALAR_MAC,
            PrecompileChip::Bn254ScalarMulAdd(_) => SyscallCode::BN254_SCALAR_MULADD,
            PrecompileChip::MemCopy32(_) => SyscallCode::MEMCPY_32,
            PrecompileChip::MemCopy64(_) => SyscallCode::MEMCPY_64,
            PrecompileChip::Poseidon(_) => SyscallCode::POSEIDON,
        }
    }

    /// The name of the chip.
    pub fn name(&self) -> (name: String)
        ensures
            name@ == chip_name(self.spec_code()),
    {
        match self {
            PrecompileChip::Bn254MulAdd(chip) => chip.name(),
            PrecompileChip::Bn254ScalarMac(chip) => chip.name(),
            PrecompileChip::Bn254ScalarMulAdd(chip) => chip.name(),
            PrecompileChip::MemCopy32(chip) => chip.name(),
            PrecompileChip::MemCopy64(chip) => chip.name(),
            PrecompileChip::Poseidon(chip) => chip.name(),
        }
    }

    /// The number of columns of the chip's trace.
    pub fn width(&self) -> (w: usize)
        ensures
            w == chip_width(self.spec_code()),
    {
        match self {
            PrecompileChip::Bn254MulAdd(chip) => chip.width(),
            PrecompileChip::Bn254ScalarMac(chip) => chip.width(),
            PrecompileChip::Bn254ScalarMulAdd(chip) => chip.width(),
            PrecompileChip::MemCopy32(chip) => chip.width(),
            PrecompileChip::MemCopy64(chip) => chip.width(),
            PrecompileChip::Poseidon(chip) => chip.width(),
        }
    }

    /// Whether the chip is part of the proof of `shard`.
    pub fn included(&self, shard: &ExecutionRecord) -> (r: bool)
        ensures
            r == chip_included(self.spec_code(), *shard),
    {
        match self {
            PrecompileChip::Bn254MulAdd(chip) => chip.included(shard),
            PrecompileChip::Bn254ScalarMac(chip) => chip.included(shard),
            PrecompileChip::Bn254ScalarMulAdd(chip) => chip.included(shard),
            PrecompileChip::MemCopy32(chip) => chip.included(shard),
            PrecompileChip::MemCopy64(chip) => chip.included(shard),
            PrecompileChip::Poseidon(chip) => chip.included(shard),
        }
    }

    /// The chip's trace for a shard; the range-check requests that arise are appended to
    /// `output`'s ledger.
    pub fn generate_trace(&self, input: &ExecutionRecord, output: &mut ExecutionRecord) -> (trace:
        TraceMatrix)
        requires
            can_generate(self.spec_code(), *input),
        ensures
            trace.wf(),
            trace.width == chip_width(self.spec_code()),
            is_chip_trace(
                self.spec_code(),
                trace,
                *input,
                old(output).byte_lookups@,
                final(output).byte_lookups@,
            ),
            crate::trace::rows_are_numbered(
                trace,
                nonce_column(self.spec_code()),
                is_real_column(self.spec_code()),
                real_rows(self.spec_code(), *input),
            ),
            final(output).same_events(*old(output)),
    {
        match self {
            PrecompileChip::Bn254MulAdd(chip) => chip.generate_trace(input, output),
            PrecompileChip::Bn254ScalarMac(chip) => chip.generate_trace(input, output),
            PrecompileChip::Bn254ScalarMulAdd(chip) => chip.generate_trace(input, output),
            PrecompileChip::MemCopy32(chip) => chip.generate_trace(input, output),
            PrecompileChip::MemCopy64(chip) => chip.generate_trace(input, output),
            PrecompileChip::Poseidon(chip) => chip.generate_trace(input, output),
        }
    }

    /// The chip's verdict on a trace: success, or the first row in violation of a constraint.
    pub fn check_trace(&self, trace: &TraceMatrix) -> (r: Result<(), ConstraintViolation>)
        requires
            trace.wf(),
            trace.width == chip_width(self.spec_code()),
        ensures
            is_chip_verdict(self.spec_code(), r, *trace),
            r matches Err(v) ==> v.chip@ == chip_name(self.spec_code()),
    {
        match self {
            PrecompileChip::Bn254MulAdd(chip) => chip.check_trace(trace),
            PrecompileChip::Bn254ScalarMac(chip) => chip.check_trace(trace),
            PrecompileChip::Bn254ScalarMulAdd(chip) => chip.check_trace(trace),
            PrecompileChip::MemCopy32(chip) => chip.check_trace(trace),
            PrecompileChip::MemCopy64(chip) => chip.check_trace(trace),
            PrecompileChip::Poseidon(chip) => chip.check_trace(trace),
        }
    }
}

} // verus!
