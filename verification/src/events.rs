//! The events that precompile syscalls leave behind, and the shard record that collects them.
use crate::field_op::{bn254_scalar_modulus, felts_of_bytes};
use crate::limbs::{bytes_of_words, le_value, words_to_bytes_le, NUM_WORDS};
use crate::lookup::ByteLookupEvent;
use crate::memory::{
    prev_write_limbs, read_limbs, write_limbs, MemoryReadCols, MemoryReadRecord, MemoryWriteCols,
    MemoryWriteRecord,
};
use vstd::prelude::*;

verus! {

/// The syscalls that the precompile chips serve.
#[allow(non_camel_case_types)]
#[derive(Clone, Copy, Debug, PartialEq, Eq, Structural)]
pub enum SyscallCode {
    /// 256-bit multiply-add modulo the BN254 scalar field's order, operands side by side.
    BN254_MULADD,
    /// Scalar multiply-accumulate, operands behind two pointers.
    BN254_SCALAR_MAC,
    /// Scalar multiply-add, operands behind two pointers.
    BN254_SCALAR_MULADD,
    /// Copy of eight words.
    MEMCPY_32,
    /// Copy of sixteen words.
    MEMCPY_64,
    /// The fixed-permutation hash.
    POSEIDON,
}

/// The full code of a syscall: the identifier in the lowest byte, above it whether the
/// instruction chip hands the syscall to a chip of its own, and the clock cycles it takes
/// beyond the first.
pub open spec fn syscall_code(code: SyscallCode) -> u32 {
    match code {
        SyscallCode::BN254_MULADD => 0x00_01_01_82,
        SyscallCode::BN254_SCALAR_MAC => 0x00_01_01_81,
        SyscallCode::BN254_SCALAR_MULADD => 0x00_01_01_83,
        SyscallCode::MEMCPY_32 => 0x00_01_01_90,
        SyscallCode::MEMCPY_64 => 0x00_01_01_91,
        SyscallCode::POSEIDON => 0x00_01_01_a0,
    }
}

impl SyscallCode {
    /// The full code of the syscall.
    pub fn code(self) -> (c: u32)
        ensures
            c == syscall_code(self),
    {
        match self {
            SyscallCode::BN254_MULADD => 0x00_01_01_82,
            SyscallCode::BN254_SCALAR_MAC => 0x00_01_01_81,
            SyscallCode::BN254_SCALAR_MULADD => 0x00_01_01_83,
            SyscallCode::MEMCPY_32 => 0x00_01_01_90,
            SyscallCode::MEMCPY_64 => 0x00_01_01_91,
            SyscallCode::POSEIDON => 0x00_01_01_a0,
        }
    }

    /// The identifier of the syscall: the lowest byte of its code.
    pub fn syscall_id(self) -> (id: u32)
        ensures
            id == syscall_code(self) % 256,
    {
        self.code() % 256
    }
}

/// No two syscalls share an identifier.
pub proof fn lemma_syscall_id_injective(a: SyscallCode, b: SyscallCode)
    requires
        syscall_code(a) % 256 == syscall_code(b) % 256,
    ensures
        a == b,
{
}

/// The state of one memory word at one time.
#[derive(Clone, Copy, Debug, PartialEq, Eq, Structural)]
pub struct MemoryRecord {
    /// The shard of the access.
    pub shard: u32,
    /// The clock of the access.
    pub timestamp: u32,
    /// The value of the word.
    pub value: u32,
}

/// The first and the last state of one memory word within a shard.
#[derive(Clone, Copy, Debug, PartialEq, Eq, Structural)]
pub struct MemoryLocalEvent {
    /// The address of the word.
    pub addr: u32,
    /// The state before the first access of the shard.
    pub initial_mem_access: MemoryRecord,
    /// The state after the last access of the shard.
    pub final_mem_access: MemoryRecord,
}

/// One 256-bit multiply-add: `x` is replaced by `x + a * b` modulo the BN254 scalar field's
/// order, `a` and `b` lying side by side at `y_ptr`.
#[derive(Debug)]
pub struct Bn254MulAddEvent {
    /// The lookup identifier.
    pub lookup_id: u128,
    /// The shard number.
    pub shard: u32,
    /// The clock cycle.
    pub clk: u32,
    /// The pointer to the x value.
    pub x_ptr: u32,
    /// The x value as a list of words.
    pub x: Vec<u32>,
    /// The pointer to the a value, which the b value follows.
    pub y_ptr: u32,
    /// The a value as a list of words.
    pub a: Vec<u32>,
    /// The b value as a list of words.
    pub b: Vec<u32>,
    /// The memory records for the x value.
    pub x_memory_records: Vec<MemoryWriteRecord>,
    /// The memory records for the a value.
    pub a_memory_records: Vec<MemoryReadRecord>,
    /// The memory records for the b value.
    pub b_memory_records: Vec<MemoryReadRecord>,
    /// The local memory access records.
    pub local_mem_access: Vec<MemoryLocalEvent>,
}

/// Whether every read of a run comes after the access before it.
pub open spec fn reads_wf(records: Seq<MemoryReadRecord>) -> bool {
    forall|i: int| 0 <= i < records.len() ==> (#[trigger] records[i]).wf()
}

/// Whether every write of a run comes after the access before it.
pub open spec fn writes_wf(records: Seq<MemoryWriteRecord>) -> bool {
    forall|i: int| 0 <= i < records.len() ==> (#[trigger] records[i]).wf()
}

/// The values that a run of reads found.
pub open spec fn read_values(records: Seq<MemoryReadRecord>) -> Seq<u32> {
    Seq::new(records.len(), |i: int| records[i].value)
}

/// The values that a run of writes left.
pub open spec fn written_values(records: Seq<MemoryWriteRecord>) -> Seq<u32> {
    Seq::new(records.len(), |i: int| records[i].value)
}

/// The values that a run of writes found.
pub open spec fn overwritten_values(records: Seq<MemoryWriteRecord>) -> Seq<u32> {
    Seq::new(records.len(), |i: int| records[i].prev_value)
}

/// Whether `words` are the eight words of an integer below the BN254 scalar field's order.
pub open spec fn is_scalar(words: Seq<u32>) -> bool {
    words.len() == NUM_WORDS && le_value(bytes_of_words(words)) < bn254_scalar_modulus()
}

impl Bn254MulAddEvent {
    /// Whether the event is one that the chip can restate: three operands of eight words, each
    /// below the modulus; a record for each word, each after the access before it; the records
    /// agreeing with the operands; and the words written over x spelling `x + a * b` modulo
    /// the order.
    pub open spec fn wf(self) -> bool {
        &&& is_scalar(self.x@)
        &&& is_scalar(self.a@)
        &&& is_scalar(self.b@)
        &&& self.well_recorded()
    }

    /// Whether the chip can build a row from the event: three operands of eight words, each
    /// below the modulus, and a record for each word, each after the access before it.
    /// Whether the records agree with the operands and with the result is left to the
    /// constraints.
    pub open spec fn restatable(self) -> bool {
        &&& is_scalar(self.x@)
        &&& is_scalar(self.a@)
        &&& is_scalar(self.b@)
        &&& self.x_memory_records@.len() == NUM_WORDS
        &&& self.a_memory_records@.len() == NUM_WORDS
        &&& self.b_memory_records@.len() == NUM_WORDS
        &&& writes_wf(self.x_memory_records@)
        &&& reads_wf(self.a_memory_records@)
        &&& reads_wf(self.b_memory_records@)
    }

    /// Whether the event's records are those of a multiply-add of its operands, whatever the
    /// operands' size.
    pub open spec fn well_recorded(self) -> bool {
        &&& self.x@.len() == NUM_WORDS
        &&& self.a@.len() == NUM_WORDS
        &&& self.b@.len() == NUM_WORDS
        &&& self.x_memory_records@.len() == NUM_WORDS
        &&& self.a_memory_records@.len() == NUM_WORDS
        &&& self.b_memory_records@.len() == NUM_WORDS
        &&& writes_wf(self.x_memory_records@)
        &&& reads_wf(self.a_memory_records@)
        &&& reads_wf(self.b_memory_records@)
        &&& overwritten_values(self.x_memory_records@) == self.x@
        &&& read_values(self.a_memory_records@) == self.a@
        &&& read_values(self.b_memory_records@) == self.b@
        &&& le_value(bytes_of_words(written_values(self.x_memory_records@))) == (le_value(
            bytes_of_words(self.x@),
        ) + le_value(bytes_of_words(self.a@)) * le_value(bytes_of_words(self.b@)))
            % bn254_scalar_modulus()
    }
}

/// The words behind one pointer and the reads that fetched them.
#[derive(Debug)]
pub struct FieldArithReadAccess {
    /// The pointer.
    pub ptr: u32,
    /// One read for each word.
    pub memory_records: Vec<MemoryReadRecord>,
}

/// The words behind one pointer and the writes that replaced them.
#[derive(Debug)]
pub struct FieldArithWriteAccess {
    /// The pointer.
    pub ptr: u32,
    /// One write for each word.
    pub memory_records: Vec<MemoryWriteRecord>,
}

/// The operations on BN254 scalars that the scalar chips serve.
#[derive(Clone, Copy, Debug, PartialEq, Eq, Structural)]
pub enum Bn254FieldOperation {
    /// `arg1 = arg1 + a * b`, with `a` and `b` behind the two pointers at `arg2`.
    MulAdd,
}

/// One operation on BN254 scalars whose operands lie behind pointers: the first argument
/// points at the accumulator, the second at two pointers, to `a` and to `b`.
#[derive(Debug)]
pub struct Bn254FieldArithEvent {
    /// The shard number.
    pub shard: u32,
    /// The clock cycle.
    pub clk: u32,
    /// The operation.
    pub op: Bn254FieldOperation,
    /// The accumulator: what it held, and what was written over it.
    pub arg1: FieldArithWriteAccess,
    /// The two pointers.
    pub arg2: FieldArithReadAccess,
    /// The first factor.
    pub a: Option<FieldArithReadAccess>,
    /// The second factor.
    pub b: Option<FieldArithReadAccess>,
}

impl FieldArithReadAccess {
    /// The words that the reads found.
    pub open spec fn words(self) -> Seq<u32> {
        read_values(self.memory_records@)
    }

    /// The limbs of the integer that the reads found.
    pub fn value_limbs(&self) -> (limbs: Vec<u8>)
        requires
            4 * self.memory_records@.len() <= usize::MAX,
        ensures
            limbs@ == bytes_of_words(self.words()),
    {
        let mut words: Vec<u32> = Vec::new();
        let mut i: usize = 0;
        while i < self.memory_records.len()
            invariant
                i <= self.memory_records@.len(),
                words@.len() == i,
                forall|k: int| 0 <= k < i ==> words@[k] == self.memory_records@[k].value,
            decreases self.memory_records@.len() - i,
        {
            words.push(self.memory_records[i].value);
            i = i + 1;
        }
        assert(words@ =~= self.words());
        words_to_bytes_le(words.as_slice())
    }
}

impl FieldArithWriteAccess {
    /// The words that the writes found.
    pub open spec fn prev_words(self) -> Seq<u32> {
        overwritten_values(self.memory_records@)
    }

    /// The limbs of the integer that the writes found.
    pub fn prev_value_limbs(&self) -> (limbs: Vec<u8>)
        requires
            4 * self.memory_records@.len() <= usize::MAX,
        ensures
            limbs@ == bytes_of_words(self.prev_words()),
    {
        let mut words: Vec<u32> = Vec::new();
        let mut i: usize = 0;
        while i < self.memory_records.len()
            invariant
                i <= self.memory_records@.len(),
                words@.len() == i,
                forall|k: int| 0 <= k < i ==> words@[k] == self.memory_records@[k].prev_value,
            decreases self.memory_records@.len() - i,
        {
            words.push(self.memory_records[i].prev_value);
            i = i + 1;
        }
        assert(words@ =~= self.prev_words());
        words_to_bytes_le(words.as_slice())
    }
}

impl Bn254FieldArithEvent {
    /// Whether the event is one that the scalar chips can restate: both factors present; the
    /// accumulator and the factors of eight words each, below the modulus; two pointer words;
    /// every record after the access before it; and the words written over the accumulator
    /// spelling `arg1 + a * b` modulo the order.
    pub open spec fn wf(self) -> bool {
        &&& self.well_recorded()
        &&& is_scalar(self.arg1.prev_words())
        &&& is_scalar(self.a->0.words())
        &&& is_scalar(self.b->0.words())
    }

    /// Whether the chips can build a row from the event: both factors present; a record for
    /// each of the eight words of the accumulator and of each factor and for the two pointer
    /// words, each after the access before it; and what the accumulator held and both factors
    /// below the modulus. Whether the words written are the result is left to the constraints.
    pub open spec fn restatable(self) -> bool {
        &&& self.a is Some
        &&& self.b is Some
        &&& self.arg1.memory_records@.len() == NUM_WORDS
        &&& self.a->0.memory_records@.len() == NUM_WORDS
        &&& self.b->0.memory_records@.len() == NUM_WORDS
        &&& self.arg2.memory_records@.len() == 2
        &&& writes_wf(self.arg1.memory_records@)
        &&& reads_wf(self.arg2.memory_records@)
        &&& reads_wf(self.a->0.memory_records@)
        &&& reads_wf(self.b->0.memory_records@)
        &&& is_scalar(self.arg1.prev_words())
        &&& is_scalar(self.a->0.words())
        &&& is_scalar(self.b->0.words())
    }

    /// Whether the event's records are those of a multiply-add of its operands, whatever the
    /// operands' size.
    pub open spec fn well_recorded(self) -> bool {
        &&& self.a is Some
        &&& self.b is Some
        &&& self.arg1.memory_records@.len() == NUM_WORDS
        &&& self.a->0.memory_records@.len() == NUM_WORDS
        &&& self.b->0.memory_records@.len() == NUM_WORDS
        &&& self.arg2.memory_records@.len() == 2
        &&& writes_wf(self.arg1.memory_records@)
        &&& reads_wf(self.arg2.memory_records@)
        &&& reads_wf(self.a->0.memory_records@)
        &&& reads_wf(self.b->0.memory_records@)
        &&& le_value(bytes_of_words(written_values(self.arg1.memory_records@))) == (le_value(
            bytes_of_words(self.arg1.prev_words()),
        ) + le_value(bytes_of_words(self.a->0.words())) * le_value(
            bytes_of_words(self.b->0.words()),
        )) % bn254_scalar_modulus()
    }
}

/// One copy of a run of words from `src_ptr` to `dst_ptr`.
#[derive(Debug)]
pub struct MemCopyEvent {
    /// The shard number.
    pub shard: u32,
    /// The clock cycle.
    pub clk: u32,
    /// Where the words were read.
    pub src_ptr: u32,
    /// Where the words were written.
    pub dst_ptr: u32,
    /// One read for each word.
    pub read_records: Vec<MemoryReadRecord>,
    /// One write for each word.
    pub write_records: Vec<MemoryWriteRecord>,
}

impl MemCopyEvent {
    /// Whether the chip can build a row from the event: a read and a write for each of
    /// `num_words` words, each after the access before it. Whether each word was written as
    /// read is left to the constraints.
    pub open spec fn restatable(self, num_words: nat) -> bool {
        &&& self.read_records@.len() == num_words
        &&& self.write_records@.len() == num_words
        &&& reads_wf(self.read_records@)
        &&& writes_wf(self.write_records@)
    }

    /// Whether the event is a copy of `num_words` words that the chip can restate: a read and a
    /// write for each word, each after the access before it, and each word written as read.
    pub open spec fn wf(self, num_words: nat) -> bool {
        &&& self.read_records@.len() == num_words
        &&& self.write_records@.len() == num_words
        &&& reads_wf(self.read_records@)
        &&& writes_wf(self.write_records@)
        &&& read_values(self.read_records@) == written_values(self.write_records@)
    }
}

/// One run of the fixed permutation on a state of three words.
#[derive(Clone, Copy, Debug)]
pub struct PoseidonEvent {
    /// The shard number.
    pub shard: u32,
    /// The clock cycle.
    pub clk: u32,
    /// Where the input was read.
    pub input_ptr: u32,
    /// Where the output was written.
    pub output_ptr: u32,
    /// The state before the first round.
    pub input: [u64; 3],
}

impl PoseidonEvent {
    /// Whether the event is one that the chip can restate: both pointers multiples of four,
    /// and below the trace field's order, so that the trace field can tell.
    pub open spec fn wf(self) -> bool {
        &&& self.input_ptr % 4 == 0
        &&& self.output_ptr % 4 == 0
        &&& self.input_ptr < crate::field::MODULUS
        &&& self.output_ptr < crate::field::MODULUS
    }
}

/// An event of any of the precompiles.
#[derive(Debug)]
pub enum PrecompileEvent {
    Bn254MulAdd(Bn254MulAddEvent),
    Bn254ScalarMac(Bn254FieldArithEvent),
    Bn254ScalarMulAdd(Bn254FieldArithEvent),
    MemCopy32(MemCopyEvent),
    MemCopy64(MemCopyEvent),
    Poseidon(PoseidonEvent),
}

impl PrecompileEvent {
    /// The syscall that leaves this kind of event.
    pub open spec fn spec_code(self) -> SyscallCode {
        match self {
            PrecompileEvent::Bn254MulAdd(_) => SyscallCode::BN254_MULADD,
            PrecompileEvent::Bn254ScalarMac(_) => SyscallCode::BN254_SCALAR_MAC,
            PrecompileEvent::Bn254ScalarMulAdd(_) => SyscallCode::BN254_SCALAR_MULADD,
            PrecompileEvent::MemCopy32(_) => SyscallCode::MEMCPY_32,
            PrecompileEvent::MemCopy64(_) => SyscallCode::MEMCPY_64,
            PrecompileEvent::Poseidon(_) => SyscallCode::POSEIDON,
        }
    }

    /// The syscall that leaves this kind of event.
    pub fn code(&self) -> (c: SyscallCode)
        ensures
            c == self.spec_code(),
    {
        match self {
            PrecompileEvent::Bn254MulAdd(_) => SyscallCode::BN254_MULADD,
            PrecompileEvent::Bn254ScalarMac(_) => SyscallCode::BN254_SCALAR_MAC,
            PrecompileEvent::Bn254ScalarMulAdd(_) => SyscallCode::BN254_SCALAR_MULADD,
            PrecompileEvent::MemCopy32(_) => SyscallCode::MEMCPY_32,
            PrecompileEvent::MemCopy64(_) => SyscallCode::MEMCPY_64,
            PrecompileEvent::Poseidon(_) => SyscallCode::POSEIDON,
        }
    }
}

/// The heights that a shard's traces are to be padded to, as base-two logarithms, for the
/// chips whose height the shape fixes.
#[derive(Clone, Copy, Debug)]
pub struct Shape {
    pub bn254_muladd: Option<usize>,
    pub bn254_scalar_mac: Option<usize>,
    pub bn254_scalar_muladd: Option<usize>,
    pub memcpy_32: Option<usize>,
    pub memcpy_64: Option<usize>,
    pub poseidon: Option<usize>,
}

impl Shape {
    /// The height fixed for the chip of `code`, if the shape fixes one.
    pub open spec fn spec_log2_rows(self, code: SyscallCode) -> Option<usize> {
        match code {
            SyscallCode::BN254_MULADD => self.bn254_muladd,
            SyscallCode::BN254_SCALAR_MAC => self.bn254_scalar_mac,
            SyscallCode::BN254_SCALAR_MULADD => self.bn254_scalar_muladd,
            SyscallCode::MEMCPY_32 => self.memcpy_32,
            SyscallCode::MEMCPY_64 => self.memcpy_64,
            SyscallCode::POSEIDON => self.poseidon,
        }
    }

    /// The height fixed for the chip of `code`, if the shape fixes one.
    pub fn log2_rows(&self, code: SyscallCode) -> (r: Option<usize>)
        ensures
            r == self.spec_log2_rows(code),
    {
        match code {
            SyscallCode::BN254_MULADD => self.bn254_muladd,
            SyscallCode::BN254_SCALAR_MAC => self.bn254_scalar_mac,
            SyscallCode::BN254_SCALAR_MULADD => self.bn254_scalar_muladd,
            SyscallCode::MEMCPY_32 => self.memcpy_32,
            SyscallCode::MEMCPY_64 => self.memcpy_64,
            SyscallCode::POSEIDON => self.poseidon,
        }
    }

    /// Whether the shape fixes a height for the chip of `code`.
    pub fn fixes_height(&self, code: SyscallCode) -> (r: bool)
        ensures
            r == (self.spec_log2_rows(code) is Some),
    {
        self.log2_rows(code).is_some()
    }
}

/// What one shard's execution left behind: the events of each precompile in the order in which
/// they happened, the ledger of byte lookups, and the shape that fixes trace heights.
#[derive(Debug)]
pub struct ExecutionRecord {
    pub bn254_muladd_events: Vec<Bn254MulAddEvent>,
    pub bn254_scalar_mac_events: Vec<Bn254FieldArithEvent>,
    pub bn254_scalar_muladd_events: Vec<Bn254FieldArithEvent>,
    pub memcpy32_events: Vec<MemCopyEvent>,
    pub memcpy64_events: Vec<MemCopyEvent>,
    pub poseidon_events: Vec<PoseidonEvent>,
    pub byte_lookups: Vec<ByteLookupEvent>,
    pub shape: Option<Shape>,
}

impl ExecutionRecord {
    /// The number of events that the syscall `code` left.
    pub open spec fn spec_num_events(self, code: SyscallCode) -> nat {
        match code {
            SyscallCode::BN254_MULADD => self.bn254_muladd_events@.len(),
            SyscallCode::BN254_SCALAR_MAC => self.bn254_scalar_mac_events@.len(),
            SyscallCode::BN254_SCALAR_MULADD => self.bn254_scalar_muladd_events@.len(),
            SyscallCode::MEMCPY_32 => self.memcpy32_events@.len(),
            SyscallCode::MEMCPY_64 => self.memcpy64_events@.len(),
            SyscallCode::POSEIDON => self.poseidon_events@.len(),
        }
    }

    /// The height that the shape fixes for the chip of `code`, if there is a shape and it
    /// fixes one.
    pub open spec fn spec_fixed_log2_rows(self, code: SyscallCode) -> Option<usize> {
        match self.shape {
            Some(shape) => shape.spec_log2_rows(code),
            None => None,
        }
    }

    /// Whether every event is one that its chip can restate.
    pub open spec fn wf(self) -> bool {
        &&& forall|i: int|
            0 <= i < self.bn254_muladd_events@.len() ==> (
            #[trigger] self.bn254_muladd_events@[i]).wf()
        &&& forall|i: int|
            0 <= i < self.bn254_scalar_mac_events@.len() ==> (
            #[trigger] self.bn254_scalar_mac_events@[i]).wf()
        &&& forall|i: int|
            0 <= i < self.bn254_scalar_muladd_events@.len() ==> (
            #[trigger] self.bn254_scalar_muladd_events@[i]).wf()
        &&& forall|i: int|
            0 <= i < self.memcpy32_events@.len() ==> (#[trigger] self.memcpy32_events@[i]).wf(8)
        &&& forall|i: int|
            0 <= i < self.memcpy64_events@.len() ==> (#[trigger] self.memcpy64_events@[i]).wf(16)
        &&& forall|i: int|
            0 <= i < self.poseidon_events@.len() ==> (#[trigger] self.poseidon_events@[i]).wf()
    }

    /// Whether two records hold the same events and the same shape.
    pub open spec fn same_events(self, other: ExecutionRecord) -> bool {
        &&& self.bn254_muladd_events == other.bn254_muladd_events
        &&& self.bn254_scalar_mac_events == other.bn254_scalar_mac_events
        &&& self.bn254_scalar_muladd_events == other.bn254_scalar_muladd_events
        &&& self.memcpy32_events == other.memcpy32_events
        &&& self.memcpy64_events == other.memcpy64_events
        &&& self.poseidon_events == other.poseidon_events
        &&& self.shape == other.shape
    }

    /// Whether `self` is `before` with `event` appended to the events of its kind, and
    /// nothing else changed.
    pub open spec fn added(self, before: ExecutionRecord, event: PrecompileEvent) -> bool {
        &&& self.byte_lookups == before.byte_lookups
        &&& self.shape == before.shape
        &&& self.bn254_muladd_events@ == (match event {
            PrecompileEvent::Bn254MulAdd(e) => before.bn254_muladd_events@.push(e),
            _ => before.bn254_muladd_events@,
        })
        &&& self.bn254_scalar_mac_events@ == (match event {
            PrecompileEvent::Bn254ScalarMac(e) => before.bn254_scalar_mac_events@.push(e),
            _ => before.bn254_scalar_mac_events@,
        })
        &&& self.bn254_scalar_muladd_events@ == (match event {
            PrecompileEvent::Bn254ScalarMulAdd(e) => before.bn254_scalar_muladd_events@.push(e),
            _ => before.bn254_scalar_muladd_events@,
        })
        &&& self.memcpy32_events@ == (match event {
            PrecompileEvent::MemCopy32(e) => before.memcpy32_events@.push(e),
            _ => before.memcpy32_events@,
        })
        &&& self.memcpy64_events@ == (match event {
            PrecompileEvent::MemCopy64(e) => before.memcpy64_events@.push(e),
            _ => before.memcpy64_events@,
        })
        &&& self.poseidon_events@ == (match event {
            PrecompileEvent::Poseidon(e) => before.poseidon_events@.push(e),
            _ => before.poseidon_events@,
        })
    }

    /// Whether the chip that serves `code` can build a row from each of its events.
    pub open spec fn restatable(self, code: SyscallCode) -> bool {
        match code {
            SyscallCode::BN254_MULADD => forall|i: int|
                0 <= i < self.bn254_muladd_events@.len() ==> (
                #[trigger] self.bn254_muladd_events@[i]).restatable(),
            SyscallCode::BN254_SCALAR_MAC => forall|i: int|
                0 <= i < self.bn254_scalar_mac_events@.len() ==> (
                #[trigger] self.bn254_scalar_mac_events@[i]).restatable(),
            SyscallCode::BN254_SCALAR_MULADD => forall|i: int|
                0 <= i < self.bn254_scalar_muladd_events@.len() ==> (
                #[trigger] self.bn254_scalar_muladd_events@[i]).restatable(),
            SyscallCode::MEMCPY_32 => forall|i: int|
                0 <= i < self.memcpy32_events@.len() ==> (
                #[trigger] self.memcpy32_events@[i]).restatable(8),
            SyscallCode::MEMCPY_64 => forall|i: int|
                0 <= i < self.memcpy64_events@.len() ==> (
                #[trigger] self.memcpy64_events@[i]).restatable(16),
            SyscallCode::POSEIDON => true,
        }
    }

    /// A record without events, lookups or shape.
    pub fn new() -> (r: ExecutionRecord)
        ensures
            r.wf(),
            r.bn254_muladd_events@.len() == 0,
            r.bn254_scalar_mac_events@.len() == 0,
            r.bn254_scalar_muladd_events@.len() == 0,
            r.memcpy32_events@.len() == 0,
            r.memcpy64_events@.len() == 0,
            r.poseidon_events@.len() == 0,
            r.byte_lookups@.len() == 0,
            r.shape is None,
    {
        ExecutionRecord {
            bn254_muladd_events: Vec::new(),
            bn254_scalar_mac_events: Vec::new(),
            bn254_scalar_muladd_events: Vec::new(),
            memcpy32_events: Vec::new(),
            memcpy64_events: Vec::new(),
            poseidon_events: Vec::new(),
            byte_lookups: Vec::new(),
            shape: None,
        }
    }

    /// The number of events that the syscall `code` left.
    pub fn num_events(&self, code: SyscallCode) -> (n: usize)
        ensures
            n == self.spec_num_events(code),
    {
        match code {
            SyscallCode::BN254_MULADD => self.bn254_muladd_events.len(),
            SyscallCode::BN254_SCALAR_MAC => self.bn254_scalar_mac_events.len(),
            SyscallCode::BN254_SCALAR_MULADD => self.bn254_scalar_muladd_events.len(),
            SyscallCode::MEMCPY_32 => self.memcpy32_events.len(),
            SyscallCode::MEMCPY_64 => self.memcpy64_events.len(),
            SyscallCode::POSEIDON => self.poseidon_events.len(),
        }
    }

    /// The height that the shape fixes for the chip of `code`.
    pub fn fixed_log2_rows(&self, code: SyscallCode) -> (r: Option<usize>)
        ensures
            r == self.spec_fixed_log2_rows(code),
    {
        match &self.shape {
            Some(shape) => shape.log2_rows(code),
            None => None,
        }
    }

    /// Appends an event to the events of its kind.
    pub fn add_precompile_event(&mut self, event: PrecompileEvent)
        ensures
            final(self).added(*old(self), event),
    {
        match event {
            PrecompileEvent::Bn254MulAdd(e) => {
                self.bn254_muladd_events.push(e);
            },
            PrecompileEvent::Bn254ScalarMac(e) => {
                self.bn254_scalar_mac_events.push(e);
            },
            PrecompileEvent::Bn254ScalarMulAdd(e) => {
                self.bn254_scalar_muladd_events.push(e);
            },
            PrecompileEvent::MemCopy32(e) => {
                self.memcpy32_events.push(e);
            },
            PrecompileEvent::MemCopy64(e) => {
                self.memcpy64_events.push(e);
            },
            PrecompileEvent::Poseidon(e) => {
                self.poseidon_events.push(e);
            },
        }
    }

    /// Moves the events and the lookups of `other` to the end of this record's, kind by kind
    /// and in their order, and leaves `other` without any.
    pub fn append(&mut self, other: &mut ExecutionRecord)
        ensures
            final(self).bn254_muladd_events@ == old(self).bn254_muladd_events@ + old(
                other,
            ).bn254_muladd_events@,
            final(self).bn254_scalar_mac_events@ == old(self).bn254_scalar_mac_events@ + old(
                other,
            ).bn254_scalar_mac_events@,
            final(self).bn254_scalar_muladd_events@ == old(self).bn254_scalar_muladd_events@ + old(
                other,
            ).bn254_scalar_muladd_events@,
            final(self).memcpy32_events@ == old(self).memcpy32_events@ + old(
                other,
            ).memcpy32_events@,
            final(self).memcpy64_events@ == old(self).memcpy64_events@ + old(
                other,
            ).memcpy64_events@,
            final(self).poseidon_events@ == old(self).poseidon_events@ + old(
                other,
            ).poseidon_events@,
            final(self).byte_lookups@ == old(self).byte_lookups@ + old(other).byte_lookups@,
            final(self).shape == old(self).shape,
            final(other).bn254_muladd_events@.len() == 0,
            final(other).bn254_scalar_mac_events@.len() == 0,
            final(other).bn254_scalar_muladd_events@.len() == 0,
            final(other).memcpy32_events@.len() == 0,
            final(other).memcpy64_events@.len() == 0,
            final(other).poseidon_events@.len() == 0,
            final(other).byte_lookups@.len() == 0,
            final(other).shape == old(other).shape,
    {
        self.bn254_muladd_events.append(&mut other.bn254_muladd_events);
        self.bn254_scalar_mac_events.append(&mut other.bn254_scalar_mac_events);
        self.bn254_scalar_muladd_events.append(&mut other.bn254_scalar_muladd_events);
        self.memcpy32_events.append(&mut other.memcpy32_events);
        self.memcpy64_events.append(&mut other.memcpy64_events);
        self.poseidon_events.append(&mut other.poseidon_events);
        self.byte_lookups.append(&mut other.byte_lookups);
    }

    /// Appends lookups to the ledger, in their order.
    pub fn add_byte_lookup_events(&mut self, events: Vec<ByteLookupEvent>)
        ensures
            final(self).byte_lookups@ == old(self).byte_lookups@ + events@,
            final(self).same_events(*old(self)),
    {
        let mut events = events;
        self.byte_lookups.append(&mut events);
    }
}

/// The value limbs of columns that restate a run of reads are the bytes of the words read.
pub proof fn lemma_read_limbs(cols: Seq<MemoryReadCols>, records: Seq<MemoryReadRecord>)
    requires
        cols.len() == records.len(),
        forall|i: int| 0 <= i < cols.len() ==> (#[trigger] cols[i]).restates(records[i]),
    ensures
        read_limbs(cols) == felts_of_bytes(bytes_of_words(read_values(records))),
{
    let l = read_limbs(cols);
    let r = felts_of_bytes(bytes_of_words(read_values(records)));
    assert(l.len() == r.len());
    assert forall|k: int| 0 <= k < l.len() implies l[k] == r[k] by {
        assert(cols[k / 4].restates(records[k / 4]));
        assert(cols[k / 4].access.value.bytes@[k % 4] == crate::memory::word_limbs(
            records[k / 4].value,
        )[k % 4]);
    }
    assert(l =~= r);
}

/// The limbs of columns that restate a run of writes are the bytes of the words written, and
/// of the words found.
pub proof fn lemma_write_limbs(cols: Seq<MemoryWriteCols>, records: Seq<MemoryWriteRecord>)
    requires
        cols.len() == records.len(),
        forall|i: int| 0 <= i < cols.len() ==> (#[trigger] cols[i]).restates(records[i]),
    ensures
        write_limbs(cols) == felts_of_bytes(bytes_of_words(written_values(records))),
        prev_write_limbs(cols) == felts_of_bytes(bytes_of_words(overwritten_values(records))),
{
    let l = write_limbs(cols);
    let r = felts_of_bytes(bytes_of_words(written_values(records)));
    assert(l.len() == r.len());
    assert forall|k: int| 0 <= k < l.len() implies l[k] == r[k] by {
        assert(cols[k / 4].restates(records[k / 4]));
        assert(cols[k / 4].access.value.bytes@[k % 4] == crate::memory::word_limbs(
            records[k / 4].value,
        )[k % 4]);
    }
    assert(l =~= r);
    let lp = prev_write_limbs(cols);
    let rp = felts_of_bytes(bytes_of_words(overwritten_values(records)));
    assert(lp.len() == rp.len());
    assert forall|k: int| 0 <= k < lp.len() implies lp[k] == rp[k] by {
        assert(cols[k / 4].restates(records[k / 4]));
        assert(cols[k / 4].prev_value.bytes@[k % 4] == crate::memory::word_limbs(
            records[k / 4].prev_value,
        )[k % 4]);
    }
    assert(lp =~= rp);
}

/// Whether `words` are the eight words of an integer below the BN254 scalar field's order.
pub fn is_scalar_words(words: &[u32]) -> (r: bool)
    ensures
        r == is_scalar(words@),
{
    if words.len() != NUM_WORDS {
        return false;
    }
    let bytes: Vec<u8> = words_to_bytes_le(words);
    let p: Vec<u8> = crate::field_op::bn254_scalar_modulus_limbs();
    crate::limbs::limbs_lt(bytes.as_slice(), p.as_slice())
}

/// Whether every read of a run comes after the access before it.
pub fn reads_are_wf(records: &[MemoryReadRecord]) -> (r: bool)
    ensures
        r == reads_wf(records@),
{
    let mut i: usize = 0;
    while i < records.len()
        invariant
            i <= records@.len(),
            forall|k: int| 0 <= k < i ==> (#[trigger] records@[k]).wf(),
        decreases records@.len() - i,
    {
        if !records[i].is_wf() {
            return false;
        }
        i = i + 1;
    }
    true
}

/// Whether every write of a run comes after the access before it.
pub fn writes_are_wf(records: &[MemoryWriteRecord]) -> (r: bool)
    ensures
        r == writes_wf(records@),
{
    let mut i: usize = 0;
    while i < records.len()
        invariant
            i <= records@.len(),
            forall|k: int| 0 <= k < i ==> (#[trigger] records@[k]).wf(),
        decreases records@.len() - i,
    {
        if !records[i].is_wf() {
            return false;
        }
        i = i + 1;
    }
    true
}

/// The values that a run of reads found.
pub fn values_read(records: &[MemoryReadRecord]) -> (values: Vec<u32>)
    ensures
        values@ == read_values(records@),
{
    let mut values: Vec<u32> = Vec::new();
    let mut i: usize = 0;
    while i < records.len()
        invariant
            i <= records@.len(),
            values@.len() == i,
            forall|k: int| 0 <= k < i ==> values@[k] == records@[k].value,
        decreases records@.len() - i,
    {
        values.push(records[i].value);
        i = i + 1;
    }
    assert(values@ =~= read_values(records@));
    values
}

/// The values that a run of writes left.
pub fn values_written(records: &[MemoryWriteRecord]) -> (values: Vec<u32>)
    ensures
        values@ == written_values(records@),
{
    let mut values: Vec<u32> = Vec::new();
    let mut i: usize = 0;
    while i < records.len()
        invariant
            i <= records@.len(),
            values@.len() == i,
            forall|k: int| 0 <= k < i ==> values@[k] == records@[k].value,
        decreases records@.len() - i,
    {
        values.push(records[i].value);
        i = i + 1;
    }
    assert(values@ =~= written_values(records@));
    values
}

/// The values that a run of writes found.
pub fn values_overwritten(records: &[MemoryWriteRecord]) -> (values: Vec<u32>)
    ensures
        values@ == overwritten_values(records@),
{
    let mut values: Vec<u32> = Vec::new();
    let mut i: usize = 0;
    while i < records.len()
        invariant
            i <= records@.len(),
            values@.len() == i,
            forall|k: int| 0 <= k < i ==> values@[k] == records@[k].prev_value,
        decreases records@.len() - i,
    {
        values.push(records[i].prev_value);
        i = i + 1;
    }
    assert(values@ =~= overwritten_values(records@));
    values
}

/// Whether two runs of words are the same.
pub fn words_eq(a: &[u32], b: &[u32]) -> (r: bool)
    ensures
        r == (a@ == b@),
{
    if a.len() != b.len() {
        return false;
    }
    let mut i: usize = 0;
    while i < a.len()
        invariant
            i <= a@.len(),
            a@.len() == b@.len(),
            forall|k: int| 0 <= k < i ==> a@[k] == b@[k],
        decreases a@.len() - i,
    {
        if a[i] != b[i] {
            return false;
        }
        i = i + 1;
    }
    assert(a@ =~= b@);
    true
}

/// Whether `written` are the eight words of `x + a * b` modulo the order.
fn is_mul_add_of(written: &[u32], x: &[u32], a: &[u32], b: &[u32]) -> (r: bool)
    requires
        written@.len() == 8,
        x@.len() == 8,
        a@.len() == 8,
        b@.len() == 8,
    ensures
        r == (le_value(bytes_of_words(written@)) == (le_value(bytes_of_words(x@)) + le_value(
            bytes_of_words(a@),
        ) * le_value(bytes_of_words(b@))) % bn254_scalar_modulus()),
{
    let expected: Vec<u32> = crate::mac_core::mul_add_words(x, a, b);
    proof {
        if le_value(bytes_of_words(written@)) == le_value(bytes_of_words(expected@)) {
            crate::limbs::lemma_le_value_injective(
                bytes_of_words(written@),
                bytes_of_words(expected@),
            );
            crate::limbs::lemma_bytes_of_words_injective(written@, expected@);
        }
    }
    words_eq(written, expected.as_slice())
}

impl Bn254MulAddEvent {
    /// Whether the chip can build a row from the event.
    pub fn is_restatable(&self) -> (r: bool)
        ensures
            r == self.restatable(),
    {
        is_scalar_words(self.x.as_slice()) && is_scalar_words(self.a.as_slice())
            && is_scalar_words(self.b.as_slice()) && self.x_memory_records.len() == NUM_WORDS
            && self.a_memory_records.len() == NUM_WORDS && self.b_memory_records.len()
            == NUM_WORDS && writes_are_wf(self.x_memory_records.as_slice()) && reads_are_wf(
            self.a_memory_records.as_slice(),
        ) && reads_are_wf(self.b_memory_records.as_slice())
    }

    /// Whether the event is one that the chip can restate.
    pub fn is_wf(&self) -> (r: bool)
        ensures
            r == self.wf(),
    {
        if !is_scalar_words(self.x.as_slice()) || !is_scalar_words(self.a.as_slice())
            || !is_scalar_words(self.b.as_slice()) {
            return false;
        }
        if self.x_memory_records.len() != NUM_WORDS || self.a_memory_records.len() != NUM_WORDS
            || self.b_memory_records.len() != NUM_WORDS {
            return false;
        }
        if !writes_are_wf(self.x_memory_records.as_slice()) || !reads_are_wf(
            self.a_memory_records.as_slice(),
        ) || !reads_are_wf(self.b_memory_records.as_slice()) {
            return false;
        }
        let found: Vec<u32> = values_overwritten(self.x_memory_records.as_slice());
        let a: Vec<u32> = values_read(self.a_memory_records.as_slice());
        let b: Vec<u32> = values_read(self.b_memory_records.as_slice());
        if !words_eq(found.as_slice(), self.x.as_slice()) || !words_eq(
            a.as_slice(),
            self.a.as_slice(),
        ) || !words_eq(b.as_slice(), self.b.as_slice()) {
            return false;
        }
        let written: Vec<u32> = values_written(self.x_memory_records.as_slice());
        is_mul_add_of(written.as_slice(), self.x.as_slice(), self.a.as_slice(), self.b.as_slice())
    }
}

impl Bn254FieldArithEvent {
    /// Whether the scalar chips can build a row from the event.
    pub fn is_restatable(&self) -> (r: bool)
        ensures
            r == self.restatable(),
    {
        if self.a.is_none() || self.b.is_none() {
            return false;
        }
        let a_access = self.a.as_ref().unwrap();
        let b_access = self.b.as_ref().unwrap();
        if self.arg1.memory_records.len() != NUM_WORDS || a_access.memory_records.len()
            != NUM_WORDS || b_access.memory_records.len() != NUM_WORDS
            || self.arg2.memory_records.len() != 2 {
            return false;
        }
        if !writes_are_wf(self.arg1.memory_records.as_slice()) || !reads_are_wf(
            self.arg2.memory_records.as_slice(),
        ) || !reads_are_wf(a_access.memory_records.as_slice()) || !reads_are_wf(
            b_access.memory_records.as_slice(),
        ) {
            return false;
        }
        let x: Vec<u32> = values_overwritten(self.arg1.memory_records.as_slice());
        let a: Vec<u32> = values_read(a_access.memory_records.as_slice());
        let b: Vec<u32> = values_read(b_access.memory_records.as_slice());
        is_scalar_words(x.as_slice()) && is_scalar_words(a.as_slice()) && is_scalar_words(
            b.as_slice(),
        )
    }

    /// Whether the event is one that the scalar chips can restate.
    pub fn is_wf(&self) -> (r: bool)
        ensures
            r == self.wf(),
    {
        if self.a.is_none() || self.b.is_none() {
            return false;
        }
        let a_access = self.a.as_ref().unwrap();
        let b_access = self.b.as_ref().unwrap();
        if self.arg1.memory_records.len() != NUM_WORDS || a_access.memory_records.len()
            != NUM_WORDS || b_access.memory_records.len() != NUM_WORDS
            || self.arg2.memory_records.len() != 2 {
            return false;
        }
        if !writes_are_wf(self.arg1.memory_records.as_slice()) || !reads_are_wf(
            self.arg2.memory_records.as_slice(),
        ) || !reads_are_wf(a_access.memory_records.as_slice()) || !reads_are_wf(
            b_access.memory_records.as_slice(),
        ) {
            return false;
        }
        let x: Vec<u32> = values_overwritten(self.arg1.memory_records.as_slice());
        let a: Vec<u32> = values_read(a_access.memory_records.as_slice());
        let b: Vec<u32> = values_read(b_access.memory_records.as_slice());
        let written: Vec<u32> = values_written(self.arg1.memory_records.as_slice());
        if !is_mul_add_of(written.as_slice(), x.as_slice(), a.as_slice(), b.as_slice()) {
            return false;
        }
        is_scalar_words(x.as_slice()) && is_scalar_words(a.as_slice()) && is_scalar_words(
            b.as_slice(),
        )
    }
}

impl MemCopyEvent {
    /// Whether the chip can build a row from the event, a copy of `num_words` words.
    pub fn is_restatable(&self, num_words: usize) -> (r: bool)
        ensures
            r == self.restatable(num_words as nat),
    {
        self.read_records.len() == num_words && self.write_records.len() == num_words
            && reads_are_wf(self.read_records.as_slice()) && writes_are_wf(
            self.write_records.as_slice(),
        )
    }

    /// Whether the event is a copy of `num_words` words that the chip can restate.
    pub fn is_wf(&self, num_words: usize) -> (r: bool)
        ensures
            r == self.wf(num_words as nat),
    {
        if self.read_records.len() != num_words || self.write_records.len() != num_words {
            return false;
        }
        if !reads_are_wf(self.read_records.as_slice()) || !writes_are_wf(
            self.write_records.as_slice(),
        ) {
            return false;
        }
        let read: Vec<u32> = values_read(self.read_records.as_slice());
        let written: Vec<u32> = values_written(self.write_records.as_slice());
        words_eq(read.as_slice(), written.as_slice())
    }
}

impl PoseidonEvent {
    /// Whether the event is one that the chip can restate.
    pub fn is_wf(&self) -> (r: bool)
        ensures
            r == self.wf(),
    {
        self.input_ptr % 4 == 0 && self.output_ptr % 4 == 0 && self.input_ptr
            < crate::field::MODULUS && self.output_ptr < crate::field::MODULUS
    }
}

impl ExecutionRecord {
    /// Whether the chip that serves `code` can build a row from each of its events.
    pub fn is_restatable(&self, code: SyscallCode) -> (r: bool)
        ensures
            r == self.restatable(code),
    {
        match code {
            SyscallCode::BN254_MULADD => {
                let mut i: usize = 0;
                while i < self.bn254_muladd_events.len()
                    invariant
                        code == SyscallCode::BN254_MULADD,
                        i <= self.bn254_muladd_events@.len(),
                        forall|k: int|
                            0 <= k < i ==> (#[trigger] self.bn254_muladd_events@[k]).restatable(),
                    decreases self.bn254_muladd_events@.len() - i,
                {
                    if !self.bn254_muladd_events[i].is_restatable() {
                        return false;
                    }
                    i = i + 1;
                }
                true
            },
            SyscallCode::BN254_SCALAR_MAC => {
                let mut i: usize = 0;
                while i < self.bn254_scalar_mac_events.len()
                    invariant
                        code == SyscallCode::BN254_SCALAR_MAC,
                        i <= self.bn254_scalar_mac_events@.len(),
                        forall|k: int|
                            0 <= k < i ==> (
                            #[trigger] self.bn254_scalar_mac_events@[k]).restatable(),
                    decreases self.bn254_scalar_mac_events@.len() - i,
                {
                    if !self.bn254_scalar_mac_events[i].is_restatable() {
                        return false;
                    }
                    i = i + 1;
                }
                true
            },
            SyscallCode::BN254_SCALAR_MULADD => {
                let mut i: usize = 0;
                while i < self.bn254_scalar_muladd_events.len()
                    invariant
                        code == SyscallCode::BN254_SCALAR_MULADD,
                        i <= self.bn254_scalar_muladd_events@.len(),
                        forall|k: int|
                            0 <= k < i ==> (
                            #[trigger] self.bn254_scalar_muladd_events@[k]).restatable(),
                    decreases self.bn254_scalar_muladd_events@.len() - i,
                {
                    if !self.bn254_scalar_muladd_events[i].is_restatable() {
                        return false;
                    }
                    i = i + 1;
                }
                true
            },
            SyscallCode::MEMCPY_32 => {
                let mut i: usize = 0;
                while i < self.memcpy32_events.len()
                    invariant
                        code == SyscallCode::MEMCPY_32,
                        i <= self.memcpy32_events@.len(),
                        forall|k: int|
                            0 <= k < i ==> (#[trigger] self.memcpy32_events@[k]).restatable(8),
                    decreases self.memcpy32_events@.len() - i,
                {
                    if !self.memcpy32_events[i].is_restatable(8) {
                        return false;
                    }
                    i = i + 1;
                }
                true
            },
            SyscallCode::MEMCPY_64 => {
                let mut i: usize = 0;
                while i < self.memcpy64_events.len()
                    invariant
                        code == SyscallCode::MEMCPY_64,
                        i <= self.memcpy64_events@.len(),
                        forall|k: int|
                            0 <= k < i ==> (#[trigger] self.memcpy64_events@[k]).restatable(16),
                    decreases self.memcpy64_events@.len() - i,
                {
                    if !self.memcpy64_events[i].is_restatable(16) {
                        return false;
                    }
                    i = i + 1;
                }
                true
            },
            SyscallCode::POSEIDON => true,
        }
    }

    /// Whether every event is one that its chip can restate.
    pub fn is_wf(&self) -> (r: bool)
        ensures
            r == self.wf(),
    {
        let mut i: usize = 0;
        while i < self.bn254_muladd_events.len()
            invariant
                i <= self.bn254_muladd_events@.len(),
                forall|k: int| 0 <= k < i ==> (#[trigger] self.bn254_muladd_events@[k]).wf(),
            decreases self.bn254_muladd_events@.len() - i,
        {
            if !self.bn254_muladd_events[i].is_wf() {
                return false;
            }
            i = i + 1;
        }
        let mut i: usize = 0;
        while i < self.bn254_scalar_mac_events.len()
            invariant
                i <= self.bn254_scalar_mac_events@.len(),
                forall|k: int| 0 <= k < i ==> (#[trigger] self.bn254_scalar_mac_events@[k]).wf(),
            decreases self.bn254_scalar_mac_events@.len() - i,
        {
            if !self.bn254_scalar_mac_events[i].is_wf() {
                return false;
            }
            i = i + 1;
        }
        let mut i: usize = 0;
        while i < self.bn254_scalar_muladd_events.len()
            invariant
                i <= self.bn254_scalar_muladd_events@.len(),
                forall|k: int| 0 <= k < i ==> (#[trigger] self.bn254_scalar_muladd_events@[k]).wf(),
            decreases self.bn254_scalar_muladd_events@.len() - i,
        {
            if !self.bn254_scalar_muladd_events[i].is_wf() {
                return false;
            }
            i = i + 1;
        }
        let mut i: usize = 0;
        while i < self.memcpy32_events.len()
            invariant
                i <= self.memcpy32_events@.len(),
                forall|k: int| 0 <= k < i ==> (#[trigger] self.memcpy32_events@[k]).wf(8),
            decreases self.memcpy32_events@.len() - i,
        {
            if !self.memcpy32_events[i].is_wf(8) {
                return false;
            }
            i = i + 1;
        }
        let mut i: usize = 0;
        while i < self.memcpy64_events.len()
            invariant
                i <= self.memcpy64_events@.len(),
                forall|k: int| 0 <= k < i ==> (#[trigger] self.memcpy64_events@[k]).wf(16),
            decreases self.memcpy64_events@.len() - i,
        {
            if !self.memcpy64_events[i].is_wf(16) {
                return false;
            }
            i = i + 1;
        }
        let mut i: usize = 0;
        while i < self.poseidon_events.len()
            invariant
                i <= self.poseidon_events@.len(),
                forall|k: int| 0 <= k < i ==> (#[trigger] self.poseidon_events@[k]).wf(),
            decreases self.poseidon_events@.len() - i,
        {
            if !self.poseidon_events[i].is_wf() {
                return false;
            }
            i = i + 1;
        }
        true
    }
}

} // verus!
