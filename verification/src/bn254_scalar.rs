//! The chips of the two scalar syscalls whose operands lie behind pointers: the accumulator at
//! the first argument is replaced by `x + a * b` modulo the BN254 scalar field's order, where
//! the second argument points at two pointers, to `a` and to `b`.
//!
//! The multiply-accumulate chip and the multiply-add chip serve different syscalls with the
//! same rows and the same constraints.
use crate::air::{eq_felt, is_bool, ConstraintBuilder, Interaction};
use crate::events::{Bn254FieldArithEvent, ExecutionRecord, SyscallCode};
use crate::field::{fadd, felt_of, fone, fzero, Felt};
use crate::field_op::{lemma_bn254_scalar_modulus, FieldOpCols, NUM_LIMBS};
use crate::limbs::{bytes_of_words, le_value, NUM_WORDS};
use crate::lookup::ByteLookupEvent;
use crate::mac_core::{
    eval_mul_add, is_mul_add_witness, mul_add_constraints, mul_add_interactions, mul_add_limbs,
    populate_mul_add,
};
use crate::memory::{
    access_events, access_flat, limbs_from_access, limbs_from_prev_access, limbs_from_read_access,
    prev_write_limbs, push_access, push_reads, push_writes, read_interactions, read_limbs,
    reads_flat, word_felt, write_interactions, write_limbs, writes_flat, MemoryReadCols,
    MemoryReadRecord, MemoryWriteCols,
};
use crate::trace::{
    height_fits, is_padded_height, next_power_of_two, trace_fits, ConstraintViolation, TraceMatrix,
};
use vstd::prelude::*;

verus! {

/// The number of columns of either chip's trace.
pub const NUM_COLS: usize = 649;

/// The number of words of a scalar.
pub const NUM_WORDS_PER_FE: usize = 8;

/// The chip of the scalar multiply-accumulate syscall.
#[derive(Clone, Copy, Debug)]
pub struct Bn254ScalarMacChip;

/// The chip of the scalar multiply-add syscall.
#[derive(Clone, Copy, Debug)]
pub struct Bn254ScalarMulAddChip;

/// One row of the trace of either chip.
#[derive(Debug)]
pub struct Bn254ScalarMulAddCols {
    /// Whether the row restates an event; padding rows hold zero.
    pub is_real: Felt,
    /// The shard number of the syscall.
    pub shard: Felt,
    /// Unused; zero.
    pub channel: Felt,
    /// The clock cycle of the syscall.
    pub clk: Felt,
    /// The number of the row.
    pub nonce: Felt,
    /// The pointer to the accumulator.
    pub x_ptr: Felt,
    /// The pointer to the two pointers.
    pub y_ptr: Felt,
    /// The writes of the result over the accumulator.
    pub x_memory: Vec<MemoryWriteCols>,
    /// The read of the pointer to a.
    pub a_ptr_memory: MemoryReadCols,
    /// The read of the pointer to b.
    pub b_ptr_memory: MemoryReadCols,
    /// The reads of the a value.
    pub a_memory: Vec<MemoryReadCols>,
    /// The reads of the b value.
    pub b_memory: Vec<MemoryReadCols>,
    /// The witness of `a * b`.
    pub a_mul_b: FieldOpCols,
    /// The witness of `x + (a * b)`.
    pub add_eval: FieldOpCols,
}

/// One row of the multiply-accumulate chip's trace.
pub type Bn254ScalarMacCols = Bn254ScalarMulAddCols;

/// The range-check requests of one read.
pub open spec fn read_events(r: MemoryReadRecord) -> Seq<ByteLookupEvent> {
    access_events(r.shard, r.timestamp, r.prev_shard, r.prev_timestamp)
}

/// The range-check requests of the memory columns of the first `n` words of an event: for
/// each word those of the accumulator, of a and of b, in this order.
pub open spec fn memory_events(event: Bn254FieldArithEvent, n: nat) -> Seq<ByteLookupEvent>
    decreases n,
{
    if n == 0 {
        Seq::empty()
    } else {
        let i = (n - 1) as int;
        let x = event.arg1.memory_records@[i];
        memory_events(event, (n - 1) as nat) + access_events(
            x.shard,
            x.timestamp,
            x.prev_shard,
            x.prev_timestamp,
        ) + read_events(event.a->0.memory_records@[i]) + read_events(
            event.b->0.memory_records@[i],
        )
    }
}

impl Bn254ScalarMulAddCols {
    /// Whether each group of columns has its width.
    pub open spec fn wf(self) -> bool {
        &&& self.x_memory@.len() == NUM_WORDS
        &&& self.a_memory@.len() == NUM_WORDS
        &&& self.b_memory@.len() == NUM_WORDS
        &&& self.a_mul_b.wf()
        &&& self.add_eval.wf()
    }

    /// The cells of the row, in column order.
    pub open spec fn flat(self) -> Seq<Felt> {
        seq![
            self.is_real,
            self.shard,
            self.channel,
            self.clk,
            self.nonce,
            self.x_ptr,
            self.y_ptr,
        ] + writes_flat(self.x_memory@) + access_flat(self.a_ptr_memory.access) + access_flat(
            self.b_ptr_memory.access,
        ) + reads_flat(self.a_memory@) + reads_flat(self.b_memory@) + self.a_mul_b.flat()
            + self.add_eval.flat()
    }

    /// Whether the row restates `event` as row number `nonce`.
    pub open spec fn restates(self, event: Bn254FieldArithEvent, nonce: nat) -> bool {
        &&& self.wf()
        &&& self.is_real == fone()
        &&& self.shard == felt_of(event.shard as int)
        &&& self.channel == fzero()
        &&& self.clk == felt_of(event.clk as int)
        &&& self.nonce == felt_of(nonce as int)
        &&& self.x_ptr == felt_of(event.arg1.ptr as int)
        &&& self.y_ptr == felt_of(event.arg2.ptr as int)
        &&& self.a_ptr_memory.restates(event.arg2.memory_records@[0])
        &&& self.b_ptr_memory.restates(event.arg2.memory_records@[1])
        &&& forall|i: int|
            0 <= i < NUM_WORDS ==> (#[trigger] self.x_memory@[i]).restates(
                event.arg1.memory_records@[i],
            )
        &&& forall|i: int|
            0 <= i < NUM_WORDS ==> (#[trigger] self.a_memory@[i]).restates(
                event.a->0.memory_records@[i],
            )
        &&& forall|i: int|
            0 <= i < NUM_WORDS ==> (#[trigger] self.b_memory@[i]).restates(
                event.b->0.memory_records@[i],
            )
        &&& is_mul_add_witness(
            self.a_mul_b,
            self.add_eval,
            bytes_of_words(event.arg1.prev_words()),
            bytes_of_words(event.a->0.words()),
            bytes_of_words(event.b->0.words()),
        )
    }

    /// Whether the row is the padding row of number `nonce`: not real, its memory columns
    /// zero, and its arithmetic columns the witnesses of `0 + 0 * 0`.
    pub open spec fn is_padding(self, nonce: nat) -> bool {
        let zero = Seq::new(NUM_LIMBS as nat, |i: int| 0u8);
        &&& self.wf()
        &&& self.is_real == fzero()
        &&& self.shard == fzero()
        &&& self.channel == fzero()
        &&& self.clk == fzero()
        &&& self.nonce == felt_of(nonce as int)
        &&& self.x_ptr == fzero()
        &&& self.y_ptr == fzero()
        &&& self.a_ptr_memory.is_zero()
        &&& self.b_ptr_memory.is_zero()
        &&& forall|i: int| 0 <= i < NUM_WORDS ==> (#[trigger] self.x_memory@[i]).is_zero()
        &&& forall|i: int| 0 <= i < NUM_WORDS ==> (#[trigger] self.a_memory@[i]).is_zero()
        &&& forall|i: int| 0 <= i < NUM_WORDS ==> (#[trigger] self.b_memory@[i]).is_zero()
        &&& is_mul_add_witness(self.a_mul_b, self.add_eval, zero, zero, zero)
    }

    /// The range-check requests that restating `event` in this row appends to the ledger:
    /// those of the two witnesses, of the two pointer reads, and of the other memory columns.
    pub open spec fn ledger_events(self, event: Bn254FieldArithEvent) -> Seq<ByteLookupEvent> {
        self.a_mul_b.range_events(event.shard) + self.add_eval.range_events(event.shard)
            + read_events(event.arg2.memory_records@[0]) + read_events(
            event.arg2.memory_records@[1],
        ) + memory_events(event, NUM_WORDS as nat)
    }

    /// The row that restates `event` as row number `nonce`; the range-check requests that
    /// arise are appended to `ledger`.
    pub fn from_event(
        event: &Bn254FieldArithEvent,
        nonce: usize,
        ledger: &mut Vec<ByteLookupEvent>,
    ) -> (cols: Bn254ScalarMulAddCols)
        requires
            event.restatable(),
        ensures
            cols.restates(*event, nonce as nat),
            final(ledger)@ == old(ledger)@ + cols.ledger_events(*event),
    {
        let a_access = event.a.as_ref().unwrap();
        let b_access = event.b.as_ref().unwrap();
        let x: Vec<u8> = event.arg1.prev_value_limbs();
        let a: Vec<u8> = a_access.value_limbs();
        let b: Vec<u8> = b_access.value_limbs();
        let mut a_mul_b: FieldOpCols = FieldOpCols::new();
        let mut add_eval: FieldOpCols = FieldOpCols::new();
        populate_mul_add(
            &mut a_mul_b,
            &mut add_eval,
            ledger,
            event.shard,
            x.as_slice(),
            a.as_slice(),
            b.as_slice(),
        );
        let mut a_ptr_memory: MemoryReadCols = MemoryReadCols::zero();
        let mut b_ptr_memory: MemoryReadCols = MemoryReadCols::zero();
        assert(event.arg2.memory_records@[0].wf());
        assert(event.arg2.memory_records@[1].wf());
        a_ptr_memory.populate(event.arg2.memory_records[0], ledger);
        b_ptr_memory.populate(event.arg2.memory_records[1], ledger);
        let ghost head = ledger@;
        let mut x_memory: Vec<MemoryWriteCols> = Vec::new();
        let mut a_memory: Vec<MemoryReadCols> = Vec::new();
        let mut b_memory: Vec<MemoryReadCols> = Vec::new();
        let mut i: usize = 0;
        assert(ledger@ =~= head + memory_events(*event, 0));
        while i < NUM_WORDS
            invariant
                i <= NUM_WORDS,
                event.restatable(),
                event.a == Some(*a_access),
                event.b == Some(*b_access),
                x_memory@.len() == i,
                a_memory@.len() == i,
                b_memory@.len() == i,
                forall|j: int|
                    0 <= j < i ==> (#[trigger] x_memory@[j]).restates(
                        event.arg1.memory_records@[j],
                    ),
                forall|j: int|
                    0 <= j < i ==> (#[trigger] a_memory@[j]).restates(
                        event.a->0.memory_records@[j],
                    ),
                forall|j: int|
                    0 <= j < i ==> (#[trigger] b_memory@[j]).restates(
                        event.b->0.memory_records@[j],
                    ),
                ledger@ == head + memory_events(*event, i as nat),
            decreases NUM_WORDS - i,
        {
            let mut xc: MemoryWriteCols = MemoryWriteCols::zero();
            let mut ac: MemoryReadCols = MemoryReadCols::zero();
            let mut bc: MemoryReadCols = MemoryReadCols::zero();
            assert(event.arg1.memory_records@[i as int].wf());
            assert(event.a->0.memory_records@[i as int].wf());
            assert(event.b->0.memory_records@[i as int].wf());
            xc.populate(event.arg1.memory_records[i], ledger);
            ac.populate(a_access.memory_records[i], ledger);
            bc.populate(b_access.memory_records[i], ledger);
            x_memory.push(xc);
            a_memory.push(ac);
            b_memory.push(bc);
            assert(ledger@ =~= head + memory_events(*event, (i + 1) as nat));
            i = i + 1;
        }
        let cols = Bn254ScalarMulAddCols {
            is_real: Felt::one(),
            shard: Felt::from_canonical_u32(event.shard),
            channel: Felt::zero(),
            clk: Felt::from_canonical_u32(event.clk),
            nonce: Felt::from_canonical_usize(nonce),
            x_ptr: Felt::from_canonical_u32(event.arg1.ptr),
            y_ptr: Felt::from_canonical_u32(event.arg2.ptr),
            x_memory,
            a_ptr_memory,
            b_ptr_memory,
            a_memory,
            b_memory,
            a_mul_b,
            add_eval,
        };
        assert(ledger@ =~= old(ledger)@ + cols.ledger_events(*event));
        cols
    }

    /// The padding row of number `nonce`.
    pub fn padding(nonce: usize) -> (cols: Bn254ScalarMulAddCols)
        ensures
            cols.is_padding(nonce as nat),
    {
        let zero: Vec<u8> = crate::limbs::resize_limbs(Vec::<u8>::new().as_slice(), NUM_LIMBS);
        proof {
            lemma_bn254_scalar_modulus();
            assert(le_value(Seq::<u8>::empty()) == 0);
            crate::limbs::lemma_pow256_positive(NUM_LIMBS as nat);
            let z = Seq::new(NUM_LIMBS as nat, |i: int| 0u8);
            crate::limbs::lemma_le_value_zeros(z);
            crate::limbs::lemma_le_value_injective(zero@, z);
        }
        let mut x_memory: Vec<MemoryWriteCols> = Vec::new();
        let mut a_memory: Vec<MemoryReadCols> = Vec::new();
        let mut b_memory: Vec<MemoryReadCols> = Vec::new();
        let mut i: usize = 0;
        while i < NUM_WORDS
            invariant
                i <= NUM_WORDS,
                x_memory@.len() == i,
                a_memory@.len() == i,
                b_memory@.len() == i,
                forall|j: int| 0 <= j < i ==> (#[trigger] x_memory@[j]).is_zero(),
                forall|j: int| 0 <= j < i ==> (#[trigger] a_memory@[j]).is_zero(),
                forall|j: int| 0 <= j < i ==> (#[trigger] b_memory@[j]).is_zero(),
            decreases NUM_WORDS - i,
        {
            x_memory.push(MemoryWriteCols::zero());
            a_memory.push(MemoryReadCols::zero());
            b_memory.push(MemoryReadCols::zero());
            i = i + 1;
        }
        let mut a_mul_b: FieldOpCols = FieldOpCols::new();
        let mut add_eval: FieldOpCols = FieldOpCols::new();
        let mut unused: Vec<ByteLookupEvent> = Vec::new();
        populate_mul_add(
            &mut a_mul_b,
            &mut add_eval,
            &mut unused,
            0,
            zero.as_slice(),
            zero.as_slice(),
            zero.as_slice(),
        );
        Bn254ScalarMulAddCols {
            is_real: Felt::zero(),
            shard: Felt::zero(),
            channel: Felt::zero(),
            clk: Felt::zero(),
            nonce: Felt::from_canonical_usize(nonce),
            x_ptr: Felt::zero(),
            y_ptr: Felt::zero(),
            x_memory,
            a_ptr_memory: MemoryReadCols::zero(),
            b_ptr_memory: MemoryReadCols::zero(),
            a_memory,
            b_memory,
            a_mul_b,
            add_eval,
        }
    }

    /// The row whose cells are `row`, in column order.
    pub fn from_row(row: &[Felt]) -> (cols: Bn254ScalarMulAddCols)
        requires
            row@.len() == NUM_COLS,
        ensures
            cols.wf(),
            cols.flat() == row@,
    {
        let cols = Bn254ScalarMulAddCols {
            is_real: row[0],
            shard: row[1],
            channel: row[2],
            clk: row[3],
            nonce: row[4],
            x_ptr: row[5],
            y_ptr: row[6],
            x_memory: crate::memory::read_writes(row, 7, NUM_WORDS),
            a_ptr_memory: MemoryReadCols { access: crate::memory::read_access(row, 111) },
            b_ptr_memory: MemoryReadCols { access: crate::memory::read_access(row, 120) },
            a_memory: crate::memory::read_reads(row, 129, NUM_WORDS),
            b_memory: crate::memory::read_reads(row, 201, NUM_WORDS),
            a_mul_b: FieldOpCols::read_from(row, 273),
            add_eval: FieldOpCols::read_from(row, 461),
        };
        assert(cols.flat() =~= row@);
        cols
    }

    /// The cells of the row, in column order.
    pub fn to_row(&self) -> (row: Vec<Felt>)
        requires
            self.wf(),
        ensures
            row@ == self.flat(),
            row@.len() == NUM_COLS,
    {
        let mut row: Vec<Felt> = Vec::new();
        row.push(self.is_real);
        row.push(self.shard);
        row.push(self.channel);
        row.push(self.clk);
        row.push(self.nonce);
        row.push(self.x_ptr);
        row.push(self.y_ptr);
        push_writes(&mut row, self.x_memory.as_slice());
        push_access(&mut row, &self.a_ptr_memory.access);
        push_access(&mut row, &self.b_ptr_memory.access);
        push_reads(&mut row, self.a_memory.as_slice());
        push_reads(&mut row, self.b_memory.as_slice());
        self.a_mul_b.push_to(&mut row);
        self.add_eval.push_to(&mut row);
        proof {
            crate::memory::lemma_writes_flat_len(self.x_memory@);
            crate::memory::lemma_reads_flat_len(self.a_memory@);
            crate::memory::lemma_reads_flat_len(self.b_memory@);
            assert(row@ =~= self.flat());
        }
        row
    }
}

/// The range-check requests that restating the first `n` events appends to the ledger.
pub open spec fn trace_events(
    events: Seq<Bn254FieldArithEvent>,
    rows: Seq<Bn254ScalarMulAddCols>,
    n: nat,
) -> Seq<ByteLookupEvent>
    decreases n,
{
    if n == 0 {
        Seq::empty()
    } else {
        trace_events(events, rows, (n - 1) as nat) + rows[n - 1].ledger_events(events[n - 1])
    }
}

/// Whether `rows` are the trace of `events`: a row for each event, in the events' order, and
/// padding rows after them, each with its number as nonce.
pub open spec fn rows_restate(
    rows: Seq<Bn254ScalarMulAddCols>,
    events: Seq<Bn254FieldArithEvent>,
) -> bool {
    &&& rows.len() >= events.len()
    &&& forall|i: int| 0 <= i < events.len() ==> (#[trigger] rows[i]).restates(events[i], i as nat)
    &&& forall|i: int| events.len() <= i < rows.len() ==> (#[trigger] rows[i]).is_padding(i as nat)
}

/// Whether the chips can build a row from every event of a run.
pub open spec fn events_restatable(events: Seq<Bn254FieldArithEvent>) -> bool {
    forall|i: int| 0 <= i < events.len() ==> (#[trigger] events[i]).restatable()
}

/// Whether every event of a run is restatable and has a journal that agrees with its result.
pub open spec fn events_wf(events: Seq<Bn254FieldArithEvent>) -> bool {
    forall|i: int| 0 <= i < events.len() ==> (#[trigger] events[i]).wf()
}

/// The constraints on a row and the row after it.
pub open spec fn constraints(
    local: Bn254ScalarMulAddCols,
    next: Bn254ScalarMulAddCols,
    is_first_row: bool,
    is_transition: bool,
) -> bool {
    &&& is_first_row ==> crate::air::is_zero(local.nonce)
    &&& is_transition ==> eq_felt(fadd(local.nonce, fone()), next.nonce)
    &&& is_bool(local.is_real)
    &&& mul_add_constraints(
        local.a_mul_b,
        local.add_eval,
        prev_write_limbs(local.x_memory@),
        read_limbs(local.a_memory@),
        read_limbs(local.b_memory@),
        write_limbs(local.x_memory@),
        local.is_real,
    )
}

/// The interactions of a row: the syscall, received once where the row is real; the range
/// checks of the two witnesses; the write of the accumulator, one clock after the syscall; the
/// reads of the two pointers at `y_ptr`; and the reads of a and of b, each where its pointer
/// says.
pub open spec fn interactions(local: Bn254ScalarMulAddCols, code: SyscallCode) -> Seq<
    Interaction,
> {
    seq![
        Interaction::Syscall {
            shard: local.shard,
            clk: local.clk,
            nonce: local.nonce,
            syscall_id: felt_of((crate::events::syscall_code(code) % 256) as int),
            arg1: local.x_ptr,
            arg2: local.y_ptr,
            multiplicity: local.is_real,
        },
    ] + mul_add_interactions(local.a_mul_b, local.add_eval, local.is_real) + write_interactions(
        local.shard,
        fadd(local.clk, fone()),
        local.x_ptr,
        local.x_memory@,
        local.is_real,
    ) + read_interactions(
        local.shard,
        local.clk,
        local.y_ptr,
        seq![local.a_ptr_memory, local.b_ptr_memory],
        local.is_real,
    ) + read_interactions(
        local.shard,
        local.clk,
        word_felt(local.a_ptr_memory.access.value),
        local.a_memory@,
        local.is_real,
    ) + read_interactions(
        local.shard,
        local.clk,
        word_felt(local.b_ptr_memory.access.value),
        local.b_memory@,
        local.is_real,
    )
}

/// For each row of a trace, whether it satisfies the constraints with the row after it, the
/// last row paired with the first.
pub open spec fn row_verdicts(rows: Seq<Bn254ScalarMulAddCols>) -> Seq<bool> {
    Seq::new(
        rows.len(),
        |i: int| constraints(rows[i], rows[(i + 1) % (rows.len() as int)], i == 0, i + 1 < rows.len()),
    )
}

/// Whether every row of a trace satisfies the constraints, the last row paired with the
/// first.
pub open spec fn trace_satisfies(rows: Seq<Bn254ScalarMulAddCols>) -> bool {
    forall|i: int|
        0 <= i < rows.len() ==> constraints(
            #[trigger] rows[i],
            rows[(i + 1) % (rows.len() as int)],
            i == 0,
            i + 1 < rows.len(),
        )
}

/// The trace of well-formed events satisfies the chips' constraints on every row.
pub proof fn lemma_trace_sound(
    rows: Seq<Bn254ScalarMulAddCols>,
    events: Seq<Bn254FieldArithEvent>,
)
    requires
        rows_restate(rows, events),
        events_wf(events),
    ensures
        trace_satisfies(rows),
{
    assert forall|i: int| 0 <= i < rows.len() implies constraints(
        #[trigger] rows[i],
        rows[(i + 1) % (rows.len() as int)],
        i == 0,
        i + 1 < rows.len(),
    ) by {
        let local = rows[i];
        crate::bn254_mul_add::lemma_nonce_steps(i as nat);
        if i + 1 < rows.len() {
            assert((i + 1) % (rows.len() as int) == i + 1) by {
                vstd::arithmetic::div_mod::lemma_small_mod((i + 1) as nat, rows.len());
            }
            let next = rows[i + 1];
            assert(next.nonce == felt_of(i + 1)) by {
                if i + 1 < events.len() {
                    assert(next.restates(events[i + 1], (i + 1) as nat));
                } else {
                    assert(next.is_padding((i + 1) as nat));
                }
            }
        }
        crate::air::lemma_is_bool_flag(true);
        if i < events.len() {
            let event = events[i];
            assert(local.restates(event, i as nat));
            assert(event.wf());
            let x = bytes_of_words(event.arg1.prev_words());
            let a = bytes_of_words(event.a->0.words());
            let b = bytes_of_words(event.b->0.words());
            crate::events::lemma_write_limbs(local.x_memory@, event.arg1.memory_records@);
            crate::events::lemma_read_limbs(local.a_memory@, event.a->0.memory_records@);
            crate::events::lemma_read_limbs(local.b_memory@, event.b->0.memory_records@);
            crate::mac_core::lemma_mul_add_value(x, a, b);
            crate::limbs::lemma_le_value_injective(
                bytes_of_words(crate::events::written_values(event.arg1.memory_records@)),
                mul_add_limbs(x, a, b),
            );
            crate::mac_core::lemma_mul_add_sound(
                local.a_mul_b,
                local.add_eval,
                x,
                a,
                b,
                local.is_real,
            );
        } else {
            assert(local.is_padding(i as nat));
            crate::mac_core::lemma_mul_add_unreal(
                local.a_mul_b,
                local.add_eval,
                prev_write_limbs(local.x_memory@),
                read_limbs(local.a_memory@),
                read_limbs(local.b_memory@),
                write_limbs(local.x_memory@),
                local.is_real,
            );
        }
    }
}

/// A padding row is not real, and its arithmetic columns hold valid witnesses of operations
/// on zero: the result and the quotient of the multiplication are zero, and both witnesses
/// satisfy their constraints.
pub proof fn lemma_padding_row_valid(cols: Bn254ScalarMulAddCols, nonce: nat)
    requires
        cols.is_padding(nonce),
    ensures
        cols.is_real == fzero(),
        cols.a_mul_b.result@ == Seq::new(NUM_LIMBS as nat, |i: int| fzero()),
        cols.a_mul_b.carry@ == Seq::new(NUM_LIMBS as nat, |i: int| fzero()),
        cols.a_mul_b.satisfies(
            crate::field_op::FieldOperation::Mul,
            crate::field_op::felts_of_bytes(Seq::new(NUM_LIMBS as nat, |i: int| 0u8)),
            crate::field_op::felts_of_bytes(Seq::new(NUM_LIMBS as nat, |i: int| 0u8)),
            crate::field_op::felts_of_bytes(crate::field_op::bn254_scalar_modulus_seq()),
        ),
        cols.add_eval.satisfies(
            crate::field_op::FieldOperation::Add,
            crate::field_op::felts_of_bytes(Seq::new(NUM_LIMBS as nat, |i: int| 0u8)),
            cols.a_mul_b.result@,
            crate::field_op::felts_of_bytes(crate::field_op::bn254_scalar_modulus_seq()),
        ),
{
    let z = Seq::new(NUM_LIMBS as nat, |i: int| 0u8);
    let p = crate::field_op::bn254_scalar_modulus_seq();
    crate::field_op::lemma_bn254_scalar_modulus();
    crate::limbs::lemma_le_value_zeros(z);
    crate::field_op::lemma_zero_witness(cols.a_mul_b, crate::field_op::FieldOperation::Mul, p);
    crate::mac_core::lemma_mul_add_value(z, z, z);
    crate::field_op::lemma_witness_satisfies(
        cols.a_mul_b,
        crate::field_op::FieldOperation::Mul,
        z,
        z,
        p,
    );
    crate::field_op::lemma_witness_satisfies(
        cols.add_eval,
        crate::field_op::FieldOperation::Add,
        z,
        crate::mac_core::mul_limbs(z, z),
        p,
    );
}

/// The nonce column counts the rows, and `is_real` tells the rows of events from the padding
/// rows: row `i` of a trace holds `i` as nonce, and one as `is_real` exactly if it restates an
/// event; in the typed row and in the cells of the two columns.
pub proof fn lemma_nonce_column(
    rows: Seq<Bn254ScalarMulAddCols>,
    events: Seq<Bn254FieldArithEvent>,
    i: int,
)
    requires
        rows_restate(rows, events),
        0 <= i < rows.len(),
    ensures
        rows[i].nonce == felt_of(i),
        rows[i].is_real == crate::field::fbool(i < events.len()),
        rows[i].flat()[4] == rows[i].nonce,
        rows[i].flat()[0] == rows[i].is_real,
{
    if i < events.len() {
        assert(rows[i].restates(events[i], i as nat));
    } else {
        assert(rows[i].is_padding(i as nat));
    }
}

/// What the first `n` rows append to the ledger does not depend on the rows after them.
pub proof fn lemma_trace_events_prefix(
    events: Seq<Bn254FieldArithEvent>,
    a: Seq<Bn254ScalarMulAddCols>,
    b: Seq<Bn254ScalarMulAddCols>,
    n: nat,
)
    requires
        n <= a.len() <= b.len(),
        forall|i: int| 0 <= i < n ==> a[i] == b[i],
    ensures
        trace_events(events, a, n) == trace_events(events, b, n),
    decreases n,
{
    if n > 0 {
        lemma_trace_events_prefix(events, a, b, (n - 1) as nat);
    }
}

/// The rows of the trace of `events`: one row for each event, in the events' order, then
/// padding rows up to the padded height. The range-check requests that the rows give rise to
/// are appended to `output`'s ledger.
pub fn generate_rows_of(
    events: &Vec<Bn254FieldArithEvent>,
    fixed_log2_rows: Option<usize>,
    output: &mut ExecutionRecord,
) -> (rows: Vec<Bn254ScalarMulAddCols>)
    requires
        events_restatable(events@),
        height_fits(events@.len(), fixed_log2_rows),
    ensures
        rows_restate(rows@, events@),
        is_padded_height(rows@.len(), events@.len(), fixed_log2_rows),
        events_wf(events@) ==> trace_satisfies(rows@),
        final(output).byte_lookups@ == old(output).byte_lookups@ + trace_events(
            events@,
            rows@,
            events@.len(),
        ),
        final(output).same_events(*old(output)),
{
    let n: usize = events.len();
    let height: usize = next_power_of_two(n, fixed_log2_rows);
    let mut rows: Vec<Bn254ScalarMulAddCols> = Vec::new();
    let mut ledger: Vec<ByteLookupEvent> = Vec::new();
    let mut i: usize = 0;
    while i < n
        invariant
            i <= n,
            n == events@.len(),
            events_restatable(events@),
            rows@.len() == i,
            forall|j: int| 0 <= j < i ==> (#[trigger] rows@[j]).restates(events@[j], j as nat),
            ledger@ == trace_events(events@, rows@, i as nat),
        decreases n - i,
    {
        let ghost before = rows@;
        assert(events@[i as int].restatable());
        let row = Bn254ScalarMulAddCols::from_event(&events[i], i, &mut ledger);
        rows.push(row);
        proof {
            lemma_trace_events_prefix(events@, before, rows@, i as nat);
            assert(ledger@ =~= trace_events(events@, rows@, (i + 1) as nat));
        }
        i = i + 1;
    }
    while i < height
        invariant
            n <= i <= height,
            n == events@.len(),
            rows@.len() == i,
            forall|j: int| 0 <= j < n ==> (#[trigger] rows@[j]).restates(events@[j], j as nat),
            forall|j: int| n <= j < i ==> (#[trigger] rows@[j]).is_padding(j as nat),
            ledger@ == trace_events(events@, rows@, n as nat),
        decreases height - i,
    {
        let ghost before = rows@;
        rows.push(Bn254ScalarMulAddCols::padding(i));
        proof {
            lemma_trace_events_prefix(events@, before, rows@, n as nat);
        }
        i = i + 1;
    }
    proof {
        if events_wf(events@) {
            lemma_trace_sound(rows@, events@);
        }
    }
    output.add_byte_lookup_events(ledger);
    rows
}

/// The matrix whose rows are the cells of `rows`.
pub fn flatten_rows(rows: &Vec<Bn254ScalarMulAddCols>) -> (trace: TraceMatrix)
    requires
        forall|i: int| 0 <= i < rows@.len() ==> (#[trigger] rows@[i]).wf(),
        rows@.len() * NUM_COLS <= usize::MAX,
    ensures
        trace.wf(),
        trace.width == NUM_COLS,
        trace.spec_height() == rows@.len(),
        forall|i: int| 0 <= i < rows@.len() ==> #[trigger] trace.spec_row(i) == rows@[i].flat(),
{
    let mut flat: Vec<Vec<Felt>> = Vec::new();
    let mut i: usize = 0;
    while i < rows.len()
        invariant
            i <= rows@.len(),
            forall|j: int| 0 <= j < rows@.len() ==> (#[trigger] rows@[j]).wf(),
            flat@.len() == i,
            forall|j: int| 0 <= j < i ==> (#[trigger] flat@[j])@ == rows@[j].flat(),
            forall|j: int| 0 <= j < i ==> (#[trigger] flat@[j])@.len() == NUM_COLS,
        decreases rows@.len() - i,
    {
        flat.push(rows[i].to_row());
        i = i + 1;
    }
    TraceMatrix::from_rows(&flat, NUM_COLS)
}

/// Whether `trace` is the trace of `events`, and `after` the ledger that `before` becomes by
/// generating it.
pub open spec fn is_trace_of(
    trace: TraceMatrix,
    events: Seq<Bn254FieldArithEvent>,
    before: Seq<ByteLookupEvent>,
    after: Seq<ByteLookupEvent>,
) -> bool {
    exists|rows: Seq<Bn254ScalarMulAddCols>|
        {
            &&& #[trigger] rows_restate(rows, events)
            &&& rows.len() == trace.spec_height()
            &&& events_wf(events) ==> trace_satisfies(rows)
            &&& forall|i: int| 0 <= i < rows.len() ==> #[trigger] trace.spec_row(i) == rows[i].flat()
            &&& after == before + trace_events(events, rows, events.len())
        }
}

/// The trace of `events` as a matrix: the rows of [`generate_rows_of`], cell by cell.
pub fn generate_trace_of(
    events: &Vec<Bn254FieldArithEvent>,
    fixed_log2_rows: Option<usize>,
    output: &mut ExecutionRecord,
) -> (trace: TraceMatrix)
    requires
        events_restatable(events@),
        trace_fits(events@.len(), fixed_log2_rows, NUM_COLS as nat),
    ensures
        trace.wf(),
        trace.width == NUM_COLS,
        is_padded_height(trace.spec_height(), events@.len(), fixed_log2_rows),
        is_trace_of(trace, events@, old(output).byte_lookups@, final(output).byte_lookups@),
        crate::trace::rows_are_numbered(trace, 4, 0, events@.len()),
        final(output).same_events(*old(output)),
{
    let rows: Vec<Bn254ScalarMulAddCols> = generate_rows_of(events, fixed_log2_rows, output);
    proof {
        crate::trace::lemma_trace_fits(
            rows@.len(),
            events@.len(),
            fixed_log2_rows,
            NUM_COLS as nat,
        );
    }
    let trace = flatten_rows(&rows);
    assert(rows_restate(rows@, events@));
    proof {
        assert forall|i: int| 0 <= i < trace.spec_height() implies (#[trigger] trace.spec_row(
            i,
        ))[4] == felt_of(i) && trace.spec_row(i)[0] == crate::field::fbool(i < events@.len()) by {
            lemma_nonce_column(rows@, events@, i);
        }
    }
    trace
}

/// Asserts the constraints on a row and the row after it, and declares the row's interactions
/// for the syscall `code`.
pub fn eval_row(
    builder: &mut ConstraintBuilder,
    local: &Bn254ScalarMulAddCols,
    next: &Bn254ScalarMulAddCols,
    code: SyscallCode,
)
    requires
        local.wf(),
    ensures
        final(builder).extends(
            *old(builder),
            constraints(*local, *next, old(builder).is_first_row, old(builder).is_transition),
            interactions(*local, code),
        ),
{
    builder.assert_zero_first_row(local.nonce);
    builder.assert_eq_transition(local.nonce.add(Felt::one()), next.nonce);
    builder.assert_bool(local.is_real);
    builder.receive_syscall(
        local.shard,
        local.clk,
        local.nonce,
        Felt::from_canonical_u32(code.syscall_id()),
        local.x_ptr,
        local.y_ptr,
        local.is_real,
    );
    let x_limbs: Vec<Felt> = limbs_from_prev_access(local.x_memory.as_slice());
    let a_limbs: Vec<Felt> = limbs_from_read_access(local.a_memory.as_slice());
    let b_limbs: Vec<Felt> = limbs_from_read_access(local.b_memory.as_slice());
    let written: Vec<Felt> = limbs_from_access(local.x_memory.as_slice());
    eval_mul_add(
        builder,
        &local.a_mul_b,
        &local.add_eval,
        x_limbs.as_slice(),
        a_limbs.as_slice(),
        b_limbs.as_slice(),
        written.as_slice(),
        local.is_real,
    );
    builder.eval_memory_write_slice(
        local.shard,
        local.clk.add(Felt::one()),
        local.x_ptr,
        local.x_memory.as_slice(),
        local.is_real,
    );
    let mut pointers: Vec<MemoryReadCols> = Vec::new();
    pointers.push(local.a_ptr_memory);
    pointers.push(local.b_ptr_memory);
    assert(pointers@ =~= seq![local.a_ptr_memory, local.b_ptr_memory]);
    builder.eval_memory_read_slice(
        local.shard,
        local.clk,
        local.y_ptr,
        pointers.as_slice(),
        local.is_real,
    );
    let a_ptr: Felt = local.a_ptr_memory.access.value.reduce();
    let b_ptr: Felt = local.b_ptr_memory.access.value.reduce();
    builder.eval_memory_read_slice(
        local.shard,
        local.clk,
        a_ptr,
        local.a_memory.as_slice(),
        local.is_real,
    );
    builder.eval_memory_read_slice(
        local.shard,
        local.clk,
        b_ptr,
        local.b_memory.as_slice(),
        local.is_real,
    );
    assert(builder.interactions@ =~= old(builder).interactions@ + interactions(*local, code));
}

/// Whether `rows` are the rows of `trace`, cell by cell.
pub open spec fn rows_fill(rows: Seq<Bn254ScalarMulAddCols>, trace: TraceMatrix) -> bool {
    &&& rows.len() == trace.spec_height()
    &&& forall|i: int|
        0 <= i < rows.len() ==> (#[trigger] rows[i]).wf() && rows[i].flat() == trace.spec_row(i)
}

/// Whether `r` is the verdict on `trace`: the verdict on its rows.
pub open spec fn is_trace_verdict(r: Result<(), ConstraintViolation>, trace: TraceMatrix) -> bool {
    exists|rows: Seq<Bn254ScalarMulAddCols>|
        #[trigger] rows_fill(rows, trace) && crate::trace::is_verdict(r, row_verdicts(rows))
}

/// The constraints are sound on a real row: where the row's memory columns hold the limbs of
/// `x`, `a`, `b` and of what was written, every cell of the two witnesses holds a byte, as the
/// range checks ask, and the row satisfies the constraints, what was written spells
/// `x + a * b` modulo the order.
pub proof fn lemma_real_row_sound(
    local: Bn254ScalarMulAddCols,
    next: Bn254ScalarMulAddCols,
    is_first_row: bool,
    is_transition: bool,
    x: Seq<u8>,
    a: Seq<u8>,
    b: Seq<u8>,
    written: Seq<u8>,
)
    requires
        local.wf(),
        local.is_real == fone(),
        constraints(local, next, is_first_row, is_transition),
        prev_write_limbs(local.x_memory@) == crate::field_op::felts_of_bytes(x),
        read_limbs(local.a_memory@) == crate::field_op::felts_of_bytes(a),
        read_limbs(local.b_memory@) == crate::field_op::felts_of_bytes(b),
        write_limbs(local.x_memory@) == crate::field_op::felts_of_bytes(written),
        crate::field_op::are_bytes(local.a_mul_b.flat()),
        crate::field_op::are_bytes(local.add_eval.flat()),
    ensures
        le_value(written) % crate::field_op::bn254_scalar_modulus() == crate::mac_core::mul_add_value(
            le_value(x),
            le_value(a),
            le_value(b),
        ),
{
    let mul = local.a_mul_b;
    let add = local.add_eval;
    assert(crate::field_op::are_bytes(mul.result@)) by {
        assert forall|i: int| 0 <= i < mul.result@.len() implies (#[trigger] mul.result@[i]).value
            < 256 by {
            assert(mul.result@[i] == mul.flat()[i]);
        }
    }
    assert(crate::field_op::are_bytes(mul.carry@)) by {
        assert forall|i: int| 0 <= i < mul.carry@.len() implies (#[trigger] mul.carry@[i]).value
            < 256 by {
            assert(mul.carry@[i] == mul.flat()[32 + i]);
        }
    }
    assert(crate::field_op::are_bytes(mul.witness_low@)) by {
        assert forall|i: int| 0 <= i < mul.witness_low@.len() implies (
        #[trigger] mul.witness_low@[i]).value < 256 by {
            assert(mul.witness_low@[i] == mul.flat()[64 + i]);
        }
    }
    assert(crate::field_op::are_bytes(mul.witness_high@)) by {
        assert forall|i: int| 0 <= i < mul.witness_high@.len() implies (
        #[trigger] mul.witness_high@[i]).value < 256 by {
            assert(mul.witness_high@[i] == mul.flat()[126 + i]);
        }
    }
    assert(crate::field_op::are_bytes(add.result@)) by {
        assert forall|i: int| 0 <= i < add.result@.len() implies (#[trigger] add.result@[i]).value
            < 256 by {
            assert(add.result@[i] == add.flat()[i]);
        }
    }
    assert(crate::field_op::are_bytes(add.carry@)) by {
        assert forall|i: int| 0 <= i < add.carry@.len() implies (#[trigger] add.carry@[i]).value
            < 256 by {
            assert(add.carry@[i] == add.flat()[32 + i]);
        }
    }
    assert(crate::field_op::are_bytes(add.witness_low@)) by {
        assert forall|i: int| 0 <= i < add.witness_low@.len() implies (
        #[trigger] add.witness_low@[i]).value < 256 by {
            assert(add.witness_low@[i] == add.flat()[64 + i]);
        }
    }
    assert(crate::field_op::are_bytes(add.witness_high@)) by {
        assert forall|i: int| 0 <= i < add.witness_high@.len() implies (
        #[trigger] add.witness_high@[i]).value < 256 by {
            assert(add.witness_high@[i] == add.flat()[126 + i]);
        }
    }
    crate::memory::lemma_writes_flat_len(local.x_memory@);
    assert(x.len() == NUM_LIMBS) by {
        assert(prev_write_limbs(local.x_memory@).len() == 32);
    }
    assert(a.len() == NUM_LIMBS) by {
        assert(read_limbs(local.a_memory@).len() == 32);
    }
    assert(b.len() == NUM_LIMBS) by {
        assert(read_limbs(local.b_memory@).len() == 32);
    }
    assert(written.len() == NUM_LIMBS) by {
        assert(write_limbs(local.x_memory@).len() == 32);
    }
    crate::mac_core::lemma_mul_add_constraints_sound(mul, add, x, a, b, written);
}

/// Whether a pair of rows satisfies the constraints depends on the rows' cells alone.
pub proof fn lemma_constraints_by_cells(
    x: Bn254ScalarMulAddCols,
    x_next: Bn254ScalarMulAddCols,
    y: Bn254ScalarMulAddCols,
    y_next: Bn254ScalarMulAddCols,
    is_first_row: bool,
    is_transition: bool,
)
    requires
        x.wf(),
        y.wf(),
        x_next.wf(),
        y_next.wf(),
        x.flat() == y.flat(),
        x_next.flat() == y_next.flat(),
    ensures
        constraints(x, x_next, is_first_row, is_transition) == constraints(
            y,
            y_next,
            is_first_row,
            is_transition,
        ),
{
    lemma_parts_by_cells(x, y);
    lemma_parts_by_cells(x_next, y_next);
    crate::memory::lemma_writes_by_cells(x.x_memory@, y.x_memory@);
    crate::memory::lemma_reads_by_cells(x.a_memory@, y.a_memory@);
    crate::memory::lemma_reads_by_cells(x.b_memory@, y.b_memory@);
    crate::mac_core::lemma_mul_add_by_cells(
        x.a_mul_b,
        x.add_eval,
        y.a_mul_b,
        y.add_eval,
        prev_write_limbs(x.x_memory@),
        read_limbs(x.a_memory@),
        read_limbs(x.b_memory@),
        write_limbs(x.x_memory@),
        x.is_real,
    );
}

/// Rows with the same cells hold the same groups of cells.
pub proof fn lemma_parts_by_cells(x: Bn254ScalarMulAddCols, y: Bn254ScalarMulAddCols)
    requires
        x.wf(),
        y.wf(),
        x.flat() == y.flat(),
    ensures
        x.nonce == y.nonce,
        x.is_real == y.is_real,
        writes_flat(x.x_memory@) == writes_flat(y.x_memory@),
        reads_flat(x.a_memory@) == reads_flat(y.a_memory@),
        reads_flat(x.b_memory@) == reads_flat(y.b_memory@),
        x.a_mul_b.flat() == y.a_mul_b.flat(),
        x.add_eval.flat() == y.add_eval.flat(),
{
    let f = x.flat();
    let g = y.flat();
    crate::memory::lemma_writes_flat_len(x.x_memory@);
    crate::memory::lemma_reads_flat_len(x.a_memory@);
    crate::memory::lemma_reads_flat_len(x.b_memory@);
    crate::memory::lemma_writes_flat_len(y.x_memory@);
    crate::memory::lemma_reads_flat_len(y.a_memory@);
    crate::memory::lemma_reads_flat_len(y.b_memory@);
    assert(x.nonce == f[4] && y.nonce == g[4]);
    assert(x.is_real == f[0] && y.is_real == g[0]);
    assert(writes_flat(x.x_memory@) =~= f.subrange(7, 111));
    assert(writes_flat(y.x_memory@) =~= g.subrange(7, 111));
    assert(reads_flat(x.a_memory@) =~= f.subrange(129, 201));
    assert(reads_flat(y.a_memory@) =~= g.subrange(129, 201));
    assert(reads_flat(x.b_memory@) =~= f.subrange(201, 273));
    assert(reads_flat(y.b_memory@) =~= g.subrange(201, 273));
    assert(x.a_mul_b.flat() =~= f.subrange(273, 461));
    assert(y.a_mul_b.flat() =~= g.subrange(273, 461));
    assert(x.add_eval.flat() =~= f.subrange(461, 649));
    assert(y.add_eval.flat() =~= g.subrange(461, 649));
}

/// Two verdicts on the same matrix agree: both are success, or both name the same first row
/// in violation.
pub proof fn lemma_trace_verdict_unique(
    first: Result<(), ConstraintViolation>,
    second: Result<(), ConstraintViolation>,
    trace: TraceMatrix,
)
    requires
        is_trace_verdict(first, trace),
        is_trace_verdict(second, trace),
    ensures
        first is Ok <==> second is Ok,
        first is Err ==> first->Err_0.row == second->Err_0.row,
{
    let a = choose|rows: Seq<Bn254ScalarMulAddCols>|
        #[trigger] rows_fill(rows, trace) && crate::trace::is_verdict(first, row_verdicts(rows));
    let b = choose|rows: Seq<Bn254ScalarMulAddCols>|
        #[trigger] rows_fill(rows, trace) && crate::trace::is_verdict(second, row_verdicts(rows));
    let n = a.len() as int;
    assert forall|i: int| 0 <= i < n implies row_verdicts(a)[i] == row_verdicts(b)[i] by {
        let j = (i + 1) % n;
        lemma_constraints_by_cells(a[i], a[j], b[i], b[j], i == 0, i + 1 < n);
    }
    assert(row_verdicts(a) =~= row_verdicts(b));
    crate::trace::lemma_verdict_unique(first, second, row_verdicts(a));
}

/// The rows of `trace`.
pub fn unflatten_rows(trace: &TraceMatrix) -> (rows: Vec<Bn254ScalarMulAddCols>)
    requires
        trace.wf(),
        trace.width == NUM_COLS,
    ensures
        rows_fill(rows@, *trace),
{
    let height: usize = trace.height();
    let mut rows: Vec<Bn254ScalarMulAddCols> = Vec::new();
    let mut i: usize = 0;
    while i < height
        invariant
            i <= height,
            height == trace.spec_height(),
            trace.wf(),
            trace.width == NUM_COLS,
            rows@.len() == i,
            forall|j: int|
                0 <= j < i ==> (#[trigger] rows@[j]).wf() && rows@[j].flat() == trace.spec_row(j),
        decreases height - i,
    {
        let cells: Vec<Felt> = trace.row_slice(i);
        rows.push(Bn254ScalarMulAddCols::from_row(cells.as_slice()));
        i = i + 1;
    }
    rows
}

/// Evaluates the constraints on every row of a trace, the last row paired with the first, and
/// reports the first row at which one is violated, under the chip's name.
pub fn check_rows_of(rows: &Vec<Bn254ScalarMulAddCols>, code: SyscallCode, chip: &str) -> (r:
    Result<(), ConstraintViolation>)
    requires
        forall|i: int| 0 <= i < rows@.len() ==> (#[trigger] rows@[i]).wf(),
    ensures
        r is Ok <==> trace_satisfies(rows@),
        crate::trace::is_verdict(r, row_verdicts(rows@)),
        r matches Err(v) ==> {
            &&& v.chip@ == chip@
            &&& v.row < rows@.len()
            &&& !constraints(
                rows@[v.row as int],
                rows@[(v.row + 1) % (rows@.len() as int)],
                v.row == 0,
                v.row + 1 < rows@.len(),
            )
            &&& forall|j: int|
                0 <= j < v.row ==> constraints(
                    #[trigger] rows@[j],
                    rows@[(j + 1) % (rows@.len() as int)],
                    j == 0,
                    j + 1 < rows@.len(),
                )
        },
{
    let n: usize = rows.len();
    let mut i: usize = 0;
    while i < n
        invariant
            i <= n,
            n == rows@.len(),
            forall|j: int| 0 <= j < rows@.len() ==> (#[trigger] rows@[j]).wf(),
            forall|j: int|
                0 <= j < i ==> constraints(
                    #[trigger] rows@[j],
                    rows@[(j + 1) % (rows@.len() as int)],
                    j == 0,
                    j + 1 < rows@.len(),
                ),
        decreases n - i,
    {
        let next: usize = if i + 1 < n {
            i + 1
        } else {
            0
        };
        proof {
            if i + 1 < n {
                vstd::arithmetic::div_mod::lemma_small_mod((i + 1) as nat, n as nat);
            } else {
                vstd::arithmetic::div_mod::lemma_mod_self_0(n as int);
            }
        }
        let mut builder = ConstraintBuilder::new(i == 0, i + 1 < n);
        eval_row(&mut builder, &rows[i], &rows[next], code);
        if !builder.ok {
            return Err(ConstraintViolation { chip: chip.to_owned(), row: i });
        }
        i = i + 1;
    }
    Ok(())
}

impl Bn254ScalarMacChip {
    /// The chip.
    pub fn new() -> (chip: Bn254ScalarMacChip) {
        Bn254ScalarMacChip
    }

    /// The name of the chip.
    pub fn name(&self) -> (name: String)
        ensures
            name@ == "Bn254ScalarMac"@,
    {
        "Bn254ScalarMac".to_owned()
    }

    /// The number of columns of the chip's trace.
    pub fn width(&self) -> (w: usize)
        ensures
            w == NUM_COLS,
    {
        NUM_COLS
    }

    /// Whether a shard's proof includes the chip: whether the shard holds an event of the
    /// chip's syscall.
    pub fn included(&self, shard: &ExecutionRecord) -> (r: bool)
        ensures
            r == (shard.bn254_scalar_mac_events@.len() > 0),
    {
        shard.bn254_scalar_mac_events.len() > 0
    }

    /// The rows of the chip's trace for a shard; see [`generate_rows_of`].
    pub fn generate_rows(&self, input: &ExecutionRecord, output: &mut ExecutionRecord) -> (rows:
        Vec<Bn254ScalarMulAddCols>)
        requires
            events_restatable(input.bn254_scalar_mac_events@),
            height_fits(
                input.bn254_scalar_mac_events@.len(),
                input.spec_fixed_log2_rows(SyscallCode::BN254_SCALAR_MAC),
            ),
        ensures
            rows_restate(rows@, input.bn254_scalar_mac_events@),
            is_padded_height(
                rows@.len(),
                input.bn254_scalar_mac_events@.len(),
                input.spec_fixed_log2_rows(SyscallCode::BN254_SCALAR_MAC),
            ),
            events_wf(input.bn254_scalar_mac_events@) ==> trace_satisfies(rows@),
            final(output).byte_lookups@ == old(output).byte_lookups@ + trace_events(
                input.bn254_scalar_mac_events@,
                rows@,
                input.bn254_scalar_mac_events@.len(),
            ),
            final(output).same_events(*old(output)),
    {
        generate_rows_of(
            &input.bn254_scalar_mac_events,
            input.fixed_log2_rows(SyscallCode::BN254_SCALAR_MAC),
            output,
        )
    }

    /// The chip's trace for a shard, as a matrix; see [`generate_trace_of`].
    pub fn generate_trace(&self, input: &ExecutionRecord, output: &mut ExecutionRecord) -> (trace:
        TraceMatrix)
        requires
            events_restatable(input.bn254_scalar_mac_events@),
            trace_fits(
                input.bn254_scalar_mac_events@.len(),
                input.spec_fixed_log2_rows(SyscallCode::BN254_SCALAR_MAC),
                NUM_COLS as nat,
            ),
        ensures
            trace.wf(),
            trace.width == NUM_COLS,
            is_padded_height(
                trace.spec_height(),
                input.bn254_scalar_mac_events@.len(),
                input.spec_fixed_log2_rows(SyscallCode::BN254_SCALAR_MAC),
            ),
            is_trace_of(
                trace,
                input.bn254_scalar_mac_events@,
                old(output).byte_lookups@,
                final(output).byte_lookups@,
            ),
            crate::trace::rows_are_numbered(trace, 4, 0, input.bn254_scalar_mac_events@.len()),
            final(output).same_events(*old(output)),
    {
        generate_trace_of(
            &input.bn254_scalar_mac_events,
            input.fixed_log2_rows(SyscallCode::BN254_SCALAR_MAC),
            output,
        )
    }

    /// Asserts the chip's constraints on a row and the row after it, and declares the row's
    /// interactions.
    pub fn eval(
        &self,
        builder: &mut ConstraintBuilder,
        local: &Bn254ScalarMulAddCols,
        next: &Bn254ScalarMulAddCols,
    )
        requires
            local.wf(),
        ensures
            final(builder).extends(
                *old(builder),
                constraints(*local, *next, old(builder).is_first_row, old(builder).is_transition),
                interactions(*local, SyscallCode::BN254_SCALAR_MAC),
            ),
    {
        eval_row(builder, local, next, SyscallCode::BN254_SCALAR_MAC)
    }

    /// Evaluates the constraints on every row of a trace given as a matrix, the last row paired
    /// with the first, and reports the first row at which one is violated.
    pub fn check_trace(&self, trace: &TraceMatrix) -> (r: Result<(), ConstraintViolation>)
        requires
            trace.wf(),
            trace.width == NUM_COLS,
        ensures
            is_trace_verdict(r, *trace),
            r matches Err(v) ==> v.chip@ == "Bn254ScalarMac"@,
    {
        let rows: Vec<Bn254ScalarMulAddCols> = unflatten_rows(trace);
        let r = self.check_rows(&rows);
        assert(rows_fill(rows@, *trace));
        r
    }

    /// Evaluates the constraints on every row of a trace and reports the first row at which
    /// one is violated.
    pub fn check_rows(&self, rows: &Vec<Bn254ScalarMulAddCols>) -> (r: Result<
        (),
        ConstraintViolation,
    >)
        requires
            forall|i: int| 0 <= i < rows@.len() ==> (#[trigger] rows@[i]).wf(),
        ensures
            r is Ok <==> trace_satisfies(rows@),
            crate::trace::is_verdict(r, row_verdicts(rows@)),
            r matches Err(v) ==> {
                &&& v.chip@ == "Bn254ScalarMac"@
                &&& v.row < rows@.len()
                &&& !constraints(
                    rows@[v.row as int],
                    rows@[(v.row + 1) % (rows@.len() as int)],
                    v.row == 0,
                    v.row + 1 < rows@.len(),
                )
            },
    {
        check_rows_of(rows, SyscallCode::BN254_SCALAR_MAC, "Bn254ScalarMac")
    }

    /// The degree of the chip's constraints.
    pub fn degree(&self) -> (d: usize)
        ensures
            d == 4,
    {
        4
    }

    /// The least size of the cyclic domain over which the chip's trace is committed.
    pub fn minimal_cyclic_domain_size(&self) -> (n: usize)
        ensures
            n == 64,
    {
        64
    }

    /// The chip's function on a row of inputs: the identity.
    pub fn execute(&self, inputs: &[Felt], outputs: &mut Vec<Felt>)
        requires
            old(outputs)@.len() == inputs@.len(),
        ensures
            final(outputs)@ == inputs@,
    {
        outputs.clear();
        crate::memory::push_felts(outputs, inputs);
        assert(outputs@ =~= inputs@);
    }
}

impl Bn254ScalarMulAddChip {
    /// The chip.
    pub fn new() -> (chip: Bn254ScalarMulAddChip) {
        Bn254ScalarMulAddChip
    }

    /// The name of the chip.
    pub fn name(&self) -> (name: String)
        ensures
            name@ == "Bn254ScalarMulAdd"@,
    {
        "Bn254ScalarMulAdd".to_owned()
    }

    /// The number of columns of the chip's trace.
    pub fn width(&self) -> (w: usize)
        ensures
            w == NUM_COLS,
    {
        NUM_COLS
    }

    /// Whether a shard's proof includes the chip: whether the shard holds an event of the
    /// chip's syscall.
    pub fn included(&self, shard: &ExecutionRecord) -> (r: bool)
        ensures
            r == (shard.bn254_scalar_muladd_events@.len() > 0),
    {
        shard.bn254_scalar_muladd_events.len() > 0
    }

    /// The rows of the chip's trace for a shard; see [`generate_rows_of`].
    pub fn generate_rows(&self, input: &ExecutionRecord, output: &mut ExecutionRecord) -> (rows:
        Vec<Bn254ScalarMulAddCols>)
        requires
            events_restatable(input.bn254_scalar_muladd_events@),
            height_fits(
                input.bn254_scalar_muladd_events@.len(),
                input.spec_fixed_log2_rows(SyscallCode::BN254_SCALAR_MULADD),
            ),
        ensures
            rows_restate(rows@, input.bn254_scalar_muladd_events@),
            is_padded_height(
                rows@.len(),
                input.bn254_scalar_muladd_events@.len(),
                input.spec_fixed_log2_rows(SyscallCode::BN254_SCALAR_MULADD),
            ),
            events_wf(input.bn254_scalar_muladd_events@) ==> trace_satisfies(rows@),
            final(output).byte_lookups@ == old(output).byte_lookups@ + trace_events(
                input.bn254_scalar_muladd_events@,
                rows@,
                input.bn254_scalar_muladd_events@.len(),
            ),
            final(output).same_events(*old(output)),
    {
        generate_rows_of(
            &input.bn254_scalar_muladd_events,
            input.fixed_log2_rows(SyscallCode::BN254_SCALAR_MULADD),
            output,
        )
    }

    /// The chip's trace for a shard, as a matrix; see [`generate_trace_of`].
    pub fn generate_trace(&self, input: &ExecutionRecord, output: &mut ExecutionRecord) -> (trace:
        TraceMatrix)
        requires
            events_restatable(input.bn254_scalar_muladd_events@),
            trace_fits(
                input.bn254_scalar_muladd_events@.len(),
                input.spec_fixed_log2_rows(SyscallCode::BN254_SCALAR_MULADD),
                NUM_COLS as nat,
            ),
        ensures
            trace.wf(),
            trace.width == NUM_COLS,
            is_padded_height(
                trace.spec_height(),
                input.bn254_scalar_muladd_events@.len(),
                input.spec_fixed_log2_rows(SyscallCode::BN254_SCALAR_MULADD),
            ),
            is_trace_of(
                trace,
                input.bn254_scalar_muladd_events@,
                old(output).byte_lookups@,
                final(output).byte_lookups@,
            ),
            crate::trace::rows_are_numbered(trace, 4, 0, input.bn254_scalar_muladd_events@.len()),
            final(output).same_events(*old(output)),
    {
        generate_trace_of(
            &input.bn254_scalar_muladd_events,
            input.fixed_log2_rows(SyscallCode::BN254_SCALAR_MULADD),
            output,
        )
    }

    /// Asserts the chip's constraints on a row and the row after it, and declares the row's
    /// interactions.
    pub fn eval(
        &self,
        builder: &mut ConstraintBuilder,
        local: &Bn254ScalarMulAddCols,
        next: &Bn254ScalarMulAddCols,
    )
        requires
            local.wf(),
        ensures
            final(builder).extends(
                *old(builder),
                constraints(*local, *next, old(builder).is_first_row, old(builder).is_transition),
                interactions(*local, SyscallCode::BN254_SCALAR_MULADD),
            ),
    {
        eval_row(builder, local, next, SyscallCode::BN254_SCALAR_MULADD)
    }

    /// Evaluates the constraints on every row of a trace given as a matrix, the last row paired
    /// with the first, and reports the first row at which one is violated.
    pub fn check_trace(&self, trace: &TraceMatrix) -> (r: Result<(), ConstraintViolation>)
        requires
            trace.wf(),
            trace.width == NUM_COLS,
        ensures
            is_trace_verdict(r, *trace),
            r matches Err(v) ==> v.chip@ == "Bn254ScalarMulAdd"@,
    {
        let rows: Vec<Bn254ScalarMulAddCols> = unflatten_rows(trace);
        let r = self.check_rows(&rows);
        assert(rows_fill(rows@, *trace));
        r
    }

    /// Evaluates the constraints on every row of a trace and reports the first row at which
    /// one is violated.
    pub fn check_rows(&self, rows: &Vec<Bn254ScalarMulAddCols>) -> (r: Result<
        (),
        ConstraintViolation,
    >)
        requires
            forall|i: int| 0 <= i < rows@.len() ==> (#[trigger] rows@[i]).wf(),
        ensures
            r is Ok <==> trace_satisfies(rows@),
            crate::trace::is_verdict(r, row_verdicts(rows@)),
            r matches Err(v) ==> {
                &&& v.chip@ == "Bn254ScalarMulAdd"@
                &&& v.row < rows@.len()
                &&& !constraints(
                    rows@[v.row as int],
                    rows@[(v.row + 1) % (rows@.len() as int)],
                    v.row == 0,
                    v.row + 1 < rows@.len(),
                )
            },
    {
        check_rows_of(rows, SyscallCode::BN254_SCALAR_MULADD, "Bn254ScalarMulAdd")
    }
}

} // verus!
