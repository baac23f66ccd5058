//! The chip of the 256-bit multiply-add syscall: `x` is replaced by `x + a * b` modulo the
//! BN254 scalar field's order, with `a` and `b` read side by side.
use crate::air::{eq_felt, is_bool, ConstraintBuilder, Interaction};
use crate::events::{Bn254MulAddEvent, ExecutionRecord, SyscallCode};
use crate::field::{fadd, felt_of, fone, fzero, Felt};
use crate::field_op::{
    bn254_scalar_modulus_seq, felts_of_bytes, lemma_bn254_scalar_modulus, FieldOpCols,
    FieldOperation, NUM_LIMBS,
};
use crate::limbs::{bytes_of_words, le_value, words_to_bytes_le, NUM_WORDS};
use crate::lookup::ByteLookupEvent;
use crate::mac_core::{
    eval_mul_add, is_mul_add_witness, mul_add_constraints, mul_add_interactions, mul_add_limbs,
    populate_mul_add,
};
use crate::memory::{
    access_events, limbs_from_access, limbs_from_prev_access, limbs_from_read_access,
    prev_write_limbs, push_reads, push_writes, read_interactions, read_limbs, reads_flat,
    write_interactions, write_limbs, writes_flat, MemoryReadCols, MemoryWriteCols,
};
use crate::trace::{next_power_of_two, ConstraintViolation, TraceMatrix};
use vstd::prelude::*;

verus! {

/// The number of columns of the chip's trace.
pub const NUM_COLS: usize = 630;

/// The chip of the 256-bit multiply-add syscall.
#[derive(Clone, Copy, Debug, Default)]
pub struct Bn254MulAddChip;

/// One row of the chip's trace.
#[derive(Debug)]
pub struct Bn254MulAddCols {
    /// The shard number of the syscall.
    pub shard: Felt,
    /// The clock cycle of the syscall.
    pub clk: Felt,
    /// The number of the row.
    pub nonce: Felt,
    /// The pointer to the first input, over which the result is written.
    pub x_ptr: Felt,
    /// The pointer to the second input, which holds the a value and then the b value.
    pub y_ptr: Felt,
    /// The writes of the result over x, which found the x value.
    pub x_memory: Vec<MemoryWriteCols>,
    /// The reads of the a value.
    pub a_memory: Vec<MemoryReadCols>,
    /// The reads of the b value.
    pub b_memory: Vec<MemoryReadCols>,
    /// The witness of `a * b`.
    pub a_mul_b: FieldOpCols,
    /// The witness of `x + (a * b)`.
    pub add_eval: FieldOpCols,
    /// Whether the row restates an event; padding rows hold zero.
    pub is_real: Felt,
}

/// The range-check requests of the memory columns of the first `n` words of an event: for
/// each word those of x, of a and of b, in this order.
pub open spec fn memory_events(event: Bn254MulAddEvent, n: nat) -> Seq<ByteLookupEvent>
    decreases n,
{
    if n == 0 {
        Seq::empty()
    } else {
        let i = (n - 1) as int;
        let x = event.x_memory_records@[i];
        let a = event.a_memory_records@[i];
        let b = event.b_memory_records@[i];
        memory_events(event, (n - 1) as nat) + access_events(
            x.shard,
            x.timestamp,
            x.prev_shard,
            x.prev_timestamp,
        ) + access_events(a.shard, a.timestamp, a.prev_shard, a.prev_timestamp) + access_events(
            b.shard,
            b.timestamp,
            b.prev_shard,
            b.prev_timestamp,
        )
    }
}

impl Bn254MulAddCols {
    /// Whether each group of columns has its width.
    pub open spec fn wf(self) -> bool {
        &&& self.x_memory@.len() == NUM_WORDS
        &&& self.a_memory@.len() == NUM_WORDS
        &&& self.b_memory@.len() == NUM_WORDS
        &&& self.a_mul_b.wf()
        &&& self.add_eval.wf()
    }

    /// The cells of the row, in column order.
    pub open spec fn flat(self) -> Seq<Felt> {
        seq![self.shard, self.clk, self.nonce, self.x_ptr, self.y_ptr] + writes_flat(
            self.x_memory@,
        ) + reads_flat(self.a_memory@) + reads_flat(self.b_memory@) + self.a_mul_b.flat()
            + self.add_eval.flat() + seq![self.is_real]
    }

    /// Whether the row restates `event` as row number `nonce`.
    pub open spec fn restates(self, event: Bn254MulAddEvent, nonce: nat) -> bool {
        &&& self.wf()
        &&& self.is_real == fone()
        &&& self.shard == felt_of(event.shard as int)
        &&& self.clk == felt_of(event.clk as int)
        &&& self.nonce == felt_of(nonce as int)
        &&& self.x_ptr == felt_of(event.x_ptr as int)
        &&& self.y_ptr == felt_of(event.y_ptr as int)
        &&& forall|i: int|
            0 <= i < NUM_WORDS ==> (#[trigger] self.x_memory@[i]).restates(
                event.x_memory_records@[i],
            )
        &&& forall|i: int|
            0 <= i < NUM_WORDS ==> (#[trigger] self.a_memory@[i]).restates(
                event.a_memory_records@[i],
            )
        &&& forall|i: int|
            0 <= i < NUM_WORDS ==> (#[trigger] self.b_memory@[i]).restates(
                event.b_memory_records@[i],
            )
        &&& is_mul_add_witness(
            self.a_mul_b,
            self.add_eval,
            bytes_of_words(event.x@),
            bytes_of_words(event.a@),
            bytes_of_words(event.b@),
        )
    }

    /// Whether the row is the padding row of number `nonce`: not real, its memory columns
    /// zero, and its arithmetic columns the witnesses of `0 + 0 * 0`.
    pub open spec fn is_padding(self, nonce: nat) -> bool {
        let zero = Seq::new(NUM_LIMBS as nat, |i: int| 0u8);
        &&& self.wf()
        &&& self.is_real == fzero()
        &&& self.shard == fzero()
        &&& self.clk == fzero()
        &&& self.nonce == felt_of(nonce as int)
        &&& self.x_ptr == fzero()
        &&& self.y_ptr == fzero()
        &&& forall|i: int| 0 <= i < NUM_WORDS ==> (#[trigger] self.x_memory@[i]).is_zero()
        &&& forall|i: int| 0 <= i < NUM_WORDS ==> (#[trigger] self.a_memory@[i]).is_zero()
        &&& forall|i: int| 0 <= i < NUM_WORDS ==> (#[trigger] self.b_memory@[i]).is_zero()
        &&& is_mul_add_witness(self.a_mul_b, self.add_eval, zero, zero, zero)
    }

    /// The range-check requests that restating `event` in this row appends to the ledger:
    /// those of the memory columns, then those of the two witnesses.
    pub open spec fn ledger_events(self, event: Bn254MulAddEvent) -> Seq<ByteLookupEvent> {
        memory_events(event, NUM_WORDS as nat) + self.a_mul_b.range_events(event.shard)
            + self.add_eval.range_events(event.shard)
    }

    /// The row that restates `event` as row number `nonce`; the range-check requests that
    /// arise are appended to `ledger`.
    pub fn from_event(
        event: &Bn254MulAddEvent,
        nonce: usize,
        ledger: &mut Vec<ByteLookupEvent>,
    ) -> (cols: Bn254MulAddCols)
        requires
            event.restatable(),
        ensures
            cols.restates(*event, nonce as nat),
            final(ledger)@ == old(ledger)@ + cols.ledger_events(*event),
    {
        let x: Vec<u8> = words_to_bytes_le(event.x.as_slice());
        let a: Vec<u8> = words_to_bytes_le(event.a.as_slice());
        let b: Vec<u8> = words_to_bytes_le(event.b.as_slice());
        let mut x_memory: Vec<MemoryWriteCols> = Vec::new();
        let mut a_memory: Vec<MemoryReadCols> = Vec::new();
        let mut b_memory: Vec<MemoryReadCols> = Vec::new();
        let mut i: usize = 0;
        assert(ledger@ =~= old(ledger)@ + memory_events(*event, 0));
        while i < NUM_WORDS
            invariant
                i <= NUM_WORDS,
                event.restatable(),
                x_memory@.len() == i,
                a_memory@.len() == i,
                b_memory@.len() == i,
                forall|j: int|
                    0 <= j < i ==> (#[trigger] x_memory@[j]).restates(event.x_memory_records@[j]),
                forall|j: int|
                    0 <= j < i ==> (#[trigger] a_memory@[j]).restates(event.a_memory_records@[j]),
                forall|j: int|
                    0 <= j < i ==> (#[trigger] b_memory@[j]).restates(event.b_memory_records@[j]),
                ledger@ == old(ledger)@ + memory_events(*event, i as nat),
            decreases NUM_WORDS - i,
        {
            let mut xc: MemoryWriteCols = MemoryWriteCols::zero();
            let mut ac: MemoryReadCols = MemoryReadCols::zero();
            let mut bc: MemoryReadCols = MemoryReadCols::zero();
            assert(event.x_memory_records@[i as int].wf());
            assert(event.a_memory_records@[i as int].wf());
            assert(event.b_memory_records@[i as int].wf());
            xc.populate(event.x_memory_records[i], ledger);
            ac.populate(event.a_memory_records[i], ledger);
            bc.populate(event.b_memory_records[i], ledger);
            x_memory.push(xc);
            a_memory.push(ac);
            b_memory.push(bc);
            assert(ledger@ =~= old(ledger)@ + memory_events(*event, (i + 1) as nat));
            i = i + 1;
        }
        let mut a_mul_b: FieldOpCols = FieldOpCols::new();
        let mut add_eval: FieldOpCols = FieldOpCols::new();
        populate_mul_add(
            &mut a_mul_b,
            &mut add_eval,
            ledger,
            event.shard,
            x.as_slice(),
            a.as_slice(),
            b.as_slice(),
        );
        let cols = Bn254MulAddCols {
            shard: Felt::from_canonical_u32(event.shard),
            clk: Felt::from_canonical_u32(event.clk),
            nonce: Felt::from_canonical_usize(nonce),
            x_ptr: Felt::from_canonical_u32(event.x_ptr),
            y_ptr: Felt::from_canonical_u32(event.y_ptr),
            x_memory,
            a_memory,
            b_memory,
            a_mul_b,
            add_eval,
            is_real: Felt::one(),
        };
        assert(ledger@ =~= old(ledger)@ + cols.ledger_events(*event));
        cols
    }

    /// The padding row of number `nonce`.
    pub fn padding(nonce: usize) -> (cols: Bn254MulAddCols)
        ensures
            cols.is_padding(nonce as nat),
    {
        let zero: Vec<u8> = crate::limbs::resize_limbs(Vec::<u8>::new().as_slice(), NUM_LIMBS);
        proof {
            lemma_bn254_scalar_modulus();
            assert(le_value(Seq::<u8>::empty()) == 0);
            crate::limbs::lemma_pow256_positive(NUM_LIMBS as nat);
            let z = Seq::new(NUM_LIMBS as nat, |i: int| 0u8);
            crate::limbs::lemma_le_value_zeros(z);
            crate::limbs::lemma_le_value_injective(zero@, z);
        }
        let mut x_memory: Vec<MemoryWriteCols> = Vec::new();
        let mut a_memory: Vec<MemoryReadCols> = Vec::new();
        let mut b_memory: Vec<MemoryReadCols> = Vec::new();
        let mut i: usize = 0;
        while i < NUM_WORDS
            invariant
                i <= NUM_WORDS,
                x_memory@.len() == i,
                a_memory@.len() == i,
                b_memory@.len() == i,
                forall|j: int| 0 <= j < i ==> (#[trigger] x_memory@[j]).is_zero(),
                forall|j: int| 0 <= j < i ==> (#[trigger] a_memory@[j]).is_zero(),
                forall|j: int| 0 <= j < i ==> (#[trigger] b_memory@[j]).is_zero(),
            decreases NUM_WORDS - i,
        {
            x_memory.push(MemoryWriteCols::zero());
            a_memory.push(MemoryReadCols::zero());
            b_memory.push(MemoryReadCols::zero());
            i = i + 1;
        }
        let mut a_mul_b: FieldOpCols = FieldOpCols::new();
        let mut add_eval: FieldOpCols = FieldOpCols::new();
        let mut unused: Vec<ByteLookupEvent> = Vec::new();
        populate_mul_add(
            &mut a_mul_b,
            &mut add_eval,
            &mut unused,
            0,
            zero.as_slice(),
            zero.as_slice(),
            zero.as_slice(),
        );
        Bn254MulAddCols {
            shard: Felt::zero(),
            clk: Felt::zero(),
            nonce: Felt::from_canonical_usize(nonce),
            x_ptr: Felt::zero(),
            y_ptr: Felt::zero(),
            x_memory,
            a_memory,
            b_memory,
            a_mul_b,
            add_eval,
            is_real: Felt::zero(),
        }
    }

    /// The row whose cells are `row`, in column order.
    pub fn from_row(row: &[Felt]) -> (cols: Bn254MulAddCols)
        requires
            row@.len() == NUM_COLS,
        ensures
            cols.wf(),
            cols.flat() == row@,
    {
        let cols = Bn254MulAddCols {
            shard: row[0],
            clk: row[1],
            nonce: row[2],
            x_ptr: row[3],
            y_ptr: row[4],
            x_memory: crate::memory::read_writes(row, 5, NUM_WORDS),
            a_memory: crate::memory::read_reads(row, 109, NUM_WORDS),
            b_memory: crate::memory::read_reads(row, 181, NUM_WORDS),
            a_mul_b: FieldOpCols::read_from(row, 253),
            add_eval: FieldOpCols::read_from(row, 441),
            is_real: row[629],
        };
        assert(cols.flat() =~= row@);
        cols
    }

    /// The cells of the row, in column order.
    pub fn to_row(&self) -> (row: Vec<Felt>)
        requires
            self.wf(),
        ensures
            row@ == self.flat(),
            row@.len() == NUM_COLS,
    {
        let mut row: Vec<Felt> = Vec::new();
        row.push(self.shard);
        row.push(self.clk);
        row.push(self.nonce);
        row.push(self.x_ptr);
        row.push(self.y_ptr);
        push_writes(&mut row, self.x_memory.as_slice());
        push_reads(&mut row, self.a_memory.as_slice());
        push_reads(&mut row, self.b_memory.as_slice());
        self.a_mul_b.push_to(&mut row);
        self.add_eval.push_to(&mut row);
        row.push(self.is_real);
        proof {
            crate::memory::lemma_writes_flat_len(self.x_memory@);
            crate::memory::lemma_reads_flat_len(self.a_memory@);
            crate::memory::lemma_reads_flat_len(self.b_memory@);
            assert(row@ =~= self.flat());
        }
        row
    }
}

/// Whether the chip can build a row from every event of a run.
pub open spec fn events_restatable(events: Seq<Bn254MulAddEvent>) -> bool {
    forall|i: int| 0 <= i < events.len() ==> (#[trigger] events[i]).restatable()
}

/// Whether every event of a run is restatable and has a journal that agrees with its operands
/// and its result.
pub open spec fn events_wf(events: Seq<Bn254MulAddEvent>) -> bool {
    forall|i: int| 0 <= i < events.len() ==> (#[trigger] events[i]).wf()
}

/// The range-check requests that restating the first `n` events appends to the ledger.
pub open spec fn trace_events(
    events: Seq<Bn254MulAddEvent>,
    rows: Seq<Bn254MulAddCols>,
    n: nat,
) -> Seq<ByteLookupEvent>
    decreases n,
{
    if n == 0 {
        Seq::empty()
    } else {
        trace_events(events, rows, (n - 1) as nat) + rows[n - 1].ledger_events(events[n - 1])
    }
}

/// Whether `rows` are the trace of `events`: a row for each event, in the events' order, and
/// padding rows after them, each with its number as nonce.
pub open spec fn rows_restate(rows: Seq<Bn254MulAddCols>, events: Seq<Bn254MulAddEvent>) -> bool {
    &&& rows.len() >= events.len()
    &&& forall|i: int| 0 <= i < events.len() ==> (#[trigger] rows[i]).restates(events[i], i as nat)
    &&& forall|i: int| events.len() <= i < rows.len() ==> (#[trigger] rows[i]).is_padding(i as nat)
}

/// The constraints on a row and the row after it.
pub open spec fn constraints(
    local: Bn254MulAddCols,
    next: Bn254MulAddCols,
    is_first_row: bool,
    is_transition: bool,
) -> bool {
    &&& is_first_row ==> crate::air::is_zero(local.nonce)
    &&& is_transition ==> eq_felt(fadd(local.nonce, fone()), next.nonce)
    &&& mul_add_constraints(
        local.a_mul_b,
        local.add_eval,
        prev_write_limbs(local.x_memory@),
        read_limbs(local.a_memory@),
        read_limbs(local.b_memory@),
        write_limbs(local.x_memory@),
        local.is_real,
    )
    &&& is_bool(local.is_real)
}

/// The interactions of a row: the range checks of the two witnesses; the write of x, one
/// clock after the syscall; the reads of a and b, side by side at `y_ptr`; and the syscall
/// itself, received once where the row is real.
pub open spec fn interactions(local: Bn254MulAddCols) -> Seq<Interaction> {
    mul_add_interactions(local.a_mul_b, local.add_eval, local.is_real) + write_interactions(
        local.shard,
        fadd(local.clk, fone()),
        local.x_ptr,
        local.x_memory@,
        local.is_real,
    ) + read_interactions(
        local.shard,
        local.clk,
        local.y_ptr,
        local.a_memory@ + local.b_memory@,
        local.is_real,
    ) + seq![
        Interaction::Syscall {
            shard: local.shard,
            clk: local.clk,
            nonce: local.nonce,
            syscall_id: felt_of(
                (crate::events::syscall_code(SyscallCode::BN254_MULADD) % 256) as int,
            ),
            arg1: local.x_ptr,
            arg2: local.y_ptr,
            multiplicity: local.is_real,
        },
    ]
}

/// For each row of a trace, whether it satisfies the constraints with the row after it, the
/// last row paired with the first.
pub open spec fn row_verdicts(rows: Seq<Bn254MulAddCols>) -> Seq<bool> {
    Seq::new(
        rows.len(),
        |i: int| constraints(rows[i], rows[(i + 1) % (rows.len() as int)], i == 0, i + 1 < rows.len()),
    )
}

/// Whether every row of a trace satisfies the constraints, the last row paired with the
/// first.
pub open spec fn trace_satisfies(rows: Seq<Bn254MulAddCols>) -> bool {
    forall|i: int|
        0 <= i < rows.len() ==> constraints(
            #[trigger] rows[i],
            rows[(i + 1) % (rows.len() as int)],
            i == 0,
            i + 1 < rows.len(),
        )
}

/// Whether `trace` is the trace of `events`, and `after` the ledger that `before` becomes by
/// generating it.
pub open spec fn is_trace_of(
    trace: TraceMatrix,
    events: Seq<Bn254MulAddEvent>,
    before: Seq<ByteLookupEvent>,
    after: Seq<ByteLookupEvent>,
) -> bool {
    exists|rows: Seq<Bn254MulAddCols>|
        {
            &&& #[trigger] rows_restate(rows, events)
            &&& rows.len() == trace.spec_height()
            &&& events_wf(events) ==> trace_satisfies(rows)
            &&& forall|i: int| 0 <= i < rows.len() ==> #[trigger] trace.spec_row(i) == rows[i].flat()
            &&& after == before + trace_events(events, rows, events.len())
        }
}

/// Consecutive row numbers satisfy the nonce constraints.
pub proof fn lemma_nonce_steps(i: nat)
    ensures
        eq_felt(fadd(felt_of(i as int), fone()), felt_of(i as int + 1)),
        crate::air::is_zero(felt_of(0)),
{
    crate::field::lemma_rep_felt_of(i as int);
    crate::field::lemma_rep_felt_of(1);
    crate::field::lemma_rep_add(felt_of(i as int), i as int, fone(), 1);
    crate::air::lemma_eq_felt_same(fadd(felt_of(i as int), fone()), felt_of(i as int + 1));
}

/// The trace of well-formed events satisfies the chip's constraints on every row.
pub proof fn lemma_trace_sound(rows: Seq<Bn254MulAddCols>, events: Seq<Bn254MulAddEvent>)
    requires
        rows_restate(rows, events),
        events_wf(events),
    ensures
        trace_satisfies(rows),
{
    assert forall|i: int| 0 <= i < rows.len() implies constraints(
        #[trigger] rows[i],
        rows[(i + 1) % (rows.len() as int)],
        i == 0,
        i + 1 < rows.len(),
    ) by {
        let local = rows[i];
        lemma_nonce_steps(i as nat);
        if i + 1 < rows.len() {
            assert((i + 1) % (rows.len() as int) == i + 1) by {
                vstd::arithmetic::div_mod::lemma_small_mod((i + 1) as nat, rows.len());
            }
            let next = rows[i + 1];
            assert(next.nonce == felt_of(i + 1)) by {
                if i + 1 < events.len() {
                    assert(next.restates(events[i + 1], (i + 1) as nat));
                } else {
                    assert(next.is_padding((i + 1) as nat));
                }
            }
        }
        crate::air::lemma_is_bool_flag(true);
        if i < events.len() {
            let event = events[i];
            assert(local.restates(event, i as nat));
            assert(event.wf());
            let x = bytes_of_words(event.x@);
            let a = bytes_of_words(event.a@);
            let b = bytes_of_words(event.b@);
            crate::events::lemma_write_limbs(local.x_memory@, event.x_memory_records@);
            crate::events::lemma_read_limbs(local.a_memory@, event.a_memory_records@);
            crate::events::lemma_read_limbs(local.b_memory@, event.b_memory_records@);
            crate::mac_core::lemma_mul_add_value(x, a, b);
            crate::limbs::lemma_le_value_injective(
                bytes_of_words(crate::events::written_values(event.x_memory_records@)),
                mul_add_limbs(x, a, b),
            );
            crate::mac_core::lemma_mul_add_sound(
                local.a_mul_b,
                local.add_eval,
                x,
                a,
                b,
                local.is_real,
            );
        } else {
            assert(local.is_padding(i as nat));
            crate::mac_core::lemma_mul_add_unreal(
                local.a_mul_b,
                local.add_eval,
                prev_write_limbs(local.x_memory@),
                read_limbs(local.a_memory@),
                read_limbs(local.b_memory@),
                write_limbs(local.x_memory@),
                local.is_real,
            );
        }
    }
}

impl Bn254MulAddChip {
    /// The chip.
    pub fn new() -> (chip: Bn254MulAddChip) {
        Bn254MulAddChip
    }

    /// The name of the chip.
    pub fn name(&self) -> (name: String)
        ensures
            name@ == "Bn254MulAdd"@,
    {
        "Bn254MulAdd".to_owned()
    }

    /// The number of columns of the chip's trace.
    pub fn width(&self) -> (w: usize)
        ensures
            w == NUM_COLS,
    {
        NUM_COLS
    }

    /// Whether a shard's proof includes the chip: whether the shard holds an event of the
    /// chip's syscall.
    pub fn included(&self, shard: &ExecutionRecord) -> (r: bool)
        ensures
            r == (shard.bn254_muladd_events@.len() > 0),
    {
        shard.bn254_muladd_events.len() > 0
    }

    /// The rows of the chip's trace for a shard: one row for each multiply-add event of
    /// `input`, in the events' order, then padding rows up to the padded height. The
    /// range-check requests that the rows give rise to are appended to `output`'s ledger.
    /// Where the events' journals agree with their operands and results, the rows satisfy the
    /// constraints; a journal that does not is found by the constraints, not here.
    pub fn generate_rows(&self, input: &ExecutionRecord, output: &mut ExecutionRecord) -> (rows:
        Vec<Bn254MulAddCols>)
        requires
            events_restatable(input.bn254_muladd_events@),
            crate::trace::height_fits(
                input.bn254_muladd_events@.len(),
                input.spec_fixed_log2_rows(SyscallCode::BN254_MULADD),
            ),
        ensures
            rows_restate(rows@, input.bn254_muladd_events@),
            crate::trace::is_padded_height(
                rows@.len(),
                input.bn254_muladd_events@.len(),
                input.spec_fixed_log2_rows(SyscallCode::BN254_MULADD),
            ),
            events_wf(input.bn254_muladd_events@) ==> trace_satisfies(rows@),
            final(output).byte_lookups@ == old(output).byte_lookups@ + trace_events(
                input.bn254_muladd_events@,
                rows@,
                input.bn254_muladd_events@.len(),
            ),
            final(output).same_events(*old(output)),
    {
        let n: usize = input.bn254_muladd_events.len();
        let height: usize = next_power_of_two(
            n,
            input.fixed_log2_rows(SyscallCode::BN254_MULADD),
        );
        let mut rows: Vec<Bn254MulAddCols> = Vec::new();
        let mut ledger: Vec<ByteLookupEvent> = Vec::new();
        let mut i: usize = 0;
        while i < n
            invariant
                i <= n,
                n == input.bn254_muladd_events@.len(),
                events_restatable(input.bn254_muladd_events@),
                rows@.len() == i,
                forall|j: int|
                    0 <= j < i ==> (#[trigger] rows@[j]).restates(
                        input.bn254_muladd_events@[j],
                        j as nat,
                    ),
                ledger@ == trace_events(input.bn254_muladd_events@, rows@, i as nat),
            decreases n - i,
        {
            let ghost before = rows@;
            assert(input.bn254_muladd_events@[i as int].restatable());
            let row = Bn254MulAddCols::from_event(&input.bn254_muladd_events[i], i, &mut ledger);
            rows.push(row);
            proof {
                lemma_trace_events_prefix(input.bn254_muladd_events@, before, rows@, i as nat);
                assert(ledger@ =~= trace_events(
                    input.bn254_muladd_events@,
                    rows@,
                    (i + 1) as nat,
                ));
            }
            i = i + 1;
        }
        while i < height
            invariant
                n <= i <= height,
                n == input.bn254_muladd_events@.len(),
                rows@.len() == i,
                forall|j: int|
                    0 <= j < n ==> (#[trigger] rows@[j]).restates(
                        input.bn254_muladd_events@[j],
                        j as nat,
                    ),
                forall|j: int| n <= j < i ==> (#[trigger] rows@[j]).is_padding(j as nat),
                ledger@ == trace_events(input.bn254_muladd_events@, rows@, n as nat),
            decreases height - i,
        {
            let ghost before = rows@;
            rows.push(Bn254MulAddCols::padding(i));
            proof {
                lemma_trace_events_prefix(input.bn254_muladd_events@, before, rows@, n as nat);
            }
            i = i + 1;
        }
        proof {
            if events_wf(input.bn254_muladd_events@) {
                lemma_trace_sound(rows@, input.bn254_muladd_events@);
            }
        }
        output.add_byte_lookup_events(ledger);
        rows
    }

    /// The chip's trace for a shard, as a matrix: the rows of [`Self::generate_rows`], cell
    /// by cell.
    pub fn generate_trace(&self, input: &ExecutionRecord, output: &mut ExecutionRecord) -> (trace:
        TraceMatrix)
        requires
            events_restatable(input.bn254_muladd_events@),
            crate::trace::trace_fits(
                input.bn254_muladd_events@.len(),
                input.spec_fixed_log2_rows(SyscallCode::BN254_MULADD),
                NUM_COLS as nat,
            ),
        ensures
            trace.wf(),
            trace.width == NUM_COLS,
            crate::trace::is_padded_height(
                trace.spec_height(),
                input.bn254_muladd_events@.len(),
                input.spec_fixed_log2_rows(SyscallCode::BN254_MULADD),
            ),
            is_trace_of(
                trace,
                input.bn254_muladd_events@,
                old(output).byte_lookups@,
                final(output).byte_lookups@,
            ),
            crate::trace::rows_are_numbered(trace, 2, 629, input.bn254_muladd_events@.len()),
            final(output).same_events(*old(output)),
    {
        let rows: Vec<Bn254MulAddCols> = self.generate_rows(input, output);
        proof {
            crate::trace::lemma_trace_fits(
                rows@.len(),
                input.bn254_muladd_events@.len(),
                input.spec_fixed_log2_rows(SyscallCode::BN254_MULADD),
                NUM_COLS as nat,
            );
        }
        let trace = flatten_rows(&rows);
        assert(rows_restate(rows@, input.bn254_muladd_events@));
        proof {
            assert forall|i: int| 0 <= i < trace.spec_height() implies (#[trigger] trace.spec_row(
                i,
            ))[2] == felt_of(i) && trace.spec_row(i)[629] == crate::field::fbool(
                i < input.bn254_muladd_events@.len(),
            ) by {
                lemma_nonce_column(rows@, input.bn254_muladd_events@, i);
            }
        }
        trace
    }

    /// Asserts the chip's constraints on a row and the row after it, and declares the row's
    /// interactions.
    pub fn eval(
        &self,
        builder: &mut ConstraintBuilder,
        local: &Bn254MulAddCols,
        next: &Bn254MulAddCols,
    )
        requires
            local.wf(),
        ensures
            final(builder).extends(
                *old(builder),
                constraints(*local, *next, old(builder).is_first_row, old(builder).is_transition),
                interactions(*local),
            ),
    {
        builder.assert_zero_first_row(local.nonce);
        builder.assert_eq_transition(local.nonce.add(Felt::one()), next.nonce);
        let x_limbs: Vec<Felt> = limbs_from_prev_access(local.x_memory.as_slice());
        let a_limbs: Vec<Felt> = limbs_from_read_access(local.a_memory.as_slice());
        let b_limbs: Vec<Felt> = limbs_from_read_access(local.b_memory.as_slice());
        let written: Vec<Felt> = limbs_from_access(local.x_memory.as_slice());
        eval_mul_add(
            builder,
            &local.a_mul_b,
            &local.add_eval,
            x_limbs.as_slice(),
            a_limbs.as_slice(),
            b_limbs.as_slice(),
            written.as_slice(),
            local.is_real,
        );
        builder.eval_memory_write_slice(
            local.shard,
            local.clk.add(Felt::one()),
            local.x_ptr,
            local.x_memory.as_slice(),
            local.is_real,
        );
        let mut y_memory: Vec<MemoryReadCols> = Vec::new();
        let mut i: usize = 0;
        while i < NUM_WORDS
            invariant
                i <= NUM_WORDS,
                local.wf(),
                y_memory@ == local.a_memory@.take(i as int),
            decreases NUM_WORDS - i,
        {
            y_memory.push(local.a_memory[i]);
            assert(y_memory@ =~= local.a_memory@.take(i + 1));
            i = i + 1;
        }
        let mut i: usize = 0;
        assert(local.a_memory@.take(NUM_WORDS as int) =~= local.a_memory@);
        assert(y_memory@ =~= local.a_memory@ + local.b_memory@.take(0));
        while i < NUM_WORDS
            invariant
                i <= NUM_WORDS,
                local.wf(),
                y_memory@ == local.a_memory@ + local.b_memory@.take(i as int),
            decreases NUM_WORDS - i,
        {
            y_memory.push(local.b_memory[i]);
            assert(y_memory@ =~= local.a_memory@ + local.b_memory@.take(i + 1));
            i = i + 1;
        }
        assert(local.b_memory@.take(NUM_WORDS as int) =~= local.b_memory@);
        builder.eval_memory_read_slice(
            local.shard,
            local.clk,
            local.y_ptr,
            y_memory.as_slice(),
            local.is_real,
        );
        builder.receive_syscall(
            local.shard,
            local.clk,
            local.nonce,
            Felt::from_canonical_u32(SyscallCode::BN254_MULADD.syscall_id()),
            local.x_ptr,
            local.y_ptr,
            local.is_real,
        );
        builder.assert_bool(local.is_real);
        assert(builder.interactions@ =~= old(builder).interactions@ + interactions(*local));
    }

    /// Evaluates the constraints on every row of a trace given as a matrix, the last row paired
    /// with the first, and reports the first row at which one is violated.
    pub fn check_trace(&self, trace: &TraceMatrix) -> (r: Result<(), ConstraintViolation>)
        requires
            trace.wf(),
            trace.width == NUM_COLS,
        ensures
            is_trace_verdict(r, *trace),
            r matches Err(v) ==> v.chip@ == "Bn254MulAdd"@,
    {
        let rows: Vec<Bn254MulAddCols> = unflatten_rows(trace);
        let r = self.check_rows(&rows);
        assert(rows_fill(rows@, *trace));
        r
    }

    /// Evaluates the constraints on every row of a trace, the last row paired with the first,
    /// and reports the first row at which one is violated.
    pub fn check_rows(&self, rows: &Vec<Bn254MulAddCols>) -> (r: Result<
        (),
        crate::trace::ConstraintViolation,
    >)
        requires
            forall|i: int| 0 <= i < rows@.len() ==> (#[trigger] rows@[i]).wf(),
        ensures
            r is Ok <==> trace_satisfies(rows@),
            crate::trace::is_verdict(r, row_verdicts(rows@)),
            r matches Err(v) ==> {
                &&& v.chip@ == "Bn254MulAdd"@
                &&& v.row < rows@.len()
                &&& !constraints(
                    rows@[v.row as int],
                    rows@[(v.row + 1) % (rows@.len() as int)],
                    v.row == 0,
                    v.row + 1 < rows@.len(),
                )
                &&& forall|j: int|
                    0 <= j < v.row ==> constraints(
                        #[trigger] rows@[j],
                        rows@[(j + 1) % (rows@.len() as int)],
                        j == 0,
                        j + 1 < rows@.len(),
                    )
            },
    {
        let n: usize = rows.len();
        let mut i: usize = 0;
        while i < n
            invariant
                i <= n,
                n == rows@.len(),
                forall|j: int| 0 <= j < rows@.len() ==> (#[trigger] rows@[j]).wf(),
                forall|j: int|
                    0 <= j < i ==> constraints(
                        #[trigger] rows@[j],
                        rows@[(j + 1) % (rows@.len() as int)],
                        j == 0,
                        j + 1 < rows@.len(),
                    ),
            decreases n - i,
        {
            let next: usize = if i + 1 < n {
                i + 1
            } else {
                0
            };
            proof {
                if i + 1 < n {
                    vstd::arithmetic::div_mod::lemma_small_mod((i + 1) as nat, n as nat);
                } else {
                    vstd::arithmetic::div_mod::lemma_mod_self_0(n as int);
                }
            }
            let mut builder = ConstraintBuilder::new(i == 0, i + 1 < n);
            self.eval(&mut builder, &rows[i], &rows[next]);
            if !builder.ok {
                return Err(crate::trace::ConstraintViolation { chip: self.name(), row: i });
            }
            i = i + 1;
        }
        Ok(())
    }
}

/// A padding row is not real, and its arithmetic columns hold valid witnesses of operations
/// on zero: the result and the quotient of the multiplication are zero, and both witnesses
/// satisfy their constraints.
pub proof fn lemma_padding_row_valid(cols: Bn254MulAddCols, nonce: nat)
    requires
        cols.is_padding(nonce),
    ensures
        cols.is_real == fzero(),
        cols.a_mul_b.result@ == Seq::new(NUM_LIMBS as nat, |i: int| fzero()),
        cols.a_mul_b.carry@ == Seq::new(NUM_LIMBS as nat, |i: int| fzero()),
        cols.a_mul_b.satisfies(
            crate::field_op::FieldOperation::Mul,
            crate::field_op::felts_of_bytes(Seq::new(NUM_LIMBS as nat, |i: int| 0u8)),
            crate::field_op::felts_of_bytes(Seq::new(NUM_LIMBS as nat, |i: int| 0u8)),
            crate::field_op::felts_of_bytes(crate::field_op::bn254_scalar_modulus_seq()),
        ),
        cols.add_eval.satisfies(
            crate::field_op::FieldOperation::Add,
            crate::field_op::felts_of_bytes(Seq::new(NUM_LIMBS as nat, |i: int| 0u8)),
            cols.a_mul_b.result@,
            crate::field_op::felts_of_bytes(crate::field_op::bn254_scalar_modulus_seq()),
        ),
{
    let z = Seq::new(NUM_LIMBS as nat, |i: int| 0u8);
    let p = crate::field_op::bn254_scalar_modulus_seq();
    crate::field_op::lemma_bn254_scalar_modulus();
    crate::limbs::lemma_le_value_zeros(z);
    crate::field_op::lemma_zero_witness(cols.a_mul_b, crate::field_op::FieldOperation::Mul, p);
    crate::mac_core::lemma_mul_add_value(z, z, z);
    crate::field_op::lemma_witness_satisfies(
        cols.a_mul_b,
        crate::field_op::FieldOperation::Mul,
        z,
        z,
        p,
    );
    crate::field_op::lemma_witness_satisfies(
        cols.add_eval,
        crate::field_op::FieldOperation::Add,
        z,
        crate::mac_core::mul_limbs(z, z),
        p,
    );
}

/// The nonce column counts the rows, and `is_real` tells the rows of events from the padding
/// rows: row `i` of a trace holds `i` as nonce, and one as `is_real` exactly if it restates an
/// event; in the typed row and in the cells of the two columns.
pub proof fn lemma_nonce_column(rows: Seq<Bn254MulAddCols>, events: Seq<Bn254MulAddEvent>, i: int)
    requires
        rows_restate(rows, events),
        0 <= i < rows.len(),
    ensures
        rows[i].nonce == felt_of(i),
        rows[i].is_real == crate::field::fbool(i < events.len()),
        rows[i].flat()[2] == rows[i].nonce,
        rows[i].flat()[629] == rows[i].is_real,
{
    if i < events.len() {
        assert(rows[i].restates(events[i], i as nat));
    } else {
        assert(rows[i].is_padding(i as nat));
    }
    crate::memory::lemma_writes_flat_len(rows[i].x_memory@);
    crate::memory::lemma_reads_flat_len(rows[i].a_memory@);
    crate::memory::lemma_reads_flat_len(rows[i].b_memory@);
}

/// Whether `rows` are the rows of `trace`, cell by cell.
pub open spec fn rows_fill(rows: Seq<Bn254MulAddCols>, trace: TraceMatrix) -> bool {
    &&& rows.len() == trace.spec_height()
    &&& forall|i: int|
        0 <= i < rows.len() ==> (#[trigger] rows[i]).wf() && rows[i].flat() == trace.spec_row(i)
}

/// Whether `r` is the verdict on `trace`: the verdict on its rows.
pub open spec fn is_trace_verdict(r: Result<(), ConstraintViolation>, trace: TraceMatrix) -> bool {
    exists|rows: Seq<Bn254MulAddCols>|
        #[trigger] rows_fill(rows, trace) && crate::trace::is_verdict(r, row_verdicts(rows))
}

/// The constraints are sound on a real row: where the row's memory columns hold the limbs of
/// `x`, `a`, `b` and of what was written, every cell of the two witnesses holds a byte, as the
/// range checks ask, and the row satisfies the constraints, what was written spells
/// `x + a * b` modulo the order.
pub proof fn lemma_real_row_sound(
    local: Bn254MulAddCols,
    next: Bn254MulAddCols,
    is_first_row: bool,
    is_transition: bool,
    x: Seq<u8>,
    a: Seq<u8>,
    b: Seq<u8>,
    written: Seq<u8>,
)
    requires
        local.wf(),
        local.is_real == fone(),
        constraints(local, next, is_first_row, is_transition),
        prev_write_limbs(local.x_memory@) == crate::field_op::felts_of_bytes(x),
        read_limbs(local.a_memory@) == crate::field_op::felts_of_bytes(a),
        read_limbs(local.b_memory@) == crate::field_op::felts_of_bytes(b),
        write_limbs(local.x_memory@) == crate::field_op::felts_of_bytes(written),
        crate::field_op::are_bytes(local.a_mul_b.flat()),
        crate::field_op::are_bytes(local.add_eval.flat()),
    ensures
        le_value(written) % crate::field_op::bn254_scalar_modulus() == crate::mac_core::mul_add_value(
            le_value(x),
            le_value(a),
            le_value(b),
        ),
{
    let mul = local.a_mul_b;
    let add = local.add_eval;
    assert(crate::field_op::are_bytes(mul.result@)) by {
        assert forall|i: int| 0 <= i < mul.result@.len() implies (#[trigger] mul.result@[i]).value
            < 256 by {
            assert(mul.result@[i] == mul.flat()[i]);
        }
    }
    assert(crate::field_op::are_bytes(mul.carry@)) by {
        assert forall|i: int| 0 <= i < mul.carry@.len() implies (#[trigger] mul.carry@[i]).value
            < 256 by {
            assert(mul.carry@[i] == mul.flat()[32 + i]);
        }
    }
    assert(crate::field_op::are_bytes(mul.witness_low@)) by {
        assert forall|i: int| 0 <= i < mul.witness_low@.len() implies (
        #[trigger] mul.witness_low@[i]).value < 256 by {
            assert(mul.witness_low@[i] == mul.flat()[64 + i]);
        }
    }
    assert(crate::field_op::are_bytes(mul.witness_high@)) by {
        assert forall|i: int| 0 <= i < mul.witness_high@.len() implies (
        #[trigger] mul.witness_high@[i]).value < 256 by {
            assert(mul.witness_high@[i] == mul.flat()[126 + i]);
        }
    }
    assert(crate::field_op::are_bytes(add.result@)) by {
        assert forall|i: int| 0 <= i < add.result@.len() implies (#[trigger] add.result@[i]).value
            < 256 by {
            assert(add.result@[i] == add.flat()[i]);
        }
    }
    assert(crate::field_op::are_bytes(add.carry@)) by {
        assert forall|i: int| 0 <= i < add.carry@.len() implies (#[trigger] add.carry@[i]).value
            < 256 by {
            assert(add.carry@[i] == add.flat()[32 + i]);
        }
    }
    assert(crate::field_op::are_bytes(add.witness_low@)) by {
        assert forall|i: int| 0 <= i < add.witness_low@.len() implies (
        #[trigger] add.witness_low@[i]).value < 256 by {
            assert(add.witness_low@[i] == add.flat()[64 + i]);
        }
    }
    assert(crate::field_op::are_bytes(add.witness_high@)) by {
        assert forall|i: int| 0 <= i < add.witness_high@.len() implies (
        #[trigger] add.witness_high@[i]).value < 256 by {
            assert(add.witness_high@[i] == add.flat()[126 + i]);
        }
    }
    crate::memory::lemma_writes_flat_len(local.x_memory@);
    assert(x.len() == NUM_LIMBS) by {
        assert(prev_write_limbs(local.x_memory@).len() == 32);
    }
    assert(a.len() == NUM_LIMBS) by {
        assert(read_limbs(local.a_memory@).len() == 32);
    }
    assert(b.len() == NUM_LIMBS) by {
        assert(read_limbs(local.b_memory@).len() == 32);
    }
    assert(written.len() == NUM_LIMBS) by {
        assert(write_limbs(local.x_memory@).len() == 32);
    }
    crate::mac_core::lemma_mul_add_constraints_sound(mul, add, x, a, b, written);
}

/// Whether a pair of rows satisfies the constraints depends on the rows' cells alone.
pub proof fn lemma_constraints_by_cells(
    x: Bn254MulAddCols,
    x_next: Bn254MulAddCols,
    y: Bn254MulAddCols,
    y_next: Bn254MulAddCols,
    is_first_row: bool,
    is_transition: bool,
)
    requires
        x.wf(),
        y.wf(),
        x_next.wf(),
        y_next.wf(),
        x.flat() == y.flat(),
        x_next.flat() == y_next.flat(),
    ensures
        constraints(x, x_next, is_first_row, is_transition) == constraints(
            y,
            y_next,
            is_first_row,
            is_transition,
        ),
{
    lemma_parts_by_cells(x, y);
    lemma_parts_by_cells(x_next, y_next);
    crate::memory::lemma_writes_by_cells(x.x_memory@, y.x_memory@);
    crate::memory::lemma_reads_by_cells(x.a_memory@, y.a_memory@);
    crate::memory::lemma_reads_by_cells(x.b_memory@, y.b_memory@);
    crate::mac_core::lemma_mul_add_by_cells(
        x.a_mul_b,
        x.add_eval,
        y.a_mul_b,
        y.add_eval,
        prev_write_limbs(x.x_memory@),
        read_limbs(x.a_memory@),
        read_limbs(x.b_memory@),
        write_limbs(x.x_memory@),
        x.is_real,
    );
}

/// Rows with the same cells hold the same groups of cells.
pub proof fn lemma_parts_by_cells(x: Bn254MulAddCols, y: Bn254MulAddCols)
    requires
        x.wf(),
        y.wf(),
        x.flat() == y.flat(),
    ensures
        x.nonce == y.nonce,
        x.is_real == y.is_real,
        writes_flat(x.x_memory@) == writes_flat(y.x_memory@),
        reads_flat(x.a_memory@) == reads_flat(y.a_memory@),
        reads_flat(x.b_memory@) == reads_flat(y.b_memory@),
        x.a_mul_b.flat() == y.a_mul_b.flat(),
        x.add_eval.flat() == y.add_eval.flat(),
{
    let f = x.flat();
    let g = y.flat();
    crate::memory::lemma_writes_flat_len(x.x_memory@);
    crate::memory::lemma_reads_flat_len(x.a_memory@);
    crate::memory::lemma_reads_flat_len(x.b_memory@);
    crate::memory::lemma_writes_flat_len(y.x_memory@);
    crate::memory::lemma_reads_flat_len(y.a_memory@);
    crate::memory::lemma_reads_flat_len(y.b_memory@);
    assert(x.nonce == f[2] && y.nonce == g[2]);
    assert(x.is_real == f[629] && y.is_real == g[629]);
    assert(writes_flat(x.x_memory@) =~= f.subrange(5, 109));
    assert(writes_flat(y.x_memory@) =~= g.subrange(5, 109));
    assert(reads_flat(x.a_memory@) =~= f.subrange(109, 181));
    assert(reads_flat(y.a_memory@) =~= g.subrange(109, 181));
    assert(reads_flat(x.b_memory@) =~= f.subrange(181, 253));
    assert(reads_flat(y.b_memory@) =~= g.subrange(181, 253));
    assert(x.a_mul_b.flat() =~= f.subrange(253, 441));
    assert(y.a_mul_b.flat() =~= g.subrange(253, 441));
    assert(x.add_eval.flat() =~= f.subrange(441, 629));
    assert(y.add_eval.flat() =~= g.subrange(441, 629));
}

/// Two verdicts on the same matrix agree: both are success, or both name the same first row
/// in violation.
pub proof fn lemma_trace_verdict_unique(
    first: Result<(), ConstraintViolation>,
    second: Result<(), ConstraintViolation>,
    trace: TraceMatrix,
)
    requires
        is_trace_verdict(first, trace),
        is_trace_verdict(second, trace),
    ensures
        first is Ok <==> second is Ok,
        first is Err ==> first->Err_0.row == second->Err_0.row,
{
    let a = choose|rows: Seq<Bn254MulAddCols>|
        #[trigger] rows_fill(rows, trace) && crate::trace::is_verdict(first, row_verdicts(rows));
    let b = choose|rows: Seq<Bn254MulAddCols>|
        #[trigger] rows_fill(rows, trace) && crate::trace::is_verdict(second, row_verdicts(rows));
    let n = a.len() as int;
    assert forall|i: int| 0 <= i < n implies row_verdicts(a)[i] == row_verdicts(b)[i] by {
        let j = (i + 1) % n;
        lemma_constraints_by_cells(a[i], a[j], b[i], b[j], i == 0, i + 1 < n);
    }
    assert(row_verdicts(a) =~= row_verdicts(b));
    crate::trace::lemma_verdict_unique(first, second, row_verdicts(a));
}

/// The rows of `trace`.
pub fn unflatten_rows(trace: &TraceMatrix) -> (rows: Vec<Bn254MulAddCols>)
    requires
        trace.wf(),
        trace.width == NUM_COLS,
    ensures
        rows_fill(rows@, *trace),
{
    let height: usize = trace.height();
    let mut rows: Vec<Bn254MulAddCols> = Vec::new();
    let mut i: usize = 0;
    while i < height
        invariant
            i <= height,
            height == trace.spec_height(),
            trace.wf(),
            trace.width == NUM_COLS,
            rows@.len() == i,
            forall|j: int|
                0 <= j < i ==> (#[trigger] rows@[j]).wf() && rows@[j].flat() == trace.spec_row(j),
        decreases height - i,
    {
        let cells: Vec<Felt> = trace.row_slice(i);
        rows.push(Bn254MulAddCols::from_row(cells.as_slice()));
        i = i + 1;
    }
    rows
}

/// What the first `n` rows append to the ledger does not depend on the rows after them.
pub proof fn lemma_trace_events_prefix(
    events: Seq<Bn254MulAddEvent>,
    a: Seq<Bn254MulAddCols>,
    b: Seq<Bn254MulAddCols>,
    n: nat,
)
    requires
        n <= a.len() <= b.len(),
        forall|i: int| 0 <= i < n ==> a[i] == b[i],
    ensures
        trace_events(events, a, n) == trace_events(events, b, n),
    decreases n,
{
    if n > 0 {
        lemma_trace_events_prefix(events, a, b, (n - 1) as nat);
    }
}

/// The matrix whose rows are the cells of `rows`.
pub fn flatten_rows(rows: &Vec<Bn254MulAddCols>) -> (trace: TraceMatrix)
    requires
        forall|i: int| 0 <= i < rows@.len() ==> (#[trigger] rows@[i]).wf(),
        rows@.len() * NUM_COLS <= usize::MAX,
    ensures
        trace.wf(),
        trace.width == NUM_COLS,
        trace.spec_height() == rows@.len(),
        forall|i: int| 0 <= i < rows@.len() ==> #[trigger] trace.spec_row(i) == rows@[i].flat(),
{
    let mut flat: Vec<Vec<Felt>> = Vec::new();
    let mut i: usize = 0;
    while i < rows.len()
        invariant
            i <= rows@.len(),
            forall|j: int| 0 <= j < rows@.len() ==> (#[trigger] rows@[j]).wf(),
            flat@.len() == i,
            forall|j: int| 0 <= j < i ==> (#[trigger] flat@[j])@ == rows@[j].flat(),
            forall|j: int| 0 <= j < i ==> (#[trigger] flat@[j])@.len() == NUM_COLS,
        decreases rows@.len() - i,
    {
        flat.push(rows[i].to_row());
        i = i + 1;
    }
    TraceMatrix::from_rows(&flat, NUM_COLS)
}

} // verus!
