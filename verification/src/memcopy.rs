//! The chips of the two memory-copy syscalls: eight or sixteen words are read at the source and
//! written at the destination, one clock later.
use crate::air::{eq_felt, eq_when, is_bool, ConstraintBuilder, Interaction};
use crate::events::{ExecutionRecord, MemCopyEvent, SyscallCode};
use crate::field::{fadd, felt_of, fone, fzero, Felt};
use crate::lookup::ByteLookupEvent;
use crate::memory::{
    access_events, limbs_from_access, limbs_from_read_access, push_reads, push_writes,
    read_interactions, read_limbs, reads_flat, write_interactions, write_limbs, writes_flat,
    MemoryReadCols, MemoryWriteCols,
};
use crate::trace::{
    height_fits, is_padded_height, next_power_of_two, trace_fits, ConstraintViolation, TraceMatrix,
};
use vstd::prelude::*;

verus! {

/// The chip of a memory-copy syscall that copies `NUM_WORDS` words, which are `NUM_BYTES` bytes.
#[derive(Clone, Copy, Debug)]
pub struct MemCopyChip<const NUM_WORDS: usize, const NUM_BYTES: usize>;

/// The chip of the copy of 32 bytes.
pub type MemCopy32Chip = MemCopyChip<8, 32>;

/// The chip of the copy of 64 bytes.
pub type MemCopy64Chip = MemCopyChip<16, 64>;

/// One row of a memory-copy chip's trace.
#[derive(Debug)]
pub struct MemCopyCols {
    /// Whether the row restates an event; padding rows hold zero.
    pub is_real: Felt,
    /// The shard number of the syscall.
    pub shard: Felt,
    /// Unused; zero.
    pub channel: Felt,
    /// The clock cycle of the syscall.
    pub clk: Felt,
    /// The number of the row.
    pub nonce: Felt,
    /// Where the words are read.
    pub src_ptr: Felt,
    /// Where the words are written.
    pub dst_ptr: Felt,
    /// The reads at the source.
    pub src_access: Vec<MemoryReadCols>,
    /// The writes at the destination.
    pub dst_access: Vec<MemoryWriteCols>,
}

/// The number of columns of the trace of a chip that copies `num_words` words.
pub open spec fn num_cols(num_words: nat) -> nat {
    7 + 22 * num_words
}

/// The syscall that copies `num_words` words.
pub open spec fn copy_code(num_words: nat) -> SyscallCode {
    if num_words == 8 {
        SyscallCode::MEMCPY_32
    } else {
        SyscallCode::MEMCPY_64
    }
}

/// The copy events of a shard for `num_words` words.
pub open spec fn copy_events(record: ExecutionRecord, num_words: nat) -> Seq<MemCopyEvent> {
    if num_words == 8 {
        record.memcpy32_events@
    } else {
        record.memcpy64_events@
    }
}

/// The range-check requests of the first `n` reads of an event.
pub open spec fn src_events(event: MemCopyEvent, n: nat) -> Seq<ByteLookupEvent>
    decreases n,
{
    if n == 0 {
        Seq::empty()
    } else {
        let r = event.read_records@[n - 1];
        src_events(event, (n - 1) as nat) + access_events(
            r.shard,
            r.timestamp,
            r.prev_shard,
            r.prev_timestamp,
        )
    }
}

/// The range-check requests of the first `n` writes of an event.
pub open spec fn dst_events(event: MemCopyEvent, n: nat) -> Seq<ByteLookupEvent>
    decreases n,
{
    if n == 0 {
        Seq::empty()
    } else {
        let r = event.write_records@[n - 1];
        dst_events(event, (n - 1) as nat) + access_events(
            r.shard,
            r.timestamp,
            r.prev_shard,
            r.prev_timestamp,
        )
    }
}

/// The range-check requests that restating `event` appends to the ledger: those of the reads,
/// then those of the writes.
pub open spec fn ledger_events(event: MemCopyEvent) -> Seq<ByteLookupEvent> {
    src_events(event, event.read_records@.len()) + dst_events(event, event.write_records@.len())
}

impl MemCopyCols {
    /// Whether the row has columns for `num_words` words.
    pub open spec fn wf(self, num_words: nat) -> bool {
        self.src_access@.len() == num_words && self.dst_access@.len() == num_words
    }

    /// The cells of the row, in column order.
    pub open spec fn flat(self) -> Seq<Felt> {
        seq![
            self.is_real,
            self.shard,
            self.channel,
            self.clk,
            self.nonce,
            self.src_ptr,
            self.dst_ptr,
        ] + reads_flat(self.src_access@) + writes_flat(self.dst_access@)
    }

    /// Whether the row restates `event` as row number `nonce`.
    pub open spec fn restates(self, event: MemCopyEvent, nonce: nat) -> bool {
        &&& self.wf(event.read_records@.len())
        &&& self.is_real == fone()
        &&& self.shard == felt_of(event.shard as int)
        &&& self.channel == fzero()
        &&& self.clk == felt_of(event.clk as int)
        &&& self.nonce == felt_of(nonce as int)
        &&& self.src_ptr == felt_of(event.src_ptr as int)
        &&& self.dst_ptr == felt_of(event.dst_ptr as int)
        &&& forall|i: int|
            0 <= i < event.read_records@.len() ==> (#[trigger] self.src_access@[i]).restates(
                event.read_records@[i],
            )
        &&& forall|i: int|
            0 <= i < event.write_records@.len() ==> (#[trigger] self.dst_access@[i]).restates(
                event.write_records@[i],
            )
    }

    /// Whether the row is the padding row of number `nonce` for `num_words` words: zero but
    /// for the nonce.
    pub open spec fn is_padding(self, nonce: nat, num_words: nat) -> bool {
        &&& self.wf(num_words)
        &&& self.is_real == fzero()
        &&& self.shard == fzero()
        &&& self.channel == fzero()
        &&& self.clk == fzero()
        &&& self.nonce == felt_of(nonce as int)
        &&& self.src_ptr == fzero()
        &&& self.dst_ptr == fzero()
        &&& forall|i: int| 0 <= i < num_words ==> (#[trigger] self.src_access@[i]).is_zero()
        &&& forall|i: int| 0 <= i < num_words ==> (#[trigger] self.dst_access@[i]).is_zero()
    }

    /// The row that restates `event` as row number `nonce`; the range-check requests that
    /// arise are appended to `ledger`.
    pub fn from_event(event: &MemCopyEvent, nonce: usize, ledger: &mut Vec<ByteLookupEvent>) -> (cols:
        MemCopyCols)
        requires
            event.restatable(event.read_records@.len()),
        ensures
            cols.restates(*event, nonce as nat),
            final(ledger)@ == old(ledger)@ + ledger_events(*event),
    {
        let n: usize = event.read_records.len();
        let mut src_access: Vec<MemoryReadCols> = Vec::new();
        let mut dst_access: Vec<MemoryWriteCols> = Vec::new();
        let mut i: usize = 0;
        assert(ledger@ =~= old(ledger)@ + src_events(*event, 0));
        while i < n
            invariant
                i <= n,
                n == event.read_records@.len(),
                event.restatable(n as nat),
                src_access@.len() == i,
                forall|j: int|
                    0 <= j < i ==> (#[trigger] src_access@[j]).restates(event.read_records@[j]),
                ledger@ == old(ledger)@ + src_events(*event, i as nat),
            decreases n - i,
        {
            let mut c: MemoryReadCols = MemoryReadCols::zero();
            assert(event.read_records@[i as int].wf());
            c.populate(event.read_records[i], ledger);
            src_access.push(c);
            assert(ledger@ =~= old(ledger)@ + src_events(*event, (i + 1) as nat));
            i = i + 1;
        }
        let ghost head = ledger@;
        let mut i: usize = 0;
        assert(ledger@ =~= head + dst_events(*event, 0));
        while i < n
            invariant
                i <= n,
                n == event.read_records@.len(),
                event.restatable(n as nat),
                dst_access@.len() == i,
                forall|j: int|
                    0 <= j < i ==> (#[trigger] dst_access@[j]).restates(event.write_records@[j]),
                ledger@ == head + dst_events(*event, i as nat),
            decreases n - i,
        {
            let mut c: MemoryWriteCols = MemoryWriteCols::zero();
            assert(event.write_records@[i as int].wf());
            c.populate(event.write_records[i], ledger);
            dst_access.push(c);
            assert(ledger@ =~= head + dst_events(*event, (i + 1) as nat));
            i = i + 1;
        }
        assert(ledger@ =~= old(ledger)@ + ledger_events(*event));
        MemCopyCols {
            is_real: Felt::one(),
            shard: Felt::from_canonical_u32(event.shard),
            channel: Felt::zero(),
            clk: Felt::from_canonical_u32(event.clk),
            nonce: Felt::from_canonical_usize(nonce),
            src_ptr: Felt::from_canonical_u32(event.src_ptr),
            dst_ptr: Felt::from_canonical_u32(event.dst_ptr),
            src_access,
            dst_access,
        }
    }

    /// The padding row of number `nonce` for `num_words` words.
    pub fn padding(nonce: usize, num_words: usize) -> (cols: MemCopyCols)
        ensures
            cols.is_padding(nonce as nat, num_words as nat),
    {
        let mut src_access: Vec<MemoryReadCols> = Vec::new();
        let mut dst_access: Vec<MemoryWriteCols> = Vec::new();
        let mut i: usize = 0;
        while i < num_words
            invariant
                i <= num_words,
                src_access@.len() == i,
                dst_access@.len() == i,
                forall|j: int| 0 <= j < i ==> (#[trigger] src_access@[j]).is_zero(),
                forall|j: int| 0 <= j < i ==> (#[trigger] dst_access@[j]).is_zero(),
            decreases num_words - i,
        {
            src_access.push(MemoryReadCols::zero());
            dst_access.push(MemoryWriteCols::zero());
            i = i + 1;
        }
        MemCopyCols {
            is_real: Felt::zero(),
            shard: Felt::zero(),
            channel: Felt::zero(),
            clk: Felt::zero(),
            nonce: Felt::from_canonical_usize(nonce),
            src_ptr: Felt::zero(),
            dst_ptr: Felt::zero(),
            src_access,
            dst_access,
        }
    }

    /// The row for `num_words` words whose cells are `row`, in column order.
    pub fn from_row(row: &[Felt], num_words: usize) -> (cols: MemCopyCols)
        requires
            row@.len() == num_cols(num_words as nat),
        ensures
            cols.wf(num_words as nat),
            cols.flat() == row@,
    {
        let cols = MemCopyCols {
            is_real: row[0],
            shard: row[1],
            channel: row[2],
            clk: row[3],
            nonce: row[4],
            src_ptr: row[5],
            dst_ptr: row[6],
            src_access: crate::memory::read_reads(row, 7, num_words),
            dst_access: crate::memory::read_writes(row, 7 + 9 * num_words, num_words),
        };
        assert(cols.flat() =~= row@);
        cols
    }

    /// The cells of the row, in column order.
    pub fn to_row(&self) -> (row: Vec<Felt>)
        ensures
            row@ == self.flat(),
            forall|n: nat| self.wf(n) ==> row@.len() == num_cols(n),
    {
        let mut row: Vec<Felt> = Vec::new();
        row.push(self.is_real);
        row.push(self.shard);
        row.push(self.channel);
        row.push(self.clk);
        row.push(self.nonce);
        row.push(self.src_ptr);
        row.push(self.dst_ptr);
        push_reads(&mut row, self.src_access.as_slice());
        push_writes(&mut row, self.dst_access.as_slice());
        proof {
            crate::memory::lemma_reads_flat_len(self.src_access@);
            crate::memory::lemma_writes_flat_len(self.dst_access@);
            assert(row@ =~= self.flat());
        }
        row
    }
}

/// The range-check requests that restating the first `n` events appends to the ledger.
pub open spec fn trace_events(events: Seq<MemCopyEvent>, n: nat) -> Seq<ByteLookupEvent>
    decreases n,
{
    if n == 0 {
        Seq::empty()
    } else {
        trace_events(events, (n - 1) as nat) + ledger_events(events[n - 1])
    }
}

/// Whether `rows` are the trace of `events`, each a copy of `num_words` words: a row for each
/// event, in the events' order, and padding rows after them, each with its number as nonce.
pub open spec fn rows_restate(rows: Seq<MemCopyCols>, events: Seq<MemCopyEvent>, num_words: nat) -> bool {
    &&& rows.len() >= events.len()
    &&& forall|i: int| 0 <= i < events.len() ==> (#[trigger] rows[i]).restates(events[i], i as nat)
    &&& forall|i: int|
        events.len() <= i < rows.len() ==> (#[trigger] rows[i]).is_padding(i as nat, num_words)
}

/// Whether the chip can build a row from every event of a run, each a copy of `num_words`
/// words.
pub open spec fn events_restatable(events: Seq<MemCopyEvent>, num_words: nat) -> bool {
    forall|i: int| 0 <= i < events.len() ==> (#[trigger] events[i]).restatable(num_words)
}

/// Whether every event of a run is a copy of `num_words` words whose journal writes each
/// word as it was read.
pub open spec fn events_wf(events: Seq<MemCopyEvent>, num_words: nat) -> bool {
    forall|i: int| 0 <= i < events.len() ==> (#[trigger] events[i]).wf(num_words)
}

/// The constraints on a row and the row after it.
pub open spec fn constraints(
    local: MemCopyCols,
    next: MemCopyCols,
    is_first_row: bool,
    is_transition: bool,
) -> bool {
    &&& is_first_row ==> crate::air::is_zero(local.nonce)
    &&& is_transition ==> eq_felt(fadd(local.nonce, fone()), next.nonce)
    &&& is_bool(local.is_real)
    &&& forall|i: int|
        0 <= i < 4 * local.src_access@.len() ==> eq_when(
            local.is_real,
            #[trigger] read_limbs(local.src_access@)[i],
            write_limbs(local.dst_access@)[i],
        )
}

/// The interactions of a row: the reads at the source, at the syscall's clock; the writes at
/// the destination, one clock later; and the syscall, received once where the row is real.
pub open spec fn interactions(local: MemCopyCols, code: SyscallCode) -> Seq<Interaction> {
    read_interactions(local.shard, local.clk, local.src_ptr, local.src_access@, local.is_real)
        + write_interactions(
        local.shard,
        fadd(local.clk, fone()),
        local.dst_ptr,
        local.dst_access@,
        local.is_real,
    ) + seq![
        Interaction::Syscall {
            shard: local.shard,
            clk: local.clk,
            nonce: local.nonce,
            syscall_id: felt_of((crate::events::syscall_code(code) % 256) as int),
            arg1: local.src_ptr,
            arg2: local.dst_ptr,
            multiplicity: local.is_real,
        },
    ]
}

/// For each row of a trace, whether it satisfies the constraints with the row after it, the
/// last row paired with the first.
pub open spec fn row_verdicts(rows: Seq<MemCopyCols>) -> Seq<bool> {
    Seq::new(
        rows.len(),
        |i: int| constraints(rows[i], rows[(i + 1) % (rows.len() as int)], i == 0, i + 1 < rows.len()),
    )
}

/// Whether every row of a trace satisfies the constraints, the last row paired with the
/// first.
pub open spec fn trace_satisfies(rows: Seq<MemCopyCols>) -> bool {
    forall|i: int|
        0 <= i < rows.len() ==> constraints(
            #[trigger] rows[i],
            rows[(i + 1) % (rows.len() as int)],
            i == 0,
            i + 1 < rows.len(),
        )
}

/// The trace of well-formed events satisfies the chip's constraints on every row.
pub proof fn lemma_trace_sound(rows: Seq<MemCopyCols>, events: Seq<MemCopyEvent>, num_words: nat)
    requires
        rows_restate(rows, events, num_words),
        events_wf(events, num_words),
    ensures
        trace_satisfies(rows),
{
    assert forall|i: int| 0 <= i < rows.len() implies constraints(
        #[trigger] rows[i],
        rows[(i + 1) % (rows.len() as int)],
        i == 0,
        i + 1 < rows.len(),
    ) by {
        let local = rows[i];
        crate::bn254_mul_add::lemma_nonce_steps(i as nat);
        if i + 1 < rows.len() {
            assert((i + 1) % (rows.len() as int) == i + 1) by {
                vstd::arithmetic::div_mod::lemma_small_mod((i + 1) as nat, rows.len());
            }
            let next = rows[i + 1];
            assert(next.nonce == felt_of(i + 1)) by {
                if i + 1 < events.len() {
                    assert(next.restates(events[i + 1], (i + 1) as nat));
                } else {
                    assert(next.is_padding((i + 1) as nat, num_words));
                }
            }
        }
        crate::air::lemma_is_bool_flag(true);
        if i < events.len() {
            let event = events[i];
            assert(local.restates(event, i as nat));
            assert(event.wf(num_words));
            crate::events::lemma_read_limbs(local.src_access@, event.read_records@);
            crate::events::lemma_write_limbs(local.dst_access@, event.write_records@);
            assert forall|k: int| 0 <= k < 4 * local.src_access@.len() implies eq_when(
                local.is_real,
                #[trigger] read_limbs(local.src_access@)[k],
                write_limbs(local.dst_access@)[k],
            ) by {
                crate::air::lemma_eq_felt_same(
                    read_limbs(local.src_access@)[k],
                    write_limbs(local.dst_access@)[k],
                );
            }
        } else {
            assert(local.is_padding(i as nat, num_words));
            assert forall|k: int| 0 <= k < 4 * local.src_access@.len() implies eq_when(
                local.is_real,
                #[trigger] read_limbs(local.src_access@)[k],
                write_limbs(local.dst_access@)[k],
            ) by {
                crate::air::lemma_zero_when_zero(
                    local.is_real,
                    crate::field::fsub(
                        read_limbs(local.src_access@)[k],
                        write_limbs(local.dst_access@)[k],
                    ),
                );
            }
        }
    }
}

/// The nonce column counts the rows, and `is_real` tells the rows of events from the padding
/// rows.
pub proof fn lemma_nonce_column(
    rows: Seq<MemCopyCols>,
    events: Seq<MemCopyEvent>,
    num_words: nat,
    i: int,
)
    requires
        rows_restate(rows, events, num_words),
        0 <= i < rows.len(),
    ensures
        rows[i].nonce == felt_of(i),
        rows[i].is_real == crate::field::fbool(i < events.len()),
        rows[i].flat()[4] == rows[i].nonce,
        rows[i].flat()[0] == rows[i].is_real,
{
    if i < events.len() {
        assert(rows[i].restates(events[i], i as nat));
    } else {
        assert(rows[i].is_padding(i as nat, num_words));
    }
}

/// Whether `trace` is the trace of `events`, each a copy of `num_words` words.
pub open spec fn is_trace_of(trace: TraceMatrix, events: Seq<MemCopyEvent>, num_words: nat) -> bool {
    exists|rows: Seq<MemCopyCols>|
        {
            &&& #[trigger] rows_restate(rows, events, num_words)
            &&& rows.len() == trace.spec_height()
            &&& events_wf(events, num_words) ==> trace_satisfies(rows)
            &&& forall|i: int| 0 <= i < rows.len() ==> #[trigger] trace.spec_row(i) == rows[i].flat()
        }
}

/// The matrix whose rows are the cells of `rows`.
pub fn flatten_rows(rows: &Vec<MemCopyCols>, num_words: usize) -> (trace: TraceMatrix)
    requires
        forall|i: int| 0 <= i < rows@.len() ==> (#[trigger] rows@[i]).wf(num_words as nat),
        7 + 22 * num_words <= usize::MAX,
        rows@.len() * (7 + 22 * num_words) <= usize::MAX,
    ensures
        trace.wf(),
        trace.width == num_cols(num_words as nat),
        trace.spec_height() == rows@.len(),
        forall|i: int| 0 <= i < rows@.len() ==> #[trigger] trace.spec_row(i) == rows@[i].flat(),
{
    let width: usize = 7 + 22 * num_words;
    let mut flat: Vec<Vec<Felt>> = Vec::new();
    let mut i: usize = 0;
    while i < rows.len()
        invariant
            i <= rows@.len(),
            width == num_cols(num_words as nat),
            forall|j: int| 0 <= j < rows@.len() ==> (#[trigger] rows@[j]).wf(num_words as nat),
            flat@.len() == i,
            forall|j: int| 0 <= j < i ==> (#[trigger] flat@[j])@ == rows@[j].flat(),
            forall|j: int| 0 <= j < i ==> (#[trigger] flat@[j])@.len() == width,
        decreases rows@.len() - i,
    {
        assert(rows@[i as int].wf(num_words as nat));
        flat.push(rows[i].to_row());
        i = i + 1;
    }
    TraceMatrix::from_rows(&flat, width)
}

/// Whether `rows` are the rows of `trace` for `num_words` words, cell by cell.
pub open spec fn rows_fill(rows: Seq<MemCopyCols>, trace: TraceMatrix, num_words: nat) -> bool {
    &&& rows.len() == trace.spec_height()
    &&& forall|i: int|
        0 <= i < rows.len() ==> (#[trigger] rows[i]).wf(num_words) && rows[i].flat()
            == trace.spec_row(i)
}

/// Whether `r` is the verdict on `trace`: the verdict on its rows.
pub open spec fn is_trace_verdict(
    r: Result<(), ConstraintViolation>,
    trace: TraceMatrix,
    num_words: nat,
) -> bool {
    exists|rows: Seq<MemCopyCols>|
        #[trigger] rows_fill(rows, trace, num_words) && crate::trace::is_verdict(
            r,
            row_verdicts(rows),
        )
}

/// Whether a pair of rows satisfies the constraints depends on the rows' cells alone.
pub proof fn lemma_constraints_by_cells(
    x: MemCopyCols,
    x_next: MemCopyCols,
    y: MemCopyCols,
    y_next: MemCopyCols,
    num_words: nat,
    is_first_row: bool,
    is_transition: bool,
)
    requires
        x.wf(num_words),
        y.wf(num_words),
        x_next.wf(num_words),
        y_next.wf(num_words),
        x.flat() == y.flat(),
        x_next.flat() == y_next.flat(),
    ensures
        constraints(x, x_next, is_first_row, is_transition) == constraints(
            y,
            y_next,
            is_first_row,
            is_transition,
        ),
{
    lemma_parts_by_cells(x, y, num_words);
    lemma_parts_by_cells(x_next, y_next, num_words);
    crate::memory::lemma_reads_by_cells(x.src_access@, y.src_access@);
    crate::memory::lemma_writes_by_cells(x.dst_access@, y.dst_access@);
}

/// Rows with the same cells hold the same groups of cells.
pub proof fn lemma_parts_by_cells(x: MemCopyCols, y: MemCopyCols, num_words: nat)
    requires
        x.wf(num_words),
        y.wf(num_words),
        x.flat() == y.flat(),
    ensures
        x.nonce == y.nonce,
        x.is_real == y.is_real,
        reads_flat(x.src_access@) == reads_flat(y.src_access@),
        writes_flat(x.dst_access@) == writes_flat(y.dst_access@),
{
    let f = x.flat();
    let g = y.flat();
    crate::memory::lemma_reads_flat_len(x.src_access@);
    crate::memory::lemma_writes_flat_len(x.dst_access@);
    crate::memory::lemma_reads_flat_len(y.src_access@);
    crate::memory::lemma_writes_flat_len(y.dst_access@);
    assert(x.nonce == f[4] && y.nonce == g[4]);
    assert(x.is_real == f[0] && y.is_real == g[0]);
    let m: int = 7 + 9 * (num_words as int);
    assert(reads_flat(x.src_access@) =~= f.subrange(7, m));
    assert(reads_flat(y.src_access@) =~= g.subrange(7, m));
    assert(writes_flat(x.dst_access@) =~= f.subrange(m, m + 13 * num_words));
    assert(writes_flat(y.dst_access@) =~= g.subrange(m, m + 13 * num_words));
}

/// Two verdicts on the same matrix agree: both are success, or both name the same first row
/// in violation.
pub proof fn lemma_trace_verdict_unique(
    first: Result<(), ConstraintViolation>,
    second: Result<(), ConstraintViolation>,
    trace: TraceMatrix,
    num_words: nat,
)
    requires
        is_trace_verdict(first, trace, num_words),
        is_trace_verdict(second, trace, num_words),
    ensures
        first is Ok <==> second is Ok,
        first is Err ==> first->Err_0.row == second->Err_0.row,
{
    let a = choose|rows: Seq<MemCopyCols>|
        #[trigger] rows_fill(rows, trace, num_words) && crate::trace::is_verdict(
            first,
            row_verdicts(rows),
        );
    let b = choose|rows: Seq<MemCopyCols>|
        #[trigger] rows_fill(rows, trace, num_words) && crate::trace::is_verdict(
            second,
            row_verdicts(rows),
        );
    let n = a.len() as int;
    assert forall|i: int| 0 <= i < n implies row_verdicts(a)[i] == row_verdicts(b)[i] by {
        let j = (i + 1) % n;
        lemma_constraints_by_cells(a[i], a[j], b[i], b[j], num_words, i == 0, i + 1 < n);
    }
    assert(row_verdicts(a) =~= row_verdicts(b));
    crate::trace::lemma_verdict_unique(first, second, row_verdicts(a));
}

/// The rows of `trace`.
pub fn unflatten_rows(trace: &TraceMatrix, num_words: usize) -> (rows: Vec<MemCopyCols>)
    requires
        trace.wf(),
        trace.width == num_cols(num_words as nat),
    ensures
        rows_fill(rows@, *trace, num_words as nat),
{
    let height: usize = trace.height();
    let mut rows: Vec<MemCopyCols> = Vec::new();
    let mut i: usize = 0;
    while i < height
        invariant
            i <= height,
            height == trace.spec_height(),
            trace.wf(),
            trace.width == num_cols(num_words as nat),
            rows@.len() == i,
            forall|j: int|
                0 <= j < i ==> (#[trigger] rows@[j]).wf(num_words as nat) && rows@[j].flat()
                    == trace.spec_row(j),
        decreases height - i,
    {
        let cells: Vec<Felt> = trace.row_slice(i);
        rows.push(MemCopyCols::from_row(cells.as_slice(), num_words));
        i = i + 1;
    }
    rows
}

impl<const NUM_WORDS: usize, const NUM_BYTES: usize> MemCopyChip<NUM_WORDS, NUM_BYTES> {
    /// Whether the chip is one of the two that exist: for eight words or for sixteen, at four
    /// bytes to a word.
    pub open spec fn wf() -> bool {
        NUM_WORDS * 4 == NUM_BYTES && (NUM_WORDS == 8 || NUM_WORDS == 16)
    }

    /// The chip.
    pub fn new() -> (chip: Self)
        requires
            NUM_WORDS * 4 == NUM_BYTES,
    {
        MemCopyChip
    }

    /// The syscall that the chip serves.
    pub fn syscall_code() -> (code: SyscallCode)
        requires
            NUM_BYTES == 32 || NUM_BYTES == 64,
        ensures
            code == (if NUM_BYTES == 32 {
                SyscallCode::MEMCPY_32
            } else {
                SyscallCode::MEMCPY_64
            }),
    {
        if NUM_BYTES == 32 {
            SyscallCode::MEMCPY_32
        } else {
            SyscallCode::MEMCPY_64
        }
    }

    /// The identifier of the syscall that the chip serves.
    pub fn syscall_id() -> (id: u32)
        requires
            NUM_BYTES == 32 || NUM_BYTES == 64,
        ensures
            id == crate::events::syscall_code(
                if NUM_BYTES == 32 {
                    SyscallCode::MEMCPY_32
                } else {
                    SyscallCode::MEMCPY_64
                },
            ) % 256,
    {
        Self::syscall_code().syscall_id()
    }

    /// The name of the chip.
    pub fn name(&self) -> (name: String)
        requires
            NUM_WORDS == 8 || NUM_WORDS == 16,
        ensures
            name@ == (if NUM_WORDS == 8 {
                "MemCopy8Chip"@
            } else {
                "MemCopy16Chip"@
            }),
    {
        if NUM_WORDS == 8 {
            "MemCopy8Chip".to_owned()
        } else {
            "MemCopy16Chip".to_owned()
        }
    }

    /// The number of columns of the chip's trace.
    pub fn width(&self) -> (w: usize)
        requires
            NUM_WORDS == 8 || NUM_WORDS == 16,
        ensures
            w == num_cols(NUM_WORDS as nat),
    {
        7 + 22 * NUM_WORDS
    }

    /// Whether a shard's proof includes the chip: whether the shard holds an event of the
    /// chip's syscall.
    pub fn included(&self, shard: &ExecutionRecord) -> (r: bool)
        requires
            NUM_WORDS == 8 || NUM_WORDS == 16,
        ensures
            r == (copy_events(*shard, NUM_WORDS as nat).len() > 0),
    {
        if NUM_WORDS == 8 {
            shard.memcpy32_events.len() > 0
        } else {
            shard.memcpy64_events.len() > 0
        }
    }

    /// The rows of the chip's trace for a shard: one row for each copy event of `input`, in the
    /// events' order, then padding rows up to the padded height. The range-check requests that
    /// the rows give rise to are appended to `output`'s ledger.
    pub fn generate_rows(&self, input: &ExecutionRecord, output: &mut ExecutionRecord) -> (rows:
        Vec<MemCopyCols>)
        requires
            Self::wf(),
            events_restatable(copy_events(*input, NUM_WORDS as nat), NUM_WORDS as nat),
            height_fits(
                copy_events(*input, NUM_WORDS as nat).len(),
                input.spec_fixed_log2_rows(copy_code(NUM_WORDS as nat)),
            ),
        ensures
            rows_restate(rows@, copy_events(*input, NUM_WORDS as nat), NUM_WORDS as nat),
            is_padded_height(
                rows@.len(),
                copy_events(*input, NUM_WORDS as nat).len(),
                input.spec_fixed_log2_rows(copy_code(NUM_WORDS as nat)),
            ),
            events_wf(copy_events(*input, NUM_WORDS as nat), NUM_WORDS as nat) ==> trace_satisfies(
                rows@,
            ),
            final(output).byte_lookups@ == old(output).byte_lookups@ + trace_events(
                copy_events(*input, NUM_WORDS as nat),
                copy_events(*input, NUM_WORDS as nat).len(),
            ),
            final(output).same_events(*old(output)),
    {
        let events: &Vec<MemCopyEvent> = if NUM_WORDS == 8 {
            &input.memcpy32_events
        } else {
            &input.memcpy64_events
        };
        let code: SyscallCode = if NUM_WORDS == 8 {
            SyscallCode::MEMCPY_32
        } else {
            SyscallCode::MEMCPY_64
        };
        let n: usize = events.len();
        let height: usize = next_power_of_two(n, input.fixed_log2_rows(code));
        let mut rows: Vec<MemCopyCols> = Vec::new();
        let mut ledger: Vec<ByteLookupEvent> = Vec::new();
        let mut i: usize = 0;
        while i < n
            invariant
                i <= n,
                n == events@.len(),
                events_restatable(events@, NUM_WORDS as nat),
                rows@.len() == i,
                forall|j: int| 0 <= j < i ==> (#[trigger] rows@[j]).restates(events@[j], j as nat),
                ledger@ == trace_events(events@, i as nat),
            decreases n - i,
        {
            assert(events@[i as int].restatable(NUM_WORDS as nat));
            let row = MemCopyCols::from_event(&events[i], i, &mut ledger);
            rows.push(row);
            assert(ledger@ =~= trace_events(events@, (i + 1) as nat));
            i = i + 1;
        }
        while i < height
            invariant
                n <= i <= height,
                n == events@.len(),
                rows@.len() == i,
                forall|j: int| 0 <= j < n ==> (#[trigger] rows@[j]).restates(events@[j], j as nat),
                forall|j: int|
                    n <= j < i ==> (#[trigger] rows@[j]).is_padding(j as nat, NUM_WORDS as nat),
            decreases height - i,
        {
            rows.push(MemCopyCols::padding(i, NUM_WORDS));
            i = i + 1;
        }
        proof {
            if events_wf(events@, NUM_WORDS as nat) {
                lemma_trace_sound(rows@, events@, NUM_WORDS as nat);
            }
        }
        output.add_byte_lookup_events(ledger);
        rows
    }

    /// The chip's trace for a shard, as a matrix: the rows of [`Self::generate_rows`], cell by
    /// cell.
    pub fn generate_trace(&self, input: &ExecutionRecord, output: &mut ExecutionRecord) -> (trace:
        TraceMatrix)
        requires
            Self::wf(),
            events_restatable(copy_events(*input, NUM_WORDS as nat), NUM_WORDS as nat),
            trace_fits(
                copy_events(*input, NUM_WORDS as nat).len(),
                input.spec_fixed_log2_rows(copy_code(NUM_WORDS as nat)),
                num_cols(NUM_WORDS as nat),
            ),
        ensures
            trace.wf(),
            trace.width == num_cols(NUM_WORDS as nat),
            is_padded_height(
                trace.spec_height(),
                copy_events(*input, NUM_WORDS as nat).len(),
                input.spec_fixed_log2_rows(copy_code(NUM_WORDS as nat)),
            ),
            is_trace_of(trace, copy_events(*input, NUM_WORDS as nat), NUM_WORDS as nat),
            crate::trace::rows_are_numbered(
                trace,
                4,
                0,
                copy_events(*input, NUM_WORDS as nat).len(),
            ),
            final(output).byte_lookups@ == old(output).byte_lookups@ + trace_events(
                copy_events(*input, NUM_WORDS as nat),
                copy_events(*input, NUM_WORDS as nat).len(),
            ),
            final(output).same_events(*old(output)),
    {
        let rows: Vec<MemCopyCols> = self.generate_rows(input, output);
        proof {
            crate::trace::lemma_trace_fits(
                rows@.len(),
                copy_events(*input, NUM_WORDS as nat).len(),
                input.spec_fixed_log2_rows(copy_code(NUM_WORDS as nat)),
                num_cols(NUM_WORDS as nat),
            );
            assert forall|i: int| 0 <= i < rows@.len() implies (#[trigger] rows@[i]).wf(
                NUM_WORDS as nat,
            ) by {
                let events = copy_events(*input, NUM_WORDS as nat);
                if i < events.len() {
                    assert(rows@[i].restates(events[i], i as nat));
                    assert(events[i].restatable(NUM_WORDS as nat));
                } else {
                    assert(rows@[i].is_padding(i as nat, NUM_WORDS as nat));
                }
            }
        }
        let trace = flatten_rows(&rows, NUM_WORDS);
        assert(rows_restate(rows@, copy_events(*input, NUM_WORDS as nat), NUM_WORDS as nat));
        proof {
            let events = copy_events(*input, NUM_WORDS as nat);
            assert forall|i: int| 0 <= i < trace.spec_height() implies (#[trigger] trace.spec_row(
                i,
            ))[4] == felt_of(i) && trace.spec_row(i)[0] == crate::field::fbool(i < events.len()) by {
                lemma_nonce_column(rows@, events, NUM_WORDS as nat, i);
            }
        }
        trace
    }

    /// Asserts the chip's constraints on a row and the row after it, and declares the row's
    /// interactions.
    pub fn eval(&self, builder: &mut ConstraintBuilder, local: &MemCopyCols, next: &MemCopyCols)
        requires
            Self::wf(),
            local.wf(NUM_WORDS as nat),
        ensures
            final(builder).extends(
                *old(builder),
                constraints(*local, *next, old(builder).is_first_row, old(builder).is_transition),
                interactions(*local, copy_code(NUM_WORDS as nat)),
            ),
    {
        builder.assert_zero_first_row(local.nonce);
        builder.assert_eq_transition(local.nonce.add(Felt::one()), next.nonce);
        let src: Vec<Felt> = limbs_from_read_access(local.src_access.as_slice());
        let dst: Vec<Felt> = limbs_from_access(local.dst_access.as_slice());
        let ghost start = *builder;
        let mut i: usize = 0;
        while i < 4 * NUM_WORDS
            invariant
                i <= 4 * NUM_WORDS,
                NUM_WORDS == 8 || NUM_WORDS == 16,
                local.wf(NUM_WORDS as nat),
                src@ == read_limbs(local.src_access@),
                dst@ == write_limbs(local.dst_access@),
                builder.asserted(
                    start,
                    forall|k: int| 0 <= k < i ==> eq_when(local.is_real, #[trigger] src@[k], dst@[k]),
                ),
            decreases 4 * NUM_WORDS - i,
        {
            builder.assert_eq_when(local.is_real, src[i], dst[i]);
            i = i + 1;
        }
        builder.eval_memory_read_slice(
            local.shard,
            local.clk,
            local.src_ptr,
            local.src_access.as_slice(),
            local.is_real,
        );
        builder.eval_memory_write_slice(
            local.shard,
            local.clk.add(Felt::one()),
            local.dst_ptr,
            local.dst_access.as_slice(),
            local.is_real,
        );
        let code: SyscallCode = if NUM_WORDS == 8 {
            SyscallCode::MEMCPY_32
        } else {
            SyscallCode::MEMCPY_64
        };
        builder.receive_syscall(
            local.shard,
            local.clk,
            local.nonce,
            Felt::from_canonical_u32(code.syscall_id()),
            local.src_ptr,
            local.dst_ptr,
            local.is_real,
        );
        assert(builder.interactions@ =~= old(builder).interactions@ + interactions(
            *local,
            copy_code(NUM_WORDS as nat),
        ));
    }

    /// Evaluates the constraints on every row of a trace given as a matrix, the last row paired
    /// with the first, and reports the first row at which one is violated.
    pub fn check_trace(&self, trace: &TraceMatrix) -> (r: Result<(), ConstraintViolation>)
        requires
            Self::wf(),
            trace.wf(),
            trace.width == num_cols(NUM_WORDS as nat),
        ensures
            is_trace_verdict(r, *trace, NUM_WORDS as nat),
            r matches Err(v) ==> v.chip@ == (if NUM_WORDS == 8 {
                "MemCopy8Chip"@
            } else {
                "MemCopy16Chip"@
            }),
    {
        let rows: Vec<MemCopyCols> = unflatten_rows(trace, NUM_WORDS);
        let r = self.check_rows(&rows);
        assert(rows_fill(rows@, *trace, NUM_WORDS as nat));
        r
    }

    /// Evaluates the constraints on every row of a trace, the last row paired with the first,
    /// and reports the first row at which one is violated.
    pub fn check_rows(&self, rows: &Vec<MemCopyCols>) -> (r: Result<(), ConstraintViolation>)
        requires
            Self::wf(),
            forall|i: int| 0 <= i < rows@.len() ==> (#[trigger] rows@[i]).wf(NUM_WORDS as nat),
        ensures
            r is Ok <==> trace_satisfies(rows@),
            crate::trace::is_verdict(r, row_verdicts(rows@)),
            r matches Err(v) ==> {
                &&& v.chip@ == (if NUM_WORDS == 8 {
                    "MemCopy8Chip"@
                } else {
                    "MemCopy16Chip"@
                })
                &&& v.row < rows@.len()
                &&& !constraints(
                    rows@[v.row as int],
                    rows@[(v.row + 1) % (rows@.len() as int)],
                    v.row == 0,
                    v.row + 1 < rows@.len(),
                )
                &&& forall|j: int|
                    0 <= j < v.row ==> constraints(
                        #[trigger] rows@[j],
                        rows@[(j + 1) % (rows@.len() as int)],
                        j == 0,
                        j + 1 < rows@.len(),
                    )
            },
    {
        let n: usize = rows.len();
        let mut i: usize = 0;
        while i < n
            invariant
                i <= n,
                n == rows@.len(),
                Self::wf(),
                forall|j: int| 0 <= j < rows@.len() ==> (#[trigger] rows@[j]).wf(NUM_WORDS as nat),
                forall|j: int|
                    0 <= j < i ==> constraints(
                        #[trigger] rows@[j],
                        rows@[(j + 1) % (rows@.len() as int)],
                        j == 0,
                        j + 1 < rows@.len(),
                    ),
            decreases n - i,
        {
            let next: usize = if i + 1 < n {
                i + 1
            } else {
                0
            };
            proof {
                if i + 1 < n {
                    vstd::arithmetic::div_mod::lemma_small_mod((i + 1) as nat, n as nat);
                } else {
                    vstd::arithmetic::div_mod::lemma_mod_self_0(n as int);
                }
            }
            let mut builder = ConstraintBuilder::new(i == 0, i + 1 < n);
            self.eval(&mut builder, &rows[i], &rows[next]);
            if !builder.ok {
                return Err(ConstraintViolation { chip: self.name(), row: i });
            }
            i = i + 1;
        }
        Ok(())
    }
}

} // verus!
