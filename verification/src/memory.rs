//! The memory access journal's records, and the trace columns that restate them.
use crate::air::{is_bool, ConstraintBuilder, Interaction};
use crate::field::{fadd, fbool, felt_of, Felt};
use crate::limbs::word_bytes;
use crate::lookup::{
    add_u16_range_check, add_u8_range_check, u16_range_event, u8_range_event, ByteLookupEvent,
};
use vstd::prelude::*;

verus! {

/// The number of bytes of a memory word.
pub const WORD_SIZE: usize = 4;

/// One read of a memory word, as the journal holds it.
#[derive(Clone, Copy, Debug, PartialEq, Eq, Structural)]
pub struct MemoryReadRecord {
    /// The address of the word.
    pub addr: u32,
    /// The value read, which is the value that the last access left.
    pub value: u32,
    /// The shard of the read.
    pub shard: u32,
    /// The clock of the read.
    pub timestamp: u32,
    /// The shard of the last access before it.
    pub prev_shard: u32,
    /// The clock of the last access before it.
    pub prev_timestamp: u32,
}

/// One write of a memory word, as the journal holds it.
#[derive(Clone, Copy, Debug, PartialEq, Eq, Structural)]
pub struct MemoryWriteRecord {
    /// The address of the word.
    pub addr: u32,
    /// The value written.
    pub value: u32,
    /// The shard of the write.
    pub shard: u32,
    /// The clock of the write.
    pub timestamp: u32,
    /// The value that the last access left.
    pub prev_value: u32,
    /// The shard of the last access before it.
    pub prev_shard: u32,
    /// The clock of the last access before it.
    pub prev_timestamp: u32,
}

/// Whether an access at `(shard, timestamp)` comes after one at `(prev_shard,
/// prev_timestamp)`: in a later shard, or in the same shard at a later clock.
pub open spec fn comes_after(shard: u32, timestamp: u32, prev_shard: u32, prev_timestamp: u32) -> bool {
    prev_shard < shard || (prev_shard == shard && prev_timestamp < timestamp)
}

impl MemoryReadRecord {
    /// Whether the read comes after the access before it.
    pub open spec fn wf(self) -> bool {
        comes_after(self.shard, self.timestamp, self.prev_shard, self.prev_timestamp)
    }

    /// Whether the read comes after the access before it.
    pub fn is_wf(&self) -> (r: bool)
        ensures
            r == self.wf(),
    {
        self.prev_shard < self.shard || (self.prev_shard == self.shard && self.prev_timestamp
            < self.timestamp)
    }
}

impl MemoryWriteRecord {
    /// Whether the write comes after the access before it.
    pub open spec fn wf(self) -> bool {
        comes_after(self.shard, self.timestamp, self.prev_shard, self.prev_timestamp)
    }

    /// Whether the write comes after the access before it.
    pub fn is_wf(&self) -> (r: bool)
        ensures
            r == self.wf(),
    {
        self.prev_shard < self.shard || (self.prev_shard == self.shard && self.prev_timestamp
            < self.timestamp)
    }
}

/// The four byte limbs of a memory word, lowest first.
#[derive(Clone, Copy, Debug)]
pub struct Word {
    pub bytes: [Felt; 4],
}

/// The columns that every access has: the value it left and the time of the access before it,
/// with the witnesses that the access came later.
#[derive(Clone, Copy, Debug)]
pub struct MemoryAccessCols {
    /// The value that the access left.
    pub value: Word,
    /// The shard of the access before it.
    pub prev_shard: Felt,
    /// The clock of the access before it.
    pub prev_clk: Felt,
    /// Whether both accesses are in one shard, so that clocks are compared and not shards.
    pub compare_clk: Felt,
    /// The low sixteen bits of the distance between the two times, less one.
    pub diff_16bit_limb: Felt,
    /// The next eight bits of that distance.
    pub diff_8bit_limb: Felt,
}

/// The columns of a read.
#[derive(Clone, Copy, Debug)]
pub struct MemoryReadCols {
    pub access: MemoryAccessCols,
}

/// The columns of a write.
#[derive(Clone, Copy, Debug)]
pub struct MemoryWriteCols {
    /// The value that the access before it left.
    pub prev_value: Word,
    pub access: MemoryAccessCols,
}

/// The limbs of a word, as field elements.
pub open spec fn word_limbs(w: u32) -> Seq<Felt> {
    Seq::new(4, |i: int| Felt { value: word_bytes(w)[i] as u32 })
}

/// The distance between two times, less one: between the clocks where the shards agree,
/// between the shards where they do not.
pub open spec fn time_gap(shard: u32, timestamp: u32, prev_shard: u32, prev_timestamp: u32) -> int {
    if prev_shard == shard {
        timestamp - prev_timestamp - 1
    } else {
        shard - prev_shard - 1
    }
}

impl MemoryAccessCols {
    /// Whether the columns restate an access at `(shard, timestamp)` that left `value`, after
    /// one at `(prev_shard, prev_timestamp)`.
    pub open spec fn restates(
        self,
        value: u32,
        shard: u32,
        timestamp: u32,
        prev_shard: u32,
        prev_timestamp: u32,
    ) -> bool {
        let gap = time_gap(shard, timestamp, prev_shard, prev_timestamp);
        &&& self.value.bytes@ == word_limbs(value)
        &&& self.prev_shard == felt_of(prev_shard as int)
        &&& self.prev_clk == felt_of(prev_timestamp as int)
        &&& self.compare_clk == fbool(prev_shard == shard)
        &&& self.diff_16bit_limb == felt_of(gap % 0x1_0000)
        &&& self.diff_8bit_limb == felt_of((gap / 0x1_0000) % 0x100)
    }
}

/// The two range-check requests of one access: for the low sixteen bits of the distance
/// between the two times and for the next eight.
pub open spec fn access_events(
    shard: u32,
    timestamp: u32,
    prev_shard: u32,
    prev_timestamp: u32,
) -> Seq<ByteLookupEvent> {
    let gap = time_gap(shard, timestamp, prev_shard, prev_timestamp);
    seq![
        u16_range_event(shard, (gap % 0x1_0000) as u16),
        u8_range_event(shard, 0, ((gap / 0x1_0000) % 0x100) as u8),
    ]
}

/// The field element that the limbs of a word spell: the limbs taken highest first, each step
/// multiplying by 256 and adding the next.
pub open spec fn word_felt(w: Word) -> Felt {
    let c = felt_of(256);
    fadd(
        crate::field::fmul(
            fadd(
                crate::field::fmul(
                    fadd(
                        crate::field::fmul(
                            fadd(crate::field::fmul(crate::field::fzero(), c), w.bytes@[3]),
                            c,
                        ),
                        w.bytes@[2],
                    ),
                    c,
                ),
                w.bytes@[1],
            ),
            c,
        ),
        w.bytes@[0],
    )
}

impl Word {
    /// The field element that the limbs spell.
    pub fn reduce(&self) -> (f: Felt)
        ensures
            f == word_felt(*self),
    {
        let c: Felt = Felt::from_canonical_u32(256);
        let mut acc: Felt = Felt::zero();
        acc = acc.mul(c).add(self.bytes[3]);
        acc = acc.mul(c).add(self.bytes[2]);
        acc = acc.mul(c).add(self.bytes[1]);
        acc = acc.mul(c).add(self.bytes[0]);
        acc
    }

    /// The word whose limbs are all zero.
    pub fn zero() -> (w: Word)
        ensures
            w.bytes@ == word_limbs(0),
    {
        let z = Felt::zero();
        let w = Word { bytes: [z, z, z, z] };
        assert(w.bytes@ =~= word_limbs(0));
        w
    }

    /// The limbs of `value`.
    pub fn from_u32(value: u32) -> (w: Word)
        ensures
            w.bytes@ == word_limbs(value),
    {
        let w = Word {
            bytes: [
                Felt::from_canonical_u8((value % 256) as u8),
                Felt::from_canonical_u8(((value / 0x100) % 256) as u8),
                Felt::from_canonical_u8(((value / 0x1_0000) % 256) as u8),
                Felt::from_canonical_u8(((value / 0x100_0000) % 256) as u8),
            ],
        };
        assert(w.bytes@ =~= word_limbs(value));
        w
    }
}

impl MemoryAccessCols {
    /// Whether every cell is zero.
    pub open spec fn is_zero(self) -> bool {
        &&& self.value.bytes@ == word_limbs(0)
        &&& self.prev_shard == crate::field::fzero()
        &&& self.prev_clk == crate::field::fzero()
        &&& self.compare_clk == crate::field::fzero()
        &&& self.diff_16bit_limb == crate::field::fzero()
        &&& self.diff_8bit_limb == crate::field::fzero()
    }

    /// Columns that are all zero.
    pub fn zero() -> (cols: MemoryAccessCols)
        ensures
            cols.is_zero(),
    {
        let z = Felt::zero();
        MemoryAccessCols {
            value: Word::zero(),
            prev_shard: z,
            prev_clk: z,
            compare_clk: z,
            diff_16bit_limb: z,
            diff_8bit_limb: z,
        }
    }

    /// Restates an access and appends its two range-check requests to `ledger`.
    pub fn populate_access(
        &mut self,
        value: u32,
        shard: u32,
        timestamp: u32,
        prev_shard: u32,
        prev_timestamp: u32,
        ledger: &mut Vec<ByteLookupEvent>,
    )
        requires
            comes_after(shard, timestamp, prev_shard, prev_timestamp),
        ensures
            final(self).restates(value, shard, timestamp, prev_shard, prev_timestamp),
            final(ledger)@ == old(ledger)@ + access_events(
                shard,
                timestamp,
                prev_shard,
                prev_timestamp,
            ),
    {
        self.value = Word::from_u32(value);
        self.prev_shard = Felt::from_canonical_u32(prev_shard);
        self.prev_clk = Felt::from_canonical_u32(prev_timestamp);
        let use_clk_comparison: bool = prev_shard == shard;
        self.compare_clk = Felt::from_bool(use_clk_comparison);
        let gap: u32 = if use_clk_comparison {
            timestamp - prev_timestamp - 1
        } else {
            shard - prev_shard - 1
        };
        let diff_16bit_limb: u16 = (gap % 0x1_0000) as u16;
        let diff_8bit_limb: u8 = ((gap / 0x1_0000) % 0x100) as u8;
        self.diff_16bit_limb = Felt::from_canonical_u16(diff_16bit_limb);
        self.diff_8bit_limb = Felt::from_canonical_u8(diff_8bit_limb);
        add_u16_range_check(ledger, shard, diff_16bit_limb);
        add_u8_range_check(ledger, shard, 0, diff_8bit_limb);
        assert(ledger@ =~= old(ledger)@ + access_events(
            shard,
            timestamp,
            prev_shard,
            prev_timestamp,
        ));
    }
}

impl MemoryReadCols {
    /// Whether the columns restate `record`.
    pub open spec fn restates(self, record: MemoryReadRecord) -> bool {
        self.access.restates(
            record.value,
            record.shard,
            record.timestamp,
            record.prev_shard,
            record.prev_timestamp,
        )
    }

    /// Whether every cell is zero.
    pub open spec fn is_zero(self) -> bool {
        self.access.is_zero()
    }

    /// Columns that are all zero.
    pub fn zero() -> (cols: MemoryReadCols)
        ensures
            cols.is_zero(),
    {
        MemoryReadCols { access: MemoryAccessCols::zero() }
    }

    /// Restates a read and appends its range-check requests to `ledger`.
    pub fn populate(&mut self, record: MemoryReadRecord, ledger: &mut Vec<ByteLookupEvent>)
        requires
            record.wf(),
        ensures
            final(self).restates(record),
            final(ledger)@ == old(ledger)@ + access_events(
                record.shard,
                record.timestamp,
                record.prev_shard,
                record.prev_timestamp,
            ),
    {
        self.access.populate_access(
            record.value,
            record.shard,
            record.timestamp,
            record.prev_shard,
            record.prev_timestamp,
            ledger,
        );
    }
}

impl MemoryWriteCols {
    /// Whether the columns restate `record`.
    pub open spec fn restates(self, record: MemoryWriteRecord) -> bool {
        &&& self.prev_value.bytes@ == word_limbs(record.prev_value)
        &&& self.access.restates(
            record.value,
            record.shard,
            record.timestamp,
            record.prev_shard,
            record.prev_timestamp,
        )
    }

    /// Whether every cell is zero.
    pub open spec fn is_zero(self) -> bool {
        self.access.is_zero() && self.prev_value.bytes@ == word_limbs(0)
    }

    /// Columns that are all zero.
    pub fn zero() -> (cols: MemoryWriteCols)
        ensures
            cols.is_zero(),
    {
        MemoryWriteCols { prev_value: Word::zero(), access: MemoryAccessCols::zero() }
    }

    /// Restates a write and appends its range-check requests to `ledger`.
    pub fn populate(&mut self, record: MemoryWriteRecord, ledger: &mut Vec<ByteLookupEvent>)
        requires
            record.wf(),
        ensures
            final(self).restates(record),
            final(ledger)@ == old(ledger)@ + access_events(
                record.shard,
                record.timestamp,
                record.prev_shard,
                record.prev_timestamp,
            ),
    {
        self.prev_value = Word::from_u32(record.prev_value);
        self.access.populate_access(
            record.value,
            record.shard,
            record.timestamp,
            record.prev_shard,
            record.prev_timestamp,
            ledger,
        );
    }
}

/// The limbs of the values that a run of reads found, lowest word first.
pub open spec fn read_limbs(cols: Seq<MemoryReadCols>) -> Seq<Felt> {
    Seq::new(4 * cols.len(), |i: int| cols[i / 4].access.value.bytes@[i % 4])
}

/// The limbs of the values that a run of writes left, lowest word first.
pub open spec fn write_limbs(cols: Seq<MemoryWriteCols>) -> Seq<Felt> {
    Seq::new(4 * cols.len(), |i: int| cols[i / 4].access.value.bytes@[i % 4])
}

/// The limbs of the values that a run of writes found, lowest word first.
pub open spec fn prev_write_limbs(cols: Seq<MemoryWriteCols>) -> Seq<Felt> {
    Seq::new(4 * cols.len(), |i: int| cols[i / 4].prev_value.bytes@[i % 4])
}

/// The limbs of the values that a run of reads found.
pub fn limbs_from_read_access(cols: &[MemoryReadCols]) -> (limbs: Vec<Felt>)
    ensures
        limbs@ == read_limbs(cols@),
{
    let mut limbs: Vec<Felt> = Vec::new();
    let mut i: usize = 0;
    while i < cols.len()
        invariant
            i <= cols@.len(),
            limbs@.len() == 4 * i,
            forall|k: int| 0 <= k < 4 * i ==> limbs@[k] == cols@[k / 4].access.value.bytes@[k % 4],
        decreases cols@.len() - i,
    {
        let w: Word = cols[i].access.value;
        limbs.push(w.bytes[0]);
        limbs.push(w.bytes[1]);
        limbs.push(w.bytes[2]);
        limbs.push(w.bytes[3]);
        i = i + 1;
    }
    assert(limbs@ =~= read_limbs(cols@));
    limbs
}

/// The limbs of the values that a run of writes left.
pub fn limbs_from_access(cols: &[MemoryWriteCols]) -> (limbs: Vec<Felt>)
    ensures
        limbs@ == write_limbs(cols@),
{
    let mut limbs: Vec<Felt> = Vec::new();
    let mut i: usize = 0;
    while i < cols.len()
        invariant
            i <= cols@.len(),
            limbs@.len() == 4 * i,
            forall|k: int| 0 <= k < 4 * i ==> limbs@[k] == cols@[k / 4].access.value.bytes@[k % 4],
        decreases cols@.len() - i,
    {
        let w: Word = cols[i].access.value;
        limbs.push(w.bytes[0]);
        limbs.push(w.bytes[1]);
        limbs.push(w.bytes[2]);
        limbs.push(w.bytes[3]);
        i = i + 1;
    }
    assert(limbs@ =~= write_limbs(cols@));
    limbs
}

/// The limbs of the values that a run of writes found.
pub fn limbs_from_prev_access(cols: &[MemoryWriteCols]) -> (limbs: Vec<Felt>)
    ensures
        limbs@ == prev_write_limbs(cols@),
{
    let mut limbs: Vec<Felt> = Vec::new();
    let mut i: usize = 0;
    while i < cols.len()
        invariant
            i <= cols@.len(),
            limbs@.len() == 4 * i,
            forall|k: int| 0 <= k < 4 * i ==> limbs@[k] == cols@[k / 4].prev_value.bytes@[k % 4],
        decreases cols@.len() - i,
    {
        let w: Word = cols[i].prev_value;
        limbs.push(w.bytes[0]);
        limbs.push(w.bytes[1]);
        limbs.push(w.bytes[2]);
        limbs.push(w.bytes[3]);
        i = i + 1;
    }
    assert(limbs@ =~= prev_write_limbs(cols@));
    limbs
}

/// The state of a word that an access found, as a term sent to the memory argument.
pub open spec fn found_state(
    addr: Felt,
    prev_value: Word,
    access: MemoryAccessCols,
    is_real: Felt,
) -> Interaction {
    Interaction::Memory {
        is_send: true,
        shard: access.prev_shard,
        clk: access.prev_clk,
        addr,
        b0: prev_value.bytes@[0],
        b1: prev_value.bytes@[1],
        b2: prev_value.bytes@[2],
        b3: prev_value.bytes@[3],
        multiplicity: is_real,
    }
}

/// The state of a word that an access left, as a term received from the memory argument.
pub open spec fn left_state(
    shard: Felt,
    clk: Felt,
    addr: Felt,
    access: MemoryAccessCols,
    is_real: Felt,
) -> Interaction {
    Interaction::Memory {
        is_send: false,
        shard,
        clk,
        addr,
        b0: access.value.bytes@[0],
        b1: access.value.bytes@[1],
        b2: access.value.bytes@[2],
        b3: access.value.bytes@[3],
        multiplicity: is_real,
    }
}

/// The address of word `i` of a run that starts at `addr`.
pub open spec fn word_addr(addr: Felt, i: int) -> Felt {
    fadd(addr, felt_of(4 * i))
}

/// The terms for a run of reads at consecutive words from `addr`: for each read the state it
/// found, then the state it left.
pub open spec fn read_interactions(
    shard: Felt,
    clk: Felt,
    addr: Felt,
    cols: Seq<MemoryReadCols>,
    is_real: Felt,
) -> Seq<Interaction> {
    Seq::new(
        2 * cols.len(),
        |j: int|
            if j % 2 == 0 {
                found_state(
                    word_addr(addr, j / 2),
                    cols[j / 2].access.value,
                    cols[j / 2].access,
                    is_real,
                )
            } else {
                left_state(shard, clk, word_addr(addr, j / 2), cols[j / 2].access, is_real)
            },
    )
}

/// The terms for a run of writes at consecutive words from `addr`: for each write the state it
/// found, then the state it left.
pub open spec fn write_interactions(
    shard: Felt,
    clk: Felt,
    addr: Felt,
    cols: Seq<MemoryWriteCols>,
    is_real: Felt,
) -> Seq<Interaction> {
    Seq::new(
        2 * cols.len(),
        |j: int|
            if j % 2 == 0 {
                found_state(
                    word_addr(addr, j / 2),
                    cols[j / 2].prev_value,
                    cols[j / 2].access,
                    is_real,
                )
            } else {
                left_state(shard, clk, word_addr(addr, j / 2), cols[j / 2].access, is_real)
            },
    )
}

impl ConstraintBuilder {
    /// Hands one access to the memory argument: asserts that `is_real` is a flag, sends the
    /// state that the access found and receives the state that it left, each `is_real` times.
    pub fn eval_memory_access(
        &mut self,
        shard: Felt,
        clk: Felt,
        addr: Felt,
        prev_value: &Word,
        access: &MemoryAccessCols,
        is_real: Felt,
    )
        ensures
            final(self).extends(
                *old(self),
                is_bool(is_real),
                seq![
                    found_state(addr, *prev_value, *access, is_real),
                    left_state(shard, clk, addr, *access, is_real),
                ],
            ),
    {
        self.assert_bool(is_real);
        self.interact(
            Interaction::Memory {
                is_send: true,
                shard: access.prev_shard,
                clk: access.prev_clk,
                addr,
                b0: prev_value.bytes[0],
                b1: prev_value.bytes[1],
                b2: prev_value.bytes[2],
                b3: prev_value.bytes[3],
                multiplicity: is_real,
            },
        );
        self.interact(
            Interaction::Memory {
                is_send: false,
                shard,
                clk,
                addr,
                b0: access.value.bytes[0],
                b1: access.value.bytes[1],
                b2: access.value.bytes[2],
                b3: access.value.bytes[3],
                multiplicity: is_real,
            },
        );
        assert(self.interactions@ =~= old(self).interactions@ + seq![
            found_state(addr, *prev_value, *access, is_real),
            left_state(shard, clk, addr, *access, is_real),
        ]);
    }

    /// Hands a run of reads at consecutive words from `addr` to the memory argument.
    pub fn eval_memory_read_slice(
        &mut self,
        shard: Felt,
        clk: Felt,
        addr: Felt,
        cols: &[MemoryReadCols],
        is_real: Felt,
    )
        requires
            4 * cols@.len() <= usize::MAX,
        ensures
            final(self).extends(
                *old(self),
                cols@.len() > 0 ==> is_bool(is_real),
                read_interactions(shard, clk, addr, cols@, is_real),
            ),
    {
        let mut i: usize = 0;
        while i < cols.len()
            invariant
                i <= cols@.len(),
                4 * cols@.len() <= usize::MAX,
                self.same_place(*old(self)),
                self.ok == (old(self).ok && (i > 0 ==> is_bool(is_real))),
                self.interactions@.len() == old(self).interactions@.len() + 2 * i,
                forall|k: int|
                    0 <= k < old(self).interactions@.len() ==> self.interactions@[k] == old(
                        self,
                    ).interactions@[k],
                forall|k: int|
                    0 <= k < 2 * i ==> self.interactions@[old(self).interactions@.len() + k]
                        == read_interactions(shard, clk, addr, cols@, is_real)[k],
            decreases cols@.len() - i,
        {
            let at: Felt = addr.add(Felt::from_canonical_usize(4 * i));
            let c: MemoryReadCols = cols[i];
            self.eval_memory_access(shard, clk, at, &c.access.value, &c.access, is_real);
            i = i + 1;
        }
        assert(self.interactions@ =~= old(self).interactions@ + read_interactions(
            shard,
            clk,
            addr,
            cols@,
            is_real,
        ));
    }

    /// Hands a run of writes at consecutive words from `addr` to the memory argument.
    pub fn eval_memory_write_slice(
        &mut self,
        shard: Felt,
        clk: Felt,
        addr: Felt,
        cols: &[MemoryWriteCols],
        is_real: Felt,
    )
        requires
            4 * cols@.len() <= usize::MAX,
        ensures
            final(self).extends(
                *old(self),
                cols@.len() > 0 ==> is_bool(is_real),
                write_interactions(shard, clk, addr, cols@, is_real),
            ),
    {
        let mut i: usize = 0;
        while i < cols.len()
            invariant
                i <= cols@.len(),
                4 * cols@.len() <= usize::MAX,
                self.same_place(*old(self)),
                self.ok == (old(self).ok && (i > 0 ==> is_bool(is_real))),
                self.interactions@.len() == old(self).interactions@.len() + 2 * i,
                forall|k: int|
                    0 <= k < old(self).interactions@.len() ==> self.interactions@[k] == old(
                        self,
                    ).interactions@[k],
                forall|k: int|
                    0 <= k < 2 * i ==> self.interactions@[old(self).interactions@.len() + k]
                        == write_interactions(shard, clk, addr, cols@, is_real)[k],
            decreases cols@.len() - i,
        {
            let at: Felt = addr.add(Felt::from_canonical_usize(4 * i));
            let c: MemoryWriteCols = cols[i];
            self.eval_memory_access(shard, clk, at, &c.prev_value, &c.access, is_real);
            i = i + 1;
        }
        assert(self.interactions@ =~= old(self).interactions@ + write_interactions(
            shard,
            clk,
            addr,
            cols@,
            is_real,
        ));
    }
}

/// The number of cells of a read's columns.
pub const NUM_READ_COLS: usize = 9;

/// The number of cells of a write's columns.
pub const NUM_WRITE_COLS: usize = 13;

/// The cells of a word, in row order.
pub open spec fn word_flat(w: Word) -> Seq<Felt> {
    seq![w.bytes@[0], w.bytes@[1], w.bytes@[2], w.bytes@[3]]
}

/// The cells of an access, in row order.
pub open spec fn access_flat(c: MemoryAccessCols) -> Seq<Felt> {
    word_flat(c.value) + seq![
        c.prev_shard,
        c.prev_clk,
        c.compare_clk,
        c.diff_16bit_limb,
        c.diff_8bit_limb,
    ]
}

/// The cells of a write, in row order.
pub open spec fn write_flat(c: MemoryWriteCols) -> Seq<Felt> {
    word_flat(c.prev_value) + access_flat(c.access)
}

/// The cells of a run of reads, in row order.
pub open spec fn reads_flat(cols: Seq<MemoryReadCols>) -> Seq<Felt>
    decreases cols.len(),
{
    if cols.len() == 0 {
        Seq::empty()
    } else {
        reads_flat(cols.drop_last()) + access_flat(cols.last().access)
    }
}

/// The cells of a run of writes, in row order.
pub open spec fn writes_flat(cols: Seq<MemoryWriteCols>) -> Seq<Felt>
    decreases cols.len(),
{
    if cols.len() == 0 {
        Seq::empty()
    } else {
        writes_flat(cols.drop_last()) + write_flat(cols.last())
    }
}

/// A run of reads fills nine cells for each read.
pub proof fn lemma_reads_flat_len(cols: Seq<MemoryReadCols>)
    ensures
        reads_flat(cols).len() == NUM_READ_COLS * cols.len(),
    decreases cols.len(),
{
    if cols.len() > 0 {
        lemma_reads_flat_len(cols.drop_last());
    }
}

/// A run of writes fills thirteen cells for each write.
pub proof fn lemma_writes_flat_len(cols: Seq<MemoryWriteCols>)
    ensures
        writes_flat(cols).len() == NUM_WRITE_COLS * cols.len(),
    decreases cols.len(),
{
    if cols.len() > 0 {
        lemma_writes_flat_len(cols.drop_last());
    }
}

/// Appends the cells of a word to a row.
pub fn push_word(row: &mut Vec<Felt>, w: &Word)
    ensures
        final(row)@ == old(row)@ + word_flat(*w),
{
    row.push(w.bytes[0]);
    row.push(w.bytes[1]);
    row.push(w.bytes[2]);
    row.push(w.bytes[3]);
    assert(row@ =~= old(row)@ + word_flat(*w));
}

/// Appends the cells of an access to a row.
pub fn push_access(row: &mut Vec<Felt>, c: &MemoryAccessCols)
    ensures
        final(row)@ == old(row)@ + access_flat(*c),
{
    push_word(row, &c.value);
    row.push(c.prev_shard);
    row.push(c.prev_clk);
    row.push(c.compare_clk);
    row.push(c.diff_16bit_limb);
    row.push(c.diff_8bit_limb);
    assert(row@ =~= old(row)@ + access_flat(*c));
}

/// Appends the cells of a run of reads to a row.
pub fn push_reads(row: &mut Vec<Felt>, cols: &[MemoryReadCols])
    ensures
        final(row)@ == old(row)@ + reads_flat(cols@),
{
    let mut i: usize = 0;
    assert(row@ =~= old(row)@ + reads_flat(cols@.take(0)));
    while i < cols.len()
        invariant
            i <= cols@.len(),
            row@ == old(row)@ + reads_flat(cols@.take(i as int)),
        decreases cols@.len() - i,
    {
        let ghost before = row@;
        push_access(row, &cols[i].access);
        proof {
            let t = cols@.take(i + 1);
            assert(t.drop_last() =~= cols@.take(i as int));
            assert(row@ =~= old(row)@ + reads_flat(t));
        }
        i = i + 1;
    }
    assert(cols@.take(cols@.len() as int) =~= cols@);
}

/// Appends the cells of a run of writes to a row.
pub fn push_writes(row: &mut Vec<Felt>, cols: &[MemoryWriteCols])
    ensures
        final(row)@ == old(row)@ + writes_flat(cols@),
{
    let mut i: usize = 0;
    assert(row@ =~= old(row)@ + writes_flat(cols@.take(0)));
    while i < cols.len()
        invariant
            i <= cols@.len(),
            row@ == old(row)@ + writes_flat(cols@.take(i as int)),
        decreases cols@.len() - i,
    {
        let ghost before = row@;
        push_word(row, &cols[i].prev_value);
        push_access(row, &cols[i].access);
        proof {
            let t = cols@.take(i + 1);
            assert(t.drop_last() =~= cols@.take(i as int));
            assert(row@ =~= old(row)@ + writes_flat(t));
        }
        i = i + 1;
    }
    assert(cols@.take(cols@.len() as int) =~= cols@);
}

/// Appends a run of cells to a row.
pub fn push_felts(row: &mut Vec<Felt>, cells: &[Felt])
    ensures
        final(row)@ == old(row)@ + cells@,
{
    let mut i: usize = 0;
    while i < cells.len()
        invariant
            i <= cells@.len(),
            row@ == old(row)@ + cells@.take(i as int),
        decreases cells@.len() - i,
    {
        row.push(cells[i]);
        assert(row@ =~= old(row)@ + cells@.take(i + 1));
        i = i + 1;
    }
    assert(cells@.take(cells@.len() as int) =~= cells@);
}

/// The word whose cells are the four cells of `row` from `pos` on.
pub fn read_word(row: &[Felt], pos: usize) -> (w: Word)
    requires
        pos + 4 <= row@.len(),
    ensures
        word_flat(w) == row@.subrange(pos as int, pos + 4),
{
    let total: usize = row.len();
    let w = Word { bytes: [row[pos], row[pos + 1], row[pos + 2], row[pos + 3]] };
    assert(word_flat(w) =~= row@.subrange(pos as int, pos + 4));
    w
}

/// The access whose cells are the nine cells of `row` from `pos` on.
pub fn read_access(row: &[Felt], pos: usize) -> (c: MemoryAccessCols)
    requires
        pos + 9 <= row@.len(),
    ensures
        access_flat(c) == row@.subrange(pos as int, pos + 9),
{
    let total: usize = row.len();
    let c = MemoryAccessCols {
        value: read_word(row, pos),
        prev_shard: row[pos + 4],
        prev_clk: row[pos + 5],
        compare_clk: row[pos + 6],
        diff_16bit_limb: row[pos + 7],
        diff_8bit_limb: row[pos + 8],
    };
    assert(access_flat(c) =~= row@.subrange(pos as int, pos + 4) + row@.subrange(
        pos + 4,
        pos + 9,
    ));
    assert(access_flat(c) =~= row@.subrange(pos as int, pos + 9));
    c
}

/// The reads whose cells are the cells of `row` from `pos` on, nine to a read.
pub fn read_reads(row: &[Felt], pos: usize, n: usize) -> (cols: Vec<MemoryReadCols>)
    requires
        pos + 9 * n <= row@.len(),
    ensures
        cols@.len() == n,
        reads_flat(cols@) == row@.subrange(pos as int, pos + 9 * n),
{
    let total: usize = row.len();
    let mut cols: Vec<MemoryReadCols> = Vec::new();
    let mut i: usize = 0;
    assert(reads_flat(cols@) =~= row@.subrange(pos as int, pos as int));
    while i < n
        invariant
            i <= n,
            pos + 9 * n <= row@.len() == total,
            cols@.len() == i,
            reads_flat(cols@) == row@.subrange(pos as int, pos + 9 * i),
        decreases n - i,
    {
        let ghost before = cols@;
        let c = MemoryReadCols { access: read_access(row, pos + 9 * i) };
        cols.push(c);
        proof {
            assert(cols@.drop_last() =~= before);
            assert(reads_flat(cols@) =~= row@.subrange(pos as int, pos + 9 * (i + 1)));
        }
        i = i + 1;
    }
    cols
}

/// The writes whose cells are the cells of `row` from `pos` on, thirteen to a write.
pub fn read_writes(row: &[Felt], pos: usize, n: usize) -> (cols: Vec<MemoryWriteCols>)
    requires
        pos + 13 * n <= row@.len(),
    ensures
        cols@.len() == n,
        writes_flat(cols@) == row@.subrange(pos as int, pos + 13 * n),
{
    let total: usize = row.len();
    let mut cols: Vec<MemoryWriteCols> = Vec::new();
    let mut i: usize = 0;
    assert(writes_flat(cols@) =~= row@.subrange(pos as int, pos as int));
    while i < n
        invariant
            i <= n,
            pos + 13 * n <= row@.len() == total,
            cols@.len() == i,
            writes_flat(cols@) == row@.subrange(pos as int, pos + 13 * i),
        decreases n - i,
    {
        let ghost before = cols@;
        let at: usize = pos + 13 * i;
        let c = MemoryWriteCols { prev_value: read_word(row, at), access: read_access(row, at + 4) };
        cols.push(c);
        proof {
            assert(cols@.drop_last() =~= before);
            assert(write_flat(c) =~= row@.subrange(at as int, at + 13));
            assert(writes_flat(cols@) =~= row@.subrange(pos as int, pos + 13 * (i + 1)));
        }
        i = i + 1;
    }
    cols
}

/// The `n` cells of `row` from `pos` on.
pub fn read_felts(row: &[Felt], pos: usize, n: usize) -> (cells: Vec<Felt>)
    requires
        pos + n <= row@.len(),
    ensures
        cells@ == row@.subrange(pos as int, pos + n),
{
    let total: usize = row.len();
    let mut cells: Vec<Felt> = Vec::new();
    let mut i: usize = 0;
    while i < n
        invariant
            i <= n,
            pos + n <= row@.len() == total,
            cells@ == row@.subrange(pos as int, pos + i),
        decreases n - i,
    {
        cells.push(row[pos + i]);
        assert(cells@ =~= row@.subrange(pos as int, pos + i + 1));
        i = i + 1;
    }
    cells
}

/// Accesses with the same cells hold the same columns.
pub proof fn lemma_access_by_cells(x: MemoryAccessCols, y: MemoryAccessCols)
    requires
        access_flat(x) == access_flat(y),
    ensures
        x.value.bytes@ == y.value.bytes@,
        x.prev_shard == y.prev_shard,
        x.prev_clk == y.prev_clk,
        x.compare_clk == y.compare_clk,
        x.diff_16bit_limb == y.diff_16bit_limb,
        x.diff_8bit_limb == y.diff_8bit_limb,
{
    let f = access_flat(x);
    let g = access_flat(y);
    assert forall|k: int| 0 <= k < 4 implies x.value.bytes@[k] == y.value.bytes@[k] by {
        assert(x.value.bytes@[k] == f[k] && y.value.bytes@[k] == g[k]);
    }
    assert(x.value.bytes@ =~= y.value.bytes@);
    assert(x.prev_shard == f[4] && y.prev_shard == g[4]);
    assert(x.prev_clk == f[5] && y.prev_clk == g[5]);
    assert(x.compare_clk == f[6] && y.compare_clk == g[6]);
    assert(x.diff_16bit_limb == f[7] && y.diff_16bit_limb == g[7]);
    assert(x.diff_8bit_limb == f[8] && y.diff_8bit_limb == g[8]);
}

/// Runs of reads with the same cells found the same limbs.
pub proof fn lemma_reads_by_cells(a: Seq<MemoryReadCols>, b: Seq<MemoryReadCols>)
    requires
        a.len() == b.len(),
        reads_flat(a) == reads_flat(b),
    ensures
        read_limbs(a) == read_limbs(b),
        forall|i: int| 0 <= i < a.len() ==> (#[trigger] a[i]).access.value.bytes@ == b[i].access.value.bytes@,
    decreases a.len(),
{
    if a.len() > 0 {
        let a0 = a.drop_last();
        let b0 = b.drop_last();
        lemma_reads_flat_len(a0);
        lemma_reads_flat_len(b0);
        let fa = access_flat(a.last().access);
        let fb = access_flat(b.last().access);
        let n = reads_flat(a0).len() as int;
        assert(reads_flat(a0) =~= reads_flat(a).subrange(0, n));
        assert(reads_flat(b0) =~= reads_flat(b).subrange(0, n));
        assert(fa =~= reads_flat(a).subrange(n, n + 9));
        assert(fb =~= reads_flat(b).subrange(n, n + 9));
        lemma_reads_by_cells(a0, b0);
        lemma_access_by_cells(a.last().access, b.last().access);
        assert forall|i: int| 0 <= i < a.len() implies (#[trigger] a[i]).access.value.bytes@
            == b[i].access.value.bytes@ by {
            if i < a.len() - 1 {
                assert(a0[i] == a[i] && b0[i] == b[i]);
            }
        }
    }
    assert(read_limbs(a) =~= read_limbs(b));
}

/// Runs of writes with the same cells found the same limbs and left the same limbs.
pub proof fn lemma_writes_by_cells(a: Seq<MemoryWriteCols>, b: Seq<MemoryWriteCols>)
    requires
        a.len() == b.len(),
        writes_flat(a) == writes_flat(b),
    ensures
        write_limbs(a) == write_limbs(b),
        prev_write_limbs(a) == prev_write_limbs(b),
        forall|i: int|
            0 <= i < a.len() ==> (#[trigger] a[i]).access.value.bytes@ == b[i].access.value.bytes@
                && a[i].prev_value.bytes@ == b[i].prev_value.bytes@,
    decreases a.len(),
{
    if a.len() > 0 {
        let a0 = a.drop_last();
        let b0 = b.drop_last();
        lemma_writes_flat_len(a0);
        lemma_writes_flat_len(b0);
        let x = a.last();
        let y = b.last();
        let n = writes_flat(a0).len() as int;
        assert(writes_flat(a0) =~= writes_flat(a).subrange(0, n));
        assert(writes_flat(b0) =~= writes_flat(b).subrange(0, n));
        assert(write_flat(x) =~= writes_flat(a).subrange(n, n + 13));
        assert(write_flat(y) =~= writes_flat(b).subrange(n, n + 13));
        assert(access_flat(x.access) =~= write_flat(x).subrange(4, 13));
        assert(access_flat(y.access) =~= write_flat(y).subrange(4, 13));
        assert forall|k: int| 0 <= k < 4 implies x.prev_value.bytes@[k] == y.prev_value.bytes@[k] by {
            assert(x.prev_value.bytes@[k] == write_flat(x)[k]);
            assert(y.prev_value.bytes@[k] == write_flat(y)[k]);
        }
        assert(x.prev_value.bytes@ =~= y.prev_value.bytes@);
        lemma_writes_by_cells(a0, b0);
        lemma_access_by_cells(x.access, y.access);
        assert forall|i: int| 0 <= i < a.len() implies (#[trigger] a[i]).access.value.bytes@
            == b[i].access.value.bytes@ && a[i].prev_value.bytes@ == b[i].prev_value.bytes@ by {
            if i < a.len() - 1 {
                assert(a0[i] == a[i] && b0[i] == b[i]);
            }
        }
    }
    assert(write_limbs(a) =~= write_limbs(b));
    assert(prev_write_limbs(a) =~= prev_write_limbs(b));
}

} // verus!
