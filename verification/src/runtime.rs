//! The memory of the running program as a precompile syscall sees it, and the journal of the
//! accesses that the syscall makes.
//!
//! Every word of memory remembers when it was last accessed. An access at the context's shard
//! and clock returns a record of the access (the address, the value and both times) and leaves
//! the word stamped with the present time. An access has to come after the access before it,
//! so a word can be accessed once at a given clock.
use crate::events::{reads_wf, writes_wf, ExecutionRecord};
use crate::memory::{comes_after, MemoryReadRecord, MemoryWriteRecord};
use std::collections::HashMap;
use vstd::prelude::*;

verus! {

/// What memory holds of one word: its value and the time of its last access.
#[derive(Clone, Copy, Debug, PartialEq, Eq, Structural)]
pub struct MemoryEntry {
    /// The value of the word.
    pub value: u32,
    /// The shard of the last access.
    pub shard: u32,
    /// The clock of the last access.
    pub timestamp: u32,
}

/// The state that a precompile syscall works on.
pub struct SyscallContext {
    /// The present shard.
    pub shard: u32,
    /// The present clock.
    pub clk: u32,
    /// The words of memory that were ever accessed, by address.
    pub memory: HashMap<u32, MemoryEntry>,
    /// The record of the present shard.
    pub record: ExecutionRecord,
}

/// Whether `a` is the address of one of the `len` words from `addr` on.
pub open spec fn in_region(a: int, addr: int, len: int) -> bool {
    addr <= a < addr + 4 * len && (a - addr) % 4 == 0
}

/// Whether the `len` words from `addr` on are words of memory: `addr` a multiple of four, and
/// the last word within the address space.
pub open spec fn region_valid(addr: u32, len: nat) -> bool {
    addr % 4 == 0 && addr + 4 * len <= 0x1_0000_0000
}

/// Whether two runs of words share no word.
pub open spec fn regions_disjoint(a: u32, a_len: nat, b: u32, b_len: nat) -> bool {
    a + 4 * a_len <= b || b + 4 * b_len <= a
}

impl SyscallContext {
    /// What memory holds of the word at `addr`; a word never accessed holds zero since time
    /// zero of shard zero.
    pub open spec fn entry(self, addr: u32) -> MemoryEntry {
        if self.memory@.contains_key(addr) {
            self.memory@[addr]
        } else {
            MemoryEntry { value: 0, shard: 0, timestamp: 0 }
        }
    }

    /// The value of the word at `addr`.
    pub open spec fn word(self, addr: u32) -> u32 {
        self.entry(addr).value
    }

    /// The values of the `len` words from `addr` on.
    pub open spec fn words(self, addr: u32, len: nat) -> Seq<u32> {
        Seq::new(len, |i: int| self.word((addr + 4 * i) as u32))
    }

    /// Whether the word at `addr` can be accessed now: whether now is after its last access.
    pub open spec fn fresh(self, addr: u32) -> bool {
        comes_after(self.shard, self.clk, self.entry(addr).shard, self.entry(addr).timestamp)
    }

    /// Whether the word at `addr` can be accessed at the clock `clk` of the present shard.
    pub open spec fn fresh_at(self, addr: u32, clk: u32) -> bool {
        comes_after(self.shard, clk, self.entry(addr).shard, self.entry(addr).timestamp)
    }

    /// Whether each of the `len` words from `addr` on can be accessed at the clock `clk` of
    /// the present shard.
    pub open spec fn region_fresh_at(self, addr: u32, len: nat, clk: u32) -> bool {
        forall|a: u32|
            in_region(a as int, addr as int, len as int) ==> #[trigger] self.fresh_at(a, clk)
    }

    /// Whether each of the `len` words from `addr` on can be accessed now.
    pub open spec fn region_fresh(self, addr: u32, len: nat) -> bool {
        forall|a: u32| in_region(a as int, addr as int, len as int) ==> #[trigger] self.fresh(a)
    }

    /// The record of a read of the word at `addr` now.
    pub open spec fn read_record(self, addr: u32) -> MemoryReadRecord {
        MemoryReadRecord {
            addr,
            value: self.word(addr),
            shard: self.shard,
            timestamp: self.clk,
            prev_shard: self.entry(addr).shard,
            prev_timestamp: self.entry(addr).timestamp,
        }
    }

    /// The record of a write of `value` to the word at `addr` now.
    pub open spec fn write_record(self, addr: u32, value: u32) -> MemoryWriteRecord {
        MemoryWriteRecord {
            addr,
            value,
            shard: self.shard,
            timestamp: self.clk,
            prev_value: self.word(addr),
            prev_shard: self.entry(addr).shard,
            prev_timestamp: self.entry(addr).timestamp,
        }
    }

    /// Whether `self` is `before` after the `values` were written now to the words from `addr`
    /// on, and nothing else changed.
    pub open spec fn wrote(self, before: SyscallContext, addr: u32, values: Seq<u32>) -> bool {
        &&& self.shard == before.shard
        &&& self.clk == before.clk
        &&& self.record == before.record
        &&& forall|a: u32|
            #[trigger] self.entry(a) == (if in_region(a as int, addr as int, values.len() as int) {
                MemoryEntry {
                    value: values[(a - addr) / 4],
                    shard: before.shard,
                    timestamp: before.clk,
                }
            } else {
                before.entry(a)
            })
    }

    /// A context at `(shard, clk)` with memory never accessed and an empty record.
    pub fn new(shard: u32, clk: u32) -> (rt: SyscallContext)
        ensures
            rt.shard == shard,
            rt.clk == clk,
            forall|a: u32| rt.entry(a) == (MemoryEntry { value: 0, shard: 0, timestamp: 0 }),
            rt.record.wf(),
            rt.record.bn254_muladd_events@.len() == 0,
            rt.record.bn254_scalar_mac_events@.len() == 0,
            rt.record.bn254_scalar_muladd_events@.len() == 0,
            rt.record.memcpy32_events@.len() == 0,
            rt.record.memcpy64_events@.len() == 0,
            rt.record.poseidon_events@.len() == 0,
            rt.record.byte_lookups@.len() == 0,
    {
        SyscallContext { shard, clk, memory: HashMap::new(), record: ExecutionRecord::new() }
    }

    /// What memory holds of the word at `addr`.
    pub fn entry_at(&self, addr: u32) -> (e: MemoryEntry)
        ensures
            e == self.entry(addr),
    {
        match self.memory.get(&addr) {
            Some(e) => *e,
            None => MemoryEntry { value: 0, shard: 0, timestamp: 0 },
        }
    }

    /// The value of the word at `addr`, without a record of the access.
    pub fn word_unsafe(&self, addr: u32) -> (w: u32)
        ensures
            w == self.word(addr),
    {
        self.entry_at(addr).value
    }

    /// The values of the `len` words from `addr` on, without a record of the access.
    pub fn slice_unsafe(&self, addr: u32, len: usize) -> (values: Vec<u32>)
        requires
            region_valid(addr, len as nat),
        ensures
            values@ == self.words(addr, len as nat),
    {
        let mut values: Vec<u32> = Vec::new();
        let mut i: usize = 0;
        while i < len
            invariant
                i <= len,
                region_valid(addr, len as nat),
                values@.len() == i,
                forall|k: int| 0 <= k < i ==> values@[k] == self.word((addr + 4 * k) as u32),
            decreases len - i,
        {
            values.push(self.word_unsafe(addr + 4 * (i as u32)));
            i = i + 1;
        }
        assert(values@ =~= self.words(addr, len as nat));
        values
    }

    /// Sets the value of the word at `addr`, without a record and without a new time: the word
    /// keeps the time of its last access.
    pub fn write_unsafe(&mut self, addr: u32, value: u32)
        ensures
            final(self).shard == old(self).shard,
            final(self).clk == old(self).clk,
            final(self).record == old(self).record,
            final(self).entry(addr) == (MemoryEntry {
                value,
                shard: old(self).entry(addr).shard,
                timestamp: old(self).entry(addr).timestamp,
            }),
            forall|a: u32| a != addr ==> final(self).entry(a) == old(self).entry(a),
    {
        let e: MemoryEntry = self.entry_at(addr);
        self.memory.insert(addr, MemoryEntry { value, shard: e.shard, timestamp: e.timestamp });
    }

    /// Whether the word at `addr` can be accessed now.
    pub fn is_fresh(&self, addr: u32) -> (r: bool)
        ensures
            r == self.fresh(addr),
    {
        let e: MemoryEntry = self.entry_at(addr);
        e.shard < self.shard || (e.shard == self.shard && e.timestamp < self.clk)
    }

    /// Whether each of the `len` words from `addr` on can be accessed at the clock `clk` of
    /// the present shard.
    pub fn is_region_fresh_at(&self, addr: u32, len: usize, clk: u32) -> (r: bool)
        requires
            region_valid(addr, len as nat),
        ensures
            r == self.region_fresh_at(addr, len as nat, clk),
    {
        let mut i: usize = 0;
        while i < len
            invariant
                i <= len,
                region_valid(addr, len as nat),
                forall|a: u32|
                    in_region(a as int, addr as int, i as int) ==> #[trigger] self.fresh_at(a, clk),
            decreases len - i,
        {
            let a: u32 = addr + 4 * (i as u32);
            let e: MemoryEntry = self.entry_at(a);
            if !(e.shard < self.shard || (e.shard == self.shard && e.timestamp < clk)) {
                assert(in_region(a as int, addr as int, len as int));
                assert(!self.fresh_at(a, clk));
                return false;
            }
            proof {
                assert forall|x: u32| in_region(x as int, addr as int, i + 1) implies #[trigger]
                    self.fresh_at(x, clk) by {
                    lemma_region_step(x as int, addr as int, i as int);
                }
            }
            i = i + 1;
        }
        true
    }

    /// Whether each of the `len` words from `addr` on can be accessed now.
    pub fn is_region_fresh(&self, addr: u32, len: usize) -> (r: bool)
        requires
            region_valid(addr, len as nat),
        ensures
            r == self.region_fresh(addr, len as nat),
    {
        let mut i: usize = 0;
        while i < len
            invariant
                i <= len,
                region_valid(addr, len as nat),
                forall|a: u32|
                    in_region(a as int, addr as int, i as int) ==> #[trigger] self.fresh(a),
            decreases len - i,
        {
            let a: u32 = addr + 4 * (i as u32);
            if !self.is_fresh(a) {
                assert(in_region(a as int, addr as int, len as int));
                return false;
            }
            proof {
                assert forall|x: u32| in_region(x as int, addr as int, i + 1) implies #[trigger]
                    self.fresh(x) by {
                    lemma_region_step(x as int, addr as int, i as int);
                }
            }
            i = i + 1;
        }
        true
    }

    /// Reads the word at `addr` now.
    pub fn mr(&mut self, addr: u32) -> (record: MemoryReadRecord)
        requires
            addr % 4 == 0,
            old(self).fresh(addr),
        ensures
            record == old(self).read_record(addr),
            record.wf(),
            final(self).wrote(*old(self), addr, seq![old(self).word(addr)]),
    {
        let e: MemoryEntry = self.entry_at(addr);
        self.memory.insert(
            addr,
            MemoryEntry { value: e.value, shard: self.shard, timestamp: self.clk },
        );
        proof {
            assert forall|a: u32| #[trigger]
                self.entry(a) == (if in_region(a as int, addr as int, 1) {
                    MemoryEntry {
                        value: seq![old(self).word(addr)][(a - addr) / 4],
                        shard: old(self).shard,
                        timestamp: old(self).clk,
                    }
                } else {
                    old(self).entry(a)
                }) by {
                if in_region(a as int, addr as int, 1) {
                    assert(a == addr);
                }
            }
        }
        MemoryReadRecord {
            addr,
            value: e.value,
            shard: self.shard,
            timestamp: self.clk,
            prev_shard: e.shard,
            prev_timestamp: e.timestamp,
        }
    }

    /// Writes `value` to the word at `addr` now.
    pub fn mw(&mut self, addr: u32, value: u32) -> (record: MemoryWriteRecord)
        requires
            addr % 4 == 0,
            old(self).fresh(addr),
        ensures
            record == old(self).write_record(addr, value),
            record.wf(),
            final(self).wrote(*old(self), addr, seq![value]),
    {
        let e: MemoryEntry = self.entry_at(addr);
        self.memory.insert(addr, MemoryEntry { value, shard: self.shard, timestamp: self.clk });
        proof {
            assert forall|a: u32| #[trigger]
                self.entry(a) == (if in_region(a as int, addr as int, 1) {
                    MemoryEntry {
                        value: seq![value][(a - addr) / 4],
                        shard: old(self).shard,
                        timestamp: old(self).clk,
                    }
                } else {
                    old(self).entry(a)
                }) by {
                if in_region(a as int, addr as int, 1) {
                    assert(a == addr);
                }
            }
        }
        MemoryWriteRecord {
            addr,
            value,
            shard: self.shard,
            timestamp: self.clk,
            prev_value: e.value,
            prev_shard: e.shard,
            prev_timestamp: e.timestamp,
        }
    }

    /// Reads the `len` words from `addr` on now, lowest address first: one record for each
    /// word, and the values read.
    pub fn mr_slice(&mut self, addr: u32, len: usize) -> (r: (Vec<MemoryReadRecord>, Vec<u32>))
        requires
            region_valid(addr, len as nat),
            old(self).region_fresh(addr, len as nat),
        ensures
            r.0@.len() == len,
            forall|i: int|
                0 <= i < len ==> #[trigger] r.0@[i] == old(self).read_record((addr + 4 * i) as u32),
            reads_wf(r.0@),
            r.1@ == old(self).words(addr, len as nat),
            final(self).wrote(*old(self), addr, old(self).words(addr, len as nat)),
    {
        let mut records: Vec<MemoryReadRecord> = Vec::new();
        let mut values: Vec<u32> = Vec::new();
        let mut i: usize = 0;
        while i < len
            invariant
                i <= len,
                region_valid(addr, len as nat),
                old(self).region_fresh(addr, len as nat),
                records@.len() == i,
                values@.len() == i,
                forall|k: int|
                    0 <= k < i ==> #[trigger] records@[k] == old(self).read_record(
                        (addr + 4 * k) as u32,
                    ),
                forall|k: int| 0 <= k < i ==> (#[trigger] records@[k]).wf(),
                forall|k: int| 0 <= k < i ==> values@[k] == old(self).word((addr + 4 * k) as u32),
                self.wrote(*old(self), addr, old(self).words(addr, i as nat)),
            decreases len - i,
        {
            let a: u32 = addr + 4 * (i as u32);
            let ghost before = *self;
            proof {
                assert(!in_region(a as int, addr as int, i as int));
                assert(self.entry(a) == old(self).entry(a));
                assert(in_region(a as int, addr as int, len as int));
                assert(old(self).fresh(a));
            }
            let record: MemoryReadRecord = self.mr(a);
            records.push(record);
            values.push(record.value);
            proof {
                let done = old(self).words(addr, (i + 1) as nat);
                assert forall|x: u32| #[trigger]
                    self.entry(x) == (if in_region(x as int, addr as int, i + 1) {
                        MemoryEntry {
                            value: done[(x - addr) / 4],
                            shard: old(self).shard,
                            timestamp: old(self).clk,
                        }
                    } else {
                        old(self).entry(x)
                    }) by {
                    lemma_region_step(x as int, addr as int, i as int);
                    if x == a {
                        assert(in_region(x as int, a as int, 1));
                        assert((x - addr) / 4 == i);
                    } else {
                        assert(!in_region(x as int, a as int, 1));
                        assert(self.entry(x) == before.entry(x));
                    }
                }
            }
            i = i + 1;
        }
        assert(values@ =~= old(self).words(addr, len as nat));
        (records, values)
    }

    /// Writes `values` to the words from `addr` on now, lowest address first: one record for
    /// each word.
    pub fn mw_slice(&mut self, addr: u32, values: &[u32]) -> (records: Vec<MemoryWriteRecord>)
        requires
            region_valid(addr, values@.len()),
            old(self).region_fresh(addr, values@.len()),
        ensures
            records@.len() == values@.len(),
            forall|i: int|
                0 <= i < values@.len() ==> #[trigger] records@[i] == old(self).write_record(
                    (addr + 4 * i) as u32,
                    values@[i],
                ),
            writes_wf(records@),
            final(self).wrote(*old(self), addr, values@),
    {
        let len: usize = values.len();
        let mut records: Vec<MemoryWriteRecord> = Vec::new();
        let mut i: usize = 0;
        while i < len
            invariant
                i <= len,
                len == values@.len(),
                region_valid(addr, len as nat),
                old(self).region_fresh(addr, len as nat),
                records@.len() == i,
                forall|k: int|
                    0 <= k < i ==> #[trigger] records@[k] == old(self).write_record(
                        (addr + 4 * k) as u32,
                        values@[k],
                    ),
                forall|k: int| 0 <= k < i ==> (#[trigger] records@[k]).wf(),
                self.wrote(*old(self), addr, values@.take(i as int)),
            decreases len - i,
        {
            let a: u32 = addr + 4 * (i as u32);
            let ghost before = *self;
            proof {
                assert(!in_region(a as int, addr as int, i as int));
                assert(self.entry(a) == old(self).entry(a));
                assert(in_region(a as int, addr as int, len as int));
                assert(old(self).fresh(a));
            }
            let record: MemoryWriteRecord = self.mw(a, values[i]);
            records.push(record);
            proof {
                let done = values@.take(i + 1);
                assert forall|x: u32| #[trigger]
                    self.entry(x) == (if in_region(x as int, addr as int, i + 1) {
                        MemoryEntry {
                            value: done[(x - addr) / 4],
                            shard: old(self).shard,
                            timestamp: old(self).clk,
                        }
                    } else {
                        old(self).entry(x)
                    }) by {
                    lemma_region_step(x as int, addr as int, i as int);
                    if x == a {
                        assert(in_region(x as int, a as int, 1));
                        assert((x - addr) / 4 == i);
                    } else {
                        assert(!in_region(x as int, a as int, 1));
                        assert(self.entry(x) == before.entry(x));
                    }
                }
            }
            i = i + 1;
        }
        assert(values@.take(len as int) =~= values@);
        records
    }
}

/// A run of `n + 1` words is the run of the first `n` and the word after them.
pub proof fn lemma_region_step(x: int, addr: int, n: int)
    requires
        0 <= n,
    ensures
        in_region(x, addr, n + 1) <==> (in_region(x, addr, n) || x == addr + 4 * n),
        in_region(x, addr, n) ==> 0 <= (x - addr) / 4 < n,
        x == addr + 4 * n ==> (x - addr) / 4 == n,
{
}

} // verus!
