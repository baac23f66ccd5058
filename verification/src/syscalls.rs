//! The precompile syscalls themselves: what each does to memory, and the event it leaves in
//! the shard's record.
//!
//! A syscall reads its inputs at the present clock, moves the clock on by one and writes its
//! result, so that a word that is both read and written has two records in the right order.
//! Pointers that are not multiples of four, or words that were already accessed at the clock
//! at which the syscall would access them, break the calling convention; the syscalls are
//! defined on the other inputs only.
use crate::events::{
    is_scalar, Bn254FieldArithEvent, Bn254FieldOperation, Bn254MulAddEvent, FieldArithReadAccess,
    FieldArithWriteAccess, MemCopyEvent, MemoryLocalEvent, MemoryRecord, PrecompileEvent,
};
use crate::limbs::{bytes_of_words, le_value};
use crate::mac_core::{mul_add_value, mul_add_words};
use crate::memory::{MemoryReadRecord, MemoryWriteRecord};
use crate::runtime::{in_region, region_valid, regions_disjoint, MemoryEntry, SyscallContext};
use vstd::prelude::*;

verus! {

/// The syscall that copies `NUM_WORDS` words.
#[derive(Clone, Copy, Debug)]
pub struct MemCopySyscall<const NUM_WORDS: usize>;

/// What memory holds of the word at `a` after `len` words were read from `src` on at the
/// present time, as far as `before` says.
pub open spec fn entry_after_read(before: SyscallContext, a: u32, src: u32, len: nat) -> MemoryEntry {
    if in_region(a as int, src as int, len as int) {
        MemoryEntry { value: before.word(a), shard: before.shard, timestamp: before.clk }
    } else {
        before.entry(a)
    }
}

impl<const NUM_WORDS: usize> MemCopySyscall<NUM_WORDS> {
    /// Whether the syscall is defined on a context and two pointers: the chip exists; both
    /// runs of words are words of memory; the source can be read now and the destination
    /// written one clock later.
    pub open spec fn can_execute(rt: SyscallContext, src: u32, dst: u32) -> bool {
        &&& NUM_WORDS == 8 || NUM_WORDS == 16
        &&& rt.clk < u32::MAX
        &&& region_valid(src, NUM_WORDS as nat)
        &&& region_valid(dst, NUM_WORDS as nat)
        &&& rt.region_fresh(src, NUM_WORDS as nat)
        &&& forall|a: u32|
            in_region(a as int, dst as int, NUM_WORDS as int) && !in_region(
                a as int,
                src as int,
                NUM_WORDS as int,
            ) ==> #[trigger] rt.fresh_at(a, (rt.clk + 1) as u32)
    }

    /// Whether `event` is the event of a copy from `src` to `dst` in the context `before`: a
    /// read of each source word at the present clock, and a write of its value to the
    /// destination one clock later.
    pub open spec fn is_event_of(event: MemCopyEvent, before: SyscallContext, src: u32, dst: u32) -> bool {
        &&& event.shard == before.shard
        &&& event.clk == before.clk
        &&& event.src_ptr == src
        &&& event.dst_ptr == dst
        &&& event.read_records@.len() == NUM_WORDS
        &&& event.write_records@.len() == NUM_WORDS
        &&& forall|i: int|
            0 <= i < NUM_WORDS ==> #[trigger] event.read_records@[i] == before.read_record(
                (src + 4 * i) as u32,
            )
        &&& forall|i: int|
            0 <= i < NUM_WORDS ==> #[trigger] event.write_records@[i] == (MemoryWriteRecord {
                addr: (dst + 4 * i) as u32,
                value: before.word((src + 4 * i) as u32),
                shard: before.shard,
                timestamp: (before.clk + 1) as u32,
                prev_value: before.word((dst + 4 * i) as u32),
                prev_shard: entry_after_read(
                    before,
                    (dst + 4 * i) as u32,
                    src,
                    NUM_WORDS as nat,
                ).shard,
                prev_timestamp: entry_after_read(
                    before,
                    (dst + 4 * i) as u32,
                    src,
                    NUM_WORDS as nat,
                ).timestamp,
            })
    }

    /// The event that the syscall appended to a record.
    pub open spec fn last_event(rt: SyscallContext) -> MemCopyEvent {
        if NUM_WORDS == 8 {
            rt.record.memcpy32_events@.last()
        } else {
            rt.record.memcpy64_events@.last()
        }
    }

    /// The syscall.
    pub fn new() -> (s: Self) {
        MemCopySyscall
    }

    /// The clock cycles that the syscall takes beyond the first.
    pub fn num_extra_cycles(&self) -> (n: u32)
        ensures
            n == 1,
    {
        1
    }

    /// Whether the syscall is defined on a context and two pointers.
    pub fn is_executable(rt: &SyscallContext, src: u32, dst: u32) -> (r: bool)
        ensures
            r == Self::can_execute(*rt, src, dst),
    {
        if !(NUM_WORDS == 8 || NUM_WORDS == 16) || rt.clk == u32::MAX {
            return false;
        }
        let span: u64 = 4 * (NUM_WORDS as u64);
        if src % 4 != 0 || dst % 4 != 0 || src as u64 + span > 0x1_0000_0000 || dst as u64 + span
            > 0x1_0000_0000 {
            return false;
        }
        if !rt.is_region_fresh(src, NUM_WORDS) {
            return false;
        }
        let mut i: usize = 0;
        while i < NUM_WORDS
            invariant
                i <= NUM_WORDS,
                NUM_WORDS == 8 || NUM_WORDS == 16,
                span == 4 * NUM_WORDS,
                rt.clk < u32::MAX,
                region_valid(src, NUM_WORDS as nat),
                region_valid(dst, NUM_WORDS as nat),
                forall|a: u32|
                    in_region(a as int, dst as int, i as int) && !in_region(
                        a as int,
                        src as int,
                        NUM_WORDS as int,
                    ) ==> #[trigger] rt.fresh_at(a, (rt.clk + 1) as u32),
            decreases NUM_WORDS - i,
        {
            let a: u32 = dst + 4 * (i as u32);
            let in_src: bool = src <= a && (a as u64) < src as u64 + span;
            proof {
                assert(in_src == in_region(a as int, src as int, NUM_WORDS as int));
            }
            if !in_src {
                let e: MemoryEntry = rt.entry_at(a);
                if !(e.shard < rt.shard || (e.shard == rt.shard && e.timestamp < rt.clk + 1)) {
                    assert(in_region(a as int, dst as int, NUM_WORDS as int));
                    assert(!rt.fresh_at(a, (rt.clk + 1) as u32));
                    return false;
                }
            }
            proof {
                assert forall|x: u32|
                    in_region(x as int, dst as int, i + 1) && !in_region(
                        x as int,
                        src as int,
                        NUM_WORDS as int,
                    ) implies #[trigger] rt.fresh_at(x, (rt.clk + 1) as u32) by {
                    crate::runtime::lemma_region_step(x as int, dst as int, i as int);
                }
            }
            i = i + 1;
        }
        true
    }

    /// Copies `NUM_WORDS` words from `src` to `dst`: reads them now, moves the clock on by one
    /// and writes them, and appends the event to the record. The syscall returns nothing to
    /// the program.
    pub fn execute(&self, rt: &mut SyscallContext, src: u32, dst: u32) -> (r: Option<u32>)
        requires
            Self::can_execute(*old(rt), src, dst),
        ensures
            r is None,
            final(rt).shard == old(rt).shard,
            final(rt).clk == old(rt).clk + 1,
            final(rt).words(dst, NUM_WORDS as nat) == old(rt).words(src, NUM_WORDS as nat),
            forall|a: u32|
                #[trigger] final(rt).entry(a) == (if in_region(
                    a as int,
                    dst as int,
                    NUM_WORDS as int,
                ) {
                    MemoryEntry {
                        value: old(rt).word((src + (a - dst)) as u32),
                        shard: old(rt).shard,
                        timestamp: (old(rt).clk + 1) as u32,
                    }
                } else {
                    entry_after_read(*old(rt), a, src, NUM_WORDS as nat)
                }),
            final(rt).record.added(
                old(rt).record,
                if NUM_WORDS == 8 {
                    PrecompileEvent::MemCopy32(Self::last_event(*final(rt)))
                } else {
                    PrecompileEvent::MemCopy64(Self::last_event(*final(rt)))
                },
            ),
            Self::is_event_of(Self::last_event(*final(rt)), *old(rt), src, dst),
            Self::last_event(*final(rt)).wf(NUM_WORDS as nat),
    {
        let start_clk: u32 = rt.clk;
        let (read_records, values) = rt.mr_slice(src, NUM_WORDS);
        let ghost mid = *rt;
        rt.clk = rt.clk + 1;
        proof {
            assert forall|a: u32| in_region(a as int, dst as int, NUM_WORDS as int) implies #[trigger]
                rt.fresh(a) by {
                if !in_region(a as int, src as int, NUM_WORDS as int) {
                    assert(old(rt).fresh_at(a, (old(rt).clk + 1) as u32));
                }
                assert(rt.entry(a) == mid.entry(a));
            }
        }
        let ghost before_write = *rt;
        let write_records = rt.mw_slice(dst, values.as_slice());
        let event = MemCopyEvent {
            shard: rt.shard,
            clk: start_clk,
            src_ptr: src,
            dst_ptr: dst,
            read_records,
            write_records,
        };
        proof {
            assert forall|a: u32| #[trigger] before_write.entry(a) == entry_after_read(
                *old(rt),
                a,
                src,
                NUM_WORDS as nat,
            ) by {
                assert(before_write.entry(a) == mid.entry(a));
                if in_region(a as int, src as int, NUM_WORDS as int) {
                    assert((src + 4 * ((a - src) / 4)) as u32 == a);
                }
            }
            assert forall|i: int| 0 <= i < NUM_WORDS implies #[trigger] event.write_records@[i]
                == (MemoryWriteRecord {
                addr: (dst + 4 * i) as u32,
                value: old(rt).word((src + 4 * i) as u32),
                shard: old(rt).shard,
                timestamp: (old(rt).clk + 1) as u32,
                prev_value: old(rt).word((dst + 4 * i) as u32),
                prev_shard: entry_after_read(
                    *old(rt),
                    (dst + 4 * i) as u32,
                    src,
                    NUM_WORDS as nat,
                ).shard,
                prev_timestamp: entry_after_read(
                    *old(rt),
                    (dst + 4 * i) as u32,
                    src,
                    NUM_WORDS as nat,
                ).timestamp,
            }) by {
                let a = (dst + 4 * i) as u32;
                assert(before_write.entry(a) == entry_after_read(*old(rt), a, src, NUM_WORDS as nat));
            }
            assert(Self::is_event_of(event, *old(rt), src, dst));
            assert(crate::events::read_values(event.read_records@)
                =~= crate::events::written_values(event.write_records@));
            assert forall|a: u32| #[trigger]
                rt.entry(a) == (if in_region(a as int, dst as int, NUM_WORDS as int) {
                    MemoryEntry {
                        value: old(rt).word((src + (a - dst)) as u32),
                        shard: old(rt).shard,
                        timestamp: (old(rt).clk + 1) as u32,
                    }
                } else {
                    entry_after_read(*old(rt), a, src, NUM_WORDS as nat)
                }) by {
                assert(before_write.entry(a) == entry_after_read(*old(rt), a, src, NUM_WORDS as nat));
                if in_region(a as int, dst as int, NUM_WORDS as int) {
                    let i = (a - dst) / 4;
                    assert(4 * i == a - dst);
                    assert(values@[i] == old(rt).word((src + 4 * i) as u32));
                }
            }
            assert(rt.words(dst, NUM_WORDS as nat) =~= old(rt).words(src, NUM_WORDS as nat)) by {
                let after = rt.words(dst, NUM_WORDS as nat);
                let source = old(rt).words(src, NUM_WORDS as nat);
                assert forall|i: int| 0 <= i < NUM_WORDS implies #[trigger] after[i] == source[i] by {
                    let a = (dst + 4 * i) as u32;
                    assert(in_region(a as int, dst as int, NUM_WORDS as int));
                    assert((a - dst) / 4 == i);
                }
            }
        }
        let ghost written = *rt;
        if NUM_WORDS == 8 {
            rt.record.add_precompile_event(PrecompileEvent::MemCopy32(event));
        } else {
            rt.record.add_precompile_event(PrecompileEvent::MemCopy64(event));
        }
        proof {
            assert forall|a: u32| #[trigger] rt.entry(a) == written.entry(a) by {}
            assert(rt.words(dst, NUM_WORDS as nat) =~= written.words(dst, NUM_WORDS as nat));
        }
        None
    }
}

/// The first and last state of the word at `addr` over an operation that reads it at the
/// present clock and is done one clock later.
fn local_event(rt: &SyscallContext, addr: u32) -> (event: MemoryLocalEvent)
    requires
        rt.clk < u32::MAX,
    ensures
        event.addr == addr,
        event.initial_mem_access == (MemoryRecord {
            shard: rt.shard,
            timestamp: rt.clk,
            value: rt.word(addr),
        }),
        event.final_mem_access == (MemoryRecord {
            shard: rt.shard,
            timestamp: (rt.clk + 1) as u32,
            value: rt.word(addr),
        }),
{
    let value: u32 = rt.word_unsafe(addr);
    MemoryLocalEvent {
        addr,
        initial_mem_access: MemoryRecord { shard: rt.shard, timestamp: rt.clk, value },
        final_mem_access: MemoryRecord { shard: rt.shard, timestamp: rt.clk + 1, value },
    }
}

/// Copies the eight words at `src` to `dst` as the copy syscall does, and returns what the
/// chip of local memory is told of the copy: the first and last state of the source over the
/// copy, which reads it at the present clock and is done one clock later, for its first word.
pub fn memory_copy_32(rt: &mut SyscallContext, src: u32, dst: u32) -> (event: MemoryLocalEvent)
    requires
        MemCopySyscall::<8>::can_execute(*old(rt), src, dst),
    ensures
        final(rt).shard == old(rt).shard,
        final(rt).clk == old(rt).clk + 1,
        final(rt).words(dst, 8) == old(rt).words(src, 8),
        regions_disjoint(src, 8, dst, 8) ==> final(rt).words(src, 8) == old(rt).words(src, 8),
        forall|a: u32|
            #[trigger] final(rt).entry(a) == (if in_region(a as int, dst as int, 8) {
                MemoryEntry {
                    value: old(rt).word((src + (a - dst)) as u32),
                    shard: old(rt).shard,
                    timestamp: (old(rt).clk + 1) as u32,
                }
            } else {
                entry_after_read(*old(rt), a, src, 8)
            }),
        final(rt).record.added(
            old(rt).record,
            PrecompileEvent::MemCopy32(final(rt).record.memcpy32_events@.last()),
        ),
        MemCopySyscall::<8>::is_event_of(final(rt).record.memcpy32_events@.last(), *old(rt), src, dst),
        final(rt).record.memcpy32_events@.last().wf(8),
        event.addr == src,
        event.initial_mem_access == (MemoryRecord {
            shard: old(rt).shard,
            timestamp: old(rt).clk,
            value: old(rt).word(src),
        }),
        event.final_mem_access == (MemoryRecord {
            shard: old(rt).shard,
            timestamp: (old(rt).clk + 1) as u32,
            value: old(rt).word(src),
        }),
{
    let event = local_event(rt, src);
    let syscall = MemCopySyscall::<8>::new();
    syscall.execute(rt, src, dst);
    proof {
        if regions_disjoint(src, 8, dst, 8) {
            let after = rt.words(src, 8);
            let before = old(rt).words(src, 8);
            assert forall|i: int| 0 <= i < 8 implies #[trigger] after[i] == before[i] by {
                let a = (src + 4 * i) as u32;
                assert(in_region(a as int, src as int, 8));
                assert(!in_region(a as int, dst as int, 8));
            }
            assert(after =~= before);
        }
    }
    event
}

/// Copies the sixteen words at `src` to `dst` as the copy syscall does, and returns what the
/// chip of local memory is told of the copy: the first and last state of the source over the
/// copy, which reads it at the present clock and is done one clock later, for its first two
/// words, the low word first.
pub fn memory_copy_64(rt: &mut SyscallContext, src: u32, dst: u32) -> (events: (
    MemoryLocalEvent,
    MemoryLocalEvent,
))
    requires
        MemCopySyscall::<16>::can_execute(*old(rt), src, dst),
    ensures
        final(rt).shard == old(rt).shard,
        final(rt).clk == old(rt).clk + 1,
        final(rt).words(dst, 16) == old(rt).words(src, 16),
        regions_disjoint(src, 16, dst, 16) ==> final(rt).words(src, 16) == old(rt).words(src, 16),
        forall|a: u32|
            #[trigger] final(rt).entry(a) == (if in_region(a as int, dst as int, 16) {
                MemoryEntry {
                    value: old(rt).word((src + (a - dst)) as u32),
                    shard: old(rt).shard,
                    timestamp: (old(rt).clk + 1) as u32,
                }
            } else {
                entry_after_read(*old(rt), a, src, 16)
            }),
        final(rt).record.added(
            old(rt).record,
            PrecompileEvent::MemCopy64(final(rt).record.memcpy64_events@.last()),
        ),
        MemCopySyscall::<16>::is_event_of(final(rt).record.memcpy64_events@.last(), *old(rt), src, dst),
        final(rt).record.memcpy64_events@.last().wf(16),
        events.0.addr == src,
        events.0.initial_mem_access == (MemoryRecord {
            shard: old(rt).shard,
            timestamp: old(rt).clk,
            value: old(rt).word(src),
        }),
        events.0.final_mem_access == (MemoryRecord {
            shard: old(rt).shard,
            timestamp: (old(rt).clk + 1) as u32,
            value: old(rt).word(src),
        }),
        events.1.addr == src + 4,
        events.1.initial_mem_access == (MemoryRecord {
            shard: old(rt).shard,
            timestamp: old(rt).clk,
            value: old(rt).word((src + 4) as u32),
        }),
        events.1.final_mem_access == (MemoryRecord {
            shard: old(rt).shard,
            timestamp: (old(rt).clk + 1) as u32,
            value: old(rt).word((src + 4) as u32),
        }),
{
    let low = local_event(rt, src);
    let high = local_event(rt, src + 4);
    let syscall = MemCopySyscall::<16>::new();
    syscall.execute(rt, src, dst);
    proof {
        if regions_disjoint(src, 16, dst, 16) {
            let after = rt.words(src, 16);
            let before = old(rt).words(src, 16);
            assert forall|i: int| 0 <= i < 16 implies #[trigger] after[i] == before[i] by {
                let a = (src + 4 * i) as u32;
                assert(in_region(a as int, src as int, 16));
                assert(!in_region(a as int, dst as int, 16));
            }
            assert(after =~= before);
        }
    }
    (low, high)
}

/// The syscall of the 256-bit multiply-add: the eight words at the first pointer are replaced
/// by `x + a * b` modulo the BN254 scalar field's order, where `x` is what they held and `a`
/// and `b` are the two runs of eight words at the second pointer.
#[derive(Clone, Copy, Debug)]
pub struct Bn254MulAddSyscall;

/// The first `n` of the values of a run.
pub fn first_words(values: &Vec<u32>, from: usize, n: usize) -> (part: Vec<u32>)
    requires
        from + n <= values@.len(),
    ensures
        part@ == values@.subrange(from as int, from + n),
{
    let mut part: Vec<u32> = Vec::new();
    let total: usize = values.len();
    let mut i: usize = 0;
    while i < n
        invariant
            i <= n,
            from + n <= values@.len() == total,
            part@ == values@.subrange(from as int, from + i),
        decreases n - i,
    {
        part.push(values[from + i]);
        assert(part@ =~= values@.subrange(from as int, from + i + 1));
        i = i + 1;
    }
    part
}

/// The records of a run from `from` on, `n` of them.
pub fn some_records(records: &Vec<MemoryReadRecord>, from: usize, n: usize) -> (part: Vec<
    MemoryReadRecord,
>)
    requires
        from + n <= records@.len(),
    ensures
        part@ == records@.subrange(from as int, from + n),
{
    let mut part: Vec<MemoryReadRecord> = Vec::new();
    let total: usize = records.len();
    let mut i: usize = 0;
    while i < n
        invariant
            i <= n,
            from + n <= records@.len() == total,
            part@ == records@.subrange(from as int, from + i),
        decreases n - i,
    {
        part.push(records[from + i]);
        assert(part@ =~= records@.subrange(from as int, from + i + 1));
        i = i + 1;
    }
    part
}

impl Bn254MulAddSyscall {
    /// Whether the syscall is defined on a context and two pointers: the eight words at
    /// `x_ptr` and the sixteen at `y_ptr` are words of memory; the sixteen can be read now, and
    /// the eight written one clock later.
    pub open spec fn can_execute(rt: SyscallContext, x_ptr: u32, y_ptr: u32) -> bool {
        &&& rt.clk < u32::MAX
        &&& region_valid(x_ptr, 8)
        &&& region_valid(y_ptr, 16)
        &&& rt.region_fresh(y_ptr, 16)
        &&& forall|a: u32|
            in_region(a as int, x_ptr as int, 8) && !in_region(a as int, y_ptr as int, 16)
                ==> #[trigger] rt.fresh_at(a, (rt.clk + 1) as u32)
    }

    /// Whether `event` is the event of the syscall on `x_ptr` and `y_ptr` in the context
    /// `before`.
    pub open spec fn is_event_of(
        event: Bn254MulAddEvent,
        before: SyscallContext,
        x_ptr: u32,
        y_ptr: u32,
    ) -> bool {
        &&& event.lookup_id == 0
        &&& event.local_mem_access@.len() == 0
        &&& event.shard == before.shard
        &&& event.clk == before.clk
        &&& event.x_ptr == x_ptr
        &&& event.y_ptr == y_ptr
        &&& event.x@ == before.words(x_ptr, 8)
        &&& event.a@ == before.words(y_ptr, 8)
        &&& event.b@ == before.words((y_ptr + 32) as u32, 8)
        &&& event.a_memory_records@.len() == 8
        &&& event.b_memory_records@.len() == 8
        &&& event.x_memory_records@.len() == 8
        &&& forall|i: int|
            0 <= i < 8 ==> #[trigger] event.a_memory_records@[i] == before.read_record(
                (y_ptr + 4 * i) as u32,
            )
        &&& forall|i: int|
            0 <= i < 8 ==> #[trigger] event.b_memory_records@[i] == before.read_record(
                (y_ptr + 32 + 4 * i) as u32,
            )
        &&& forall|i: int|
            0 <= i < 8 ==> {
                let r = #[trigger] event.x_memory_records@[i];
                let e = entry_after_read(before, (x_ptr + 4 * i) as u32, y_ptr, 16);
                &&& r.addr == x_ptr + 4 * i
                &&& r.shard == before.shard
                &&& r.timestamp == before.clk + 1
                &&& r.prev_value == before.word((x_ptr + 4 * i) as u32)
                &&& r.prev_shard == e.shard
                &&& r.prev_timestamp == e.timestamp
            }
        &&& event.well_recorded()
    }

    /// The syscall.
    pub fn new() -> (s: Self) {
        Bn254MulAddSyscall
    }

    /// The clock cycles that the syscall takes beyond the first.
    pub fn num_extra_cycles(&self) -> (n: u32)
        ensures
            n == 1,
    {
        1
    }

    /// Whether the syscall is defined on a context and two pointers.
    pub fn is_executable(rt: &SyscallContext, x_ptr: u32, y_ptr: u32) -> (r: bool)
        ensures
            r == Self::can_execute(*rt, x_ptr, y_ptr),
    {
        if rt.clk == u32::MAX || x_ptr % 4 != 0 || y_ptr % 4 != 0 || x_ptr as u64 + 32
            > 0x1_0000_0000 || y_ptr as u64 + 64 > 0x1_0000_0000 {
            return false;
        }
        if !rt.is_region_fresh(y_ptr, 16) {
            return false;
        }
        let mut i: usize = 0;
        while i < 8
            invariant
                i <= 8,
                rt.clk < u32::MAX,
                region_valid(x_ptr, 8),
                region_valid(y_ptr, 16),
                forall|a: u32|
                    in_region(a as int, x_ptr as int, i as int) && !in_region(
                        a as int,
                        y_ptr as int,
                        16,
                    ) ==> #[trigger] rt.fresh_at(a, (rt.clk + 1) as u32),
            decreases 8 - i,
        {
            let a: u32 = x_ptr + 4 * (i as u32);
            let in_y: bool = y_ptr <= a && (a as u64) < y_ptr as u64 + 64;
            proof {
                assert(in_y == in_region(a as int, y_ptr as int, 16));
            }
            if !in_y {
                let e: MemoryEntry = rt.entry_at(a);
                if !(e.shard < rt.shard || (e.shard == rt.shard && e.timestamp < rt.clk + 1)) {
                    assert(in_region(a as int, x_ptr as int, 8));
                    assert(!rt.fresh_at(a, (rt.clk + 1) as u32));
                    return false;
                }
            }
            proof {
                assert forall|x: u32|
                    in_region(x as int, x_ptr as int, i + 1) && !in_region(
                        x as int,
                        y_ptr as int,
                        16,
                    ) implies #[trigger] rt.fresh_at(x, (rt.clk + 1) as u32) by {
                    crate::runtime::lemma_region_step(x as int, x_ptr as int, i as int);
                }
            }
            i = i + 1;
        }
        true
    }

    /// Replaces the eight words at `x_ptr` by `x + a * b` modulo the order: reads `a` and `b`
    /// at `y_ptr` now, moves the clock on by one and writes the result over `x`, and appends
    /// the event to the record. The syscall returns nothing to the program.
    pub fn execute(&self, rt: &mut SyscallContext, x_ptr: u32, y_ptr: u32) -> (r: Option<u32>)
        requires
            Self::can_execute(*old(rt), x_ptr, y_ptr),
        ensures
            r is None,
            final(rt).shard == old(rt).shard,
            final(rt).clk == old(rt).clk + 1,
            le_value(bytes_of_words(final(rt).words(x_ptr, 8))) == mul_add_value(
                le_value(bytes_of_words(old(rt).words(x_ptr, 8))),
                le_value(bytes_of_words(old(rt).words(y_ptr, 8))),
                le_value(bytes_of_words(old(rt).words((y_ptr + 32) as u32, 8))),
            ),
            forall|a: u32|
                !in_region(a as int, x_ptr as int, 8) ==> #[trigger] final(rt).entry(a)
                    == entry_after_read(*old(rt), a, y_ptr, 16),
            forall|a: u32|
                in_region(a as int, x_ptr as int, 8) ==> (#[trigger] final(rt).entry(a)).shard
                    == old(rt).shard && final(rt).entry(a).timestamp == old(rt).clk + 1,
            final(rt).record.added(
                old(rt).record,
                PrecompileEvent::Bn254MulAdd(final(rt).record.bn254_muladd_events@.last()),
            ),
            Self::is_event_of(final(rt).record.bn254_muladd_events@.last(), *old(rt), x_ptr, y_ptr),
            is_scalar(old(rt).words(x_ptr, 8)) && is_scalar(old(rt).words(y_ptr, 8)) && is_scalar(
                old(rt).words((y_ptr + 32) as u32, 8),
            ) ==> final(rt).record.bn254_muladd_events@.last().wf(),
    {
        let start_clk: u32 = rt.clk;
        let x: Vec<u32> = rt.slice_unsafe(x_ptr, 8);
        let (y_records, y) = rt.mr_slice(y_ptr, 16);
        let ghost mid = *rt;
        let a: Vec<u32> = first_words(&y, 0, 8);
        let b: Vec<u32> = first_words(&y, 8, 8);
        let a_memory_records: Vec<MemoryReadRecord> = some_records(&y_records, 0, 8);
        let b_memory_records: Vec<MemoryReadRecord> = some_records(&y_records, 8, 8);
        proof {
            assert(a@ =~= old(rt).words(y_ptr, 8));
            assert(b@ =~= old(rt).words((y_ptr + 32) as u32, 8));
        }
        let result: Vec<u32> = mul_add_words(x.as_slice(), a.as_slice(), b.as_slice());
        rt.clk = rt.clk + 1;
        proof {
            assert forall|w: u32| in_region(w as int, x_ptr as int, 8) implies #[trigger] rt.fresh(
                w,
            ) by {
                if !in_region(w as int, y_ptr as int, 16) {
                    assert(old(rt).fresh_at(w, (old(rt).clk + 1) as u32));
                }
                assert(rt.entry(w) == mid.entry(w));
            }
        }
        let ghost before_write = *rt;
        let x_memory_records = rt.mw_slice(x_ptr, result.as_slice());
        let event = Bn254MulAddEvent {
            lookup_id: 0,
            shard: rt.shard,
            clk: start_clk,
            x_ptr,
            x,
            y_ptr,
            a,
            b,
            x_memory_records,
            a_memory_records,
            b_memory_records,
            local_mem_access: Vec::new(),
        };
        proof {
            assert forall|w: u32| #[trigger] before_write.entry(w) == entry_after_read(
                *old(rt),
                w,
                y_ptr,
                16,
            ) by {
                assert(before_write.entry(w) == mid.entry(w));
                if in_region(w as int, y_ptr as int, 16) {
                    assert((y_ptr + 4 * ((w - y_ptr) / 4)) as u32 == w);
                }
            }
            assert forall|i: int| 0 <= i < 8 implies {
                let r = #[trigger] event.x_memory_records@[i];
                let e = entry_after_read(*old(rt), (x_ptr + 4 * i) as u32, y_ptr, 16);
                &&& r.addr == x_ptr + 4 * i
                &&& r.shard == old(rt).shard
                &&& r.timestamp == old(rt).clk + 1
                &&& r.prev_value == old(rt).word((x_ptr + 4 * i) as u32)
                &&& r.prev_shard == e.shard
                &&& r.prev_timestamp == e.timestamp
            } by {
                let w = (x_ptr + 4 * i) as u32;
                assert(before_write.entry(w) == entry_after_read(*old(rt), w, y_ptr, 16));
            }
            assert(crate::events::overwritten_values(event.x_memory_records@) =~= event.x@);
            assert(crate::events::read_values(event.a_memory_records@) =~= event.a@);
            assert(crate::events::read_values(event.b_memory_records@) =~= event.b@);
            assert(crate::events::written_values(event.x_memory_records@) =~= result@);
            assert(rt.words(x_ptr, 8) =~= result@) by {
                let after = rt.words(x_ptr, 8);
                assert forall|i: int| 0 <= i < 8 implies #[trigger] after[i] == result@[i] by {
                    let w = (x_ptr + 4 * i) as u32;
                    assert(in_region(w as int, x_ptr as int, 8));
                    assert((w - x_ptr) / 4 == i);
                }
            }
            assert(event.well_recorded());
            assert(Self::is_event_of(event, *old(rt), x_ptr, y_ptr));
        }
        let ghost written = *rt;
        rt.record.add_precompile_event(PrecompileEvent::Bn254MulAdd(event));
        proof {
            assert forall|w: u32| #[trigger] rt.entry(w) == written.entry(w) by {}
            assert(rt.words(x_ptr, 8) =~= written.words(x_ptr, 8));
        }
        None
    }
}

/// The syscall of the scalar multiply-accumulate.
#[derive(Clone, Copy, Debug)]
pub struct Bn254ScalarMacSyscall;

/// The syscall of the scalar multiply-add.
#[derive(Clone, Copy, Debug)]
pub struct Bn254ScalarMulAddSyscall;

/// Whether a scalar syscall reads the word at `a`: whether it is one of the two pointer words
/// at `q_ptr` or a word of one of the two factors behind them.
pub open spec fn scalar_reads(rt: SyscallContext, q_ptr: u32, a: u32) -> bool {
    ||| in_region(a as int, q_ptr as int, 2)
    ||| in_region(a as int, rt.word(q_ptr) as int, 8)
    ||| in_region(a as int, rt.word((q_ptr + 4) as u32) as int, 8)
}

/// What memory holds of the word at `a` after a scalar syscall has read its inputs, as far as
/// `before` says.
pub open spec fn entry_after_scalar_reads(before: SyscallContext, q_ptr: u32, a: u32) -> MemoryEntry {
    if scalar_reads(before, q_ptr, a) {
        MemoryEntry { value: before.word(a), shard: before.shard, timestamp: before.clk }
    } else {
        before.entry(a)
    }
}

/// Whether a scalar syscall is defined on a context and two pointers: the accumulator at
/// `p_ptr`, the two pointer words at `q_ptr` and the two factors behind them are words of
/// memory; the pointer words and the factors share no word and can be read now; and the
/// accumulator can be written one clock later.
pub open spec fn can_execute_scalar(rt: SyscallContext, p_ptr: u32, q_ptr: u32) -> bool {
    let a_ptr = rt.word(q_ptr);
    let b_ptr = rt.word((q_ptr + 4) as u32);
    &&& rt.clk < u32::MAX
    &&& region_valid(p_ptr, 8)
    &&& region_valid(q_ptr, 2)
    &&& region_valid(a_ptr, 8)
    &&& region_valid(b_ptr, 8)
    &&& regions_disjoint(q_ptr, 2, a_ptr, 8)
    &&& regions_disjoint(q_ptr, 2, b_ptr, 8)
    &&& regions_disjoint(a_ptr, 8, b_ptr, 8)
    &&& rt.region_fresh(q_ptr, 2)
    &&& rt.region_fresh(a_ptr, 8)
    &&& rt.region_fresh(b_ptr, 8)
    &&& forall|a: u32|
        in_region(a as int, p_ptr as int, 8) && !scalar_reads(rt, q_ptr, a) ==> #[trigger] rt.fresh_at(
            a,
            (rt.clk + 1) as u32,
        )
}

/// Whether `event` is the event of a scalar syscall on `p_ptr` and `q_ptr` in the context
/// `before`.
pub open spec fn is_scalar_event_of(
    event: Bn254FieldArithEvent,
    before: SyscallContext,
    p_ptr: u32,
    q_ptr: u32,
) -> bool {
    let a_ptr = before.word(q_ptr);
    let b_ptr = before.word((q_ptr + 4) as u32);
    &&& event.shard == before.shard
    &&& event.clk == before.clk
    &&& event.arg1.ptr == p_ptr
    &&& event.arg2.ptr == q_ptr
    &&& event.well_recorded()
    &&& event.a->0.ptr == a_ptr
    &&& event.b->0.ptr == b_ptr
    &&& event.arg1.prev_words() == before.words(p_ptr, 8)
    &&& event.a->0.words() == before.words(a_ptr, 8)
    &&& event.b->0.words() == before.words(b_ptr, 8)
    &&& forall|i: int|
        0 <= i < 2 ==> #[trigger] event.arg2.memory_records@[i] == before.read_record(
            (q_ptr + 4 * i) as u32,
        )
    &&& forall|i: int|
        0 <= i < 8 ==> #[trigger] event.a->0.memory_records@[i] == before.read_record(
            (a_ptr + 4 * i) as u32,
        )
    &&& forall|i: int|
        0 <= i < 8 ==> #[trigger] event.b->0.memory_records@[i] == before.read_record(
            (b_ptr + 4 * i) as u32,
        )
    &&& forall|i: int|
        0 <= i < 8 ==> {
            let r = #[trigger] event.arg1.memory_records@[i];
            let e = entry_after_scalar_reads(before, q_ptr, (p_ptr + 4 * i) as u32);
            &&& r.addr == p_ptr + 4 * i
            &&& r.shard == before.shard
            &&& r.timestamp == before.clk + 1
            &&& r.prev_shard == e.shard
            &&& r.prev_timestamp == e.timestamp
        }
}

/// Whether `[a, a + 4 * a_len)` and `[b, b + 4 * b_len)` share no word.
fn disjoint(a: u32, a_len: u64, b: u32, b_len: u64) -> (r: bool)
    requires
        a_len <= 16,
        b_len <= 16,
    ensures
        r == regions_disjoint(a, a_len as nat, b, b_len as nat),
{
    a as u64 + 4 * a_len <= b as u64 || b as u64 + 4 * b_len <= a as u64
}

/// Whether `a` is the address of one of the `len` words from `addr` on.
fn within_region(a: u32, addr: u32, len: u64) -> (r: bool)
    requires
        len <= 16,
    ensures
        r == in_region(a as int, addr as int, len as int),
{
    addr <= a && (a as u64) < addr as u64 + 4 * len && (a - addr) % 4 == 0
}

/// Whether the eight words from `addr` on are words of memory.
fn valid_region(addr: u32, len: u64) -> (r: bool)
    requires
        len <= 16,
    ensures
        r == region_valid(addr, len as nat),
{
    addr % 4 == 0 && addr as u64 + 4 * len <= 0x1_0000_0000
}

/// Whether a scalar syscall is defined on a context and two pointers.
pub fn is_executable_scalar(rt: &SyscallContext, p_ptr: u32, q_ptr: u32) -> (r: bool)
    ensures
        r == can_execute_scalar(*rt, p_ptr, q_ptr),
{
    if rt.clk == u32::MAX || !valid_region(p_ptr, 8) || !valid_region(q_ptr, 2) {
        return false;
    }
    let a_ptr: u32 = rt.word_unsafe(q_ptr);
    let b_ptr: u32 = rt.word_unsafe(q_ptr + 4);
    if !valid_region(a_ptr, 8) || !valid_region(b_ptr, 8) {
        return false;
    }
    if !disjoint(q_ptr, 2, a_ptr, 8) || !disjoint(q_ptr, 2, b_ptr, 8) || !disjoint(
        a_ptr,
        8,
        b_ptr,
        8,
    ) {
        return false;
    }
    if !rt.is_region_fresh(q_ptr, 2) || !rt.is_region_fresh(a_ptr, 8) || !rt.is_region_fresh(
        b_ptr,
        8,
    ) {
        return false;
    }
    let mut i: usize = 0;
    while i < 8
        invariant
            i <= 8,
            rt.clk < u32::MAX,
            region_valid(p_ptr, 8),
            region_valid(q_ptr, 2),
            a_ptr == rt.word(q_ptr),
            b_ptr == rt.word((q_ptr + 4) as u32),
            forall|a: u32|
                in_region(a as int, p_ptr as int, i as int) && !scalar_reads(*rt, q_ptr, a)
                    ==> #[trigger] rt.fresh_at(a, (rt.clk + 1) as u32),
        decreases 8 - i,
    {
        let a: u32 = p_ptr + 4 * (i as u32);
        let read: bool = within_region(a, q_ptr, 2) || within_region(a, a_ptr, 8) || within_region(
            a,
            b_ptr,
            8,
        );
        if !read {
            let e: MemoryEntry = rt.entry_at(a);
            if !(e.shard < rt.shard || (e.shard == rt.shard && e.timestamp < rt.clk + 1)) {
                assert(in_region(a as int, p_ptr as int, 8));
                assert(!rt.fresh_at(a, (rt.clk + 1) as u32));
                return false;
            }
        }
        proof {
            assert forall|x: u32|
                in_region(x as int, p_ptr as int, i + 1) && !scalar_reads(*rt, q_ptr, x) implies #[trigger]
                rt.fresh_at(x, (rt.clk + 1) as u32) by {
                crate::runtime::lemma_region_step(x as int, p_ptr as int, i as int);
            }
        }
        i = i + 1;
    }
    true
}

/// Does what a scalar syscall does to memory and returns the event: reads the two pointer
/// words at `arg2` and the two factors behind them now, moves the clock on by one and writes
/// `x + a * b` modulo the order over the accumulator at `arg1`.
pub fn create_bn254_scalar_arith_event(
    rt: &mut SyscallContext,
    arg1: u32,
    arg2: u32,
    op: Bn254FieldOperation,
) -> (event: Bn254FieldArithEvent)
    requires
        can_execute_scalar(*old(rt), arg1, arg2),
    ensures
        final(rt).shard == old(rt).shard,
        final(rt).clk == old(rt).clk + 1,
        final(rt).record == old(rt).record,
        le_value(bytes_of_words(final(rt).words(arg1, 8))) == mul_add_value(
            le_value(bytes_of_words(old(rt).words(arg1, 8))),
            le_value(bytes_of_words(old(rt).words(old(rt).word(arg2), 8))),
            le_value(bytes_of_words(old(rt).words(old(rt).word((arg2 + 4) as u32), 8))),
        ),
        forall|a: u32|
            !in_region(a as int, arg1 as int, 8) ==> #[trigger] final(rt).entry(a)
                == entry_after_scalar_reads(*old(rt), arg2, a),
        forall|a: u32|
            in_region(a as int, arg1 as int, 8) ==> (#[trigger] final(rt).entry(a)).shard == old(
                rt,
            ).shard && final(rt).entry(a).timestamp == old(rt).clk + 1,
        event.op == op,
        is_scalar_event_of(event, *old(rt), arg1, arg2),
        is_scalar(event.arg1.prev_words()) && is_scalar(event.a->0.words()) && is_scalar(
            event.b->0.words(),
        ) ==> event.wf(),
{
    let start_clk: u32 = rt.clk;
    let x: Vec<u32> = rt.slice_unsafe(arg1, 8);
    let (arg2_records, pointers) = rt.mr_slice(arg2, 2);
    let a_ptr: u32 = pointers[0];
    let b_ptr: u32 = pointers[1];
    let ghost after_pointers = *rt;
    proof {
        assert(a_ptr == old(rt).word(arg2));
        assert(b_ptr == old(rt).word((arg2 + 4) as u32));
        assert forall|w: u32| in_region(w as int, a_ptr as int, 8) implies #[trigger] rt.fresh(
            w,
        ) by {
            assert(!in_region(w as int, arg2 as int, 2));
            assert(old(rt).fresh(w));
        }
    }
    let (a_records, a) = rt.mr_slice(a_ptr, 8);
    let ghost after_a = *rt;
    proof {
        assert forall|w: u32| in_region(w as int, b_ptr as int, 8) implies #[trigger] rt.fresh(
            w,
        ) by {
            assert(!in_region(w as int, arg2 as int, 2));
            assert(!in_region(w as int, a_ptr as int, 8));
            assert(old(rt).fresh(w));
            assert(after_pointers.entry(w) == old(rt).entry(w));
        }
    }
    let (b_records, b) = rt.mr_slice(b_ptr, 8);
    let ghost after_b = *rt;
    proof {
        assert forall|w: u32| #[trigger] after_b.entry(w) == entry_after_scalar_reads(
            *old(rt),
            arg2,
            w,
        ) by {
            if in_region(w as int, b_ptr as int, 8) {
                assert((b_ptr + 4 * ((w - b_ptr) / 4)) as u32 == w);
                assert(after_a.entry(w) == after_pointers.entry(w));
                assert(after_pointers.entry(w) == old(rt).entry(w));
            } else if in_region(w as int, a_ptr as int, 8) {
                assert((a_ptr + 4 * ((w - a_ptr) / 4)) as u32 == w);
                assert(after_pointers.entry(w) == old(rt).entry(w));
            } else if in_region(w as int, arg2 as int, 2) {
                assert((arg2 + 4 * ((w - arg2) / 4)) as u32 == w);
            }
        }
        assert(a@ =~= old(rt).words(a_ptr, 8)) by {
            let s1 = after_pointers.words(a_ptr, 8);
            let s2 = old(rt).words(a_ptr, 8);
            assert forall|i: int| 0 <= i < 8 implies #[trigger] s1[i] == s2[i] by {
                let w = (a_ptr + 4 * i) as u32;
                assert(in_region(w as int, a_ptr as int, 8));
                assert(after_pointers.entry(w) == old(rt).entry(w));
            }
        }
        assert(b@ =~= old(rt).words(b_ptr, 8)) by {
            let s1 = after_a.words(b_ptr, 8);
            let s2 = old(rt).words(b_ptr, 8);
            assert forall|i: int| 0 <= i < 8 implies #[trigger] s1[i] == s2[i] by {
                let w = (b_ptr + 4 * i) as u32;
                assert(in_region(w as int, b_ptr as int, 8));
                assert(after_a.entry(w) == after_pointers.entry(w));
                assert(after_pointers.entry(w) == old(rt).entry(w));
            }
        }
    }
    let result: Vec<u32> = mul_add_words(x.as_slice(), a.as_slice(), b.as_slice());
    rt.clk = rt.clk + 1;
    proof {
        assert forall|w: u32| in_region(w as int, arg1 as int, 8) implies #[trigger] rt.fresh(
            w,
        ) by {
            assert(rt.entry(w) == after_b.entry(w));
            if !scalar_reads(*old(rt), arg2, w) {
                assert(old(rt).fresh_at(w, (old(rt).clk + 1) as u32));
            }
        }
    }
    let ghost before_write = *rt;
    let arg1_records = rt.mw_slice(arg1, result.as_slice());
    let event = Bn254FieldArithEvent {
        shard: rt.shard,
        clk: start_clk,
        op,
        arg1: FieldArithWriteAccess { ptr: arg1, memory_records: arg1_records },
        arg2: FieldArithReadAccess { ptr: arg2, memory_records: arg2_records },
        a: Some(FieldArithReadAccess { ptr: a_ptr, memory_records: a_records }),
        b: Some(FieldArithReadAccess { ptr: b_ptr, memory_records: b_records }),
    };
    proof {
        assert forall|w: u32| #[trigger] before_write.entry(w) == after_b.entry(w) by {}
        assert forall|i: int| 0 <= i < 8 implies #[trigger] event.a->0.memory_records@[i] == old(
            rt,
        ).read_record((a_ptr + 4 * i) as u32) by {
            let w = (a_ptr + 4 * i) as u32;
            assert(in_region(w as int, a_ptr as int, 8));
            assert(after_pointers.entry(w) == old(rt).entry(w));
        }
        assert forall|i: int| 0 <= i < 8 implies #[trigger] event.b->0.memory_records@[i] == old(
            rt,
        ).read_record((b_ptr + 4 * i) as u32) by {
            let w = (b_ptr + 4 * i) as u32;
            assert(in_region(w as int, b_ptr as int, 8));
            assert(after_a.entry(w) == after_pointers.entry(w));
            assert(after_pointers.entry(w) == old(rt).entry(w));
        }
        assert forall|i: int| 0 <= i < 8 implies {
            let r = #[trigger] event.arg1.memory_records@[i];
            let e = entry_after_scalar_reads(*old(rt), arg2, (arg1 + 4 * i) as u32);
            &&& r.addr == arg1 + 4 * i
            &&& r.shard == old(rt).shard
            &&& r.timestamp == old(rt).clk + 1
            &&& r.prev_value == old(rt).word((arg1 + 4 * i) as u32)
            &&& r.prev_shard == e.shard
            &&& r.prev_timestamp == e.timestamp
        } by {
            let w = (arg1 + 4 * i) as u32;
            assert(before_write.entry(w) == after_b.entry(w));
            assert(after_b.entry(w) == entry_after_scalar_reads(*old(rt), arg2, w));
        }
        assert(event.arg1.prev_words() =~= x@);
        assert(event.a->0.words() =~= a@);
        assert(event.b->0.words() =~= b@);
        assert(crate::events::written_values(event.arg1.memory_records@) =~= result@);
        assert(rt.words(arg1, 8) =~= result@) by {
            let after = rt.words(arg1, 8);
            assert forall|i: int| 0 <= i < 8 implies #[trigger] after[i] == result@[i] by {
                let w = (arg1 + 4 * i) as u32;
                assert(in_region(w as int, arg1 as int, 8));
                assert((w - arg1) / 4 == i);
            }
        }
        assert forall|w: u32| !in_region(w as int, arg1 as int, 8) implies #[trigger] rt.entry(w)
            == entry_after_scalar_reads(*old(rt), arg2, w) by {
            assert(before_write.entry(w) == after_b.entry(w));
        }
    }
    event
}

impl Bn254ScalarMacSyscall {
    /// The syscall.
    pub fn new() -> (s: Self) {
        Bn254ScalarMacSyscall
    }

    /// The clock cycles that the syscall takes beyond the first.
    pub fn num_extra_cycles(&self) -> (n: u32)
        ensures
            n == 1,
    {
        1
    }

    /// Replaces the accumulator at `arg1` by `x + a * b` modulo the order, the factors lying
    /// behind the two pointers at `arg2`, and appends the event to the record's
    /// multiply-accumulate events. The syscall returns nothing to the program.
    pub fn execute(&self, rt: &mut SyscallContext, arg1: u32, arg2: u32) -> (r: Option<u32>)
        requires
            can_execute_scalar(*old(rt), arg1, arg2),
        ensures
            r is None,
            final(rt).shard == old(rt).shard,
            final(rt).clk == old(rt).clk + 1,
            le_value(bytes_of_words(final(rt).words(arg1, 8))) == mul_add_value(
                le_value(bytes_of_words(old(rt).words(arg1, 8))),
                le_value(bytes_of_words(old(rt).words(old(rt).word(arg2), 8))),
                le_value(bytes_of_words(old(rt).words(old(rt).word((arg2 + 4) as u32), 8))),
            ),
            forall|a: u32|
                !in_region(a as int, arg1 as int, 8) ==> #[trigger] final(rt).entry(a)
                    == entry_after_scalar_reads(*old(rt), arg2, a),
            forall|a: u32|
                in_region(a as int, arg1 as int, 8) ==> (#[trigger] final(rt).entry(a)).shard
                    == old(rt).shard && final(rt).entry(a).timestamp == old(rt).clk + 1,
            final(rt).record.added(
                old(rt).record,
                PrecompileEvent::Bn254ScalarMac(final(rt).record.bn254_scalar_mac_events@.last()),
            ),
            is_scalar_event_of(
                final(rt).record.bn254_scalar_mac_events@.last(),
                *old(rt),
                arg1,
                arg2,
            ),
            ({
                let event = final(rt).record.bn254_scalar_mac_events@.last();
                is_scalar(event.arg1.prev_words()) && is_scalar(event.a->0.words()) && is_scalar(
                    event.b->0.words(),
                ) ==> event.wf()
            }),
    {
        let event = create_bn254_scalar_arith_event(rt, arg1, arg2, Bn254FieldOperation::MulAdd);
        let ghost written = *rt;
        rt.record.add_precompile_event(PrecompileEvent::Bn254ScalarMac(event));
        proof {
            assert forall|w: u32| #[trigger] rt.entry(w) == written.entry(w) by {}
            assert(rt.words(arg1, 8) =~= written.words(arg1, 8));
        }
        None
    }
}

impl Bn254ScalarMulAddSyscall {
    /// The syscall.
    pub fn new() -> (s: Self) {
        Bn254ScalarMulAddSyscall
    }

    /// The clock cycles that the syscall takes beyond the first.
    pub fn num_extra_cycles(&self) -> (n: u32)
        ensures
            n == 1,
    {
        1
    }

    /// Replaces the accumulator at `arg1` by `x + a * b` modulo the order, the factors lying
    /// behind the two pointers at `arg2`, and appends the event to the record's multiply-add
    /// events. The syscall returns nothing to the program.
    pub fn execute(&self, rt: &mut SyscallContext, arg1: u32, arg2: u32) -> (r: Option<u32>)
        requires
            can_execute_scalar(*old(rt), arg1, arg2),
        ensures
            r is None,
            final(rt).shard == old(rt).shard,
            final(rt).clk == old(rt).clk + 1,
            le_value(bytes_of_words(final(rt).words(arg1, 8))) == mul_add_value(
                le_value(bytes_of_words(old(rt).words(arg1, 8))),
                le_value(bytes_of_words(old(rt).words(old(rt).word(arg2), 8))),
                le_value(bytes_of_words(old(rt).words(old(rt).word((arg2 + 4) as u32), 8))),
            ),
            forall|a: u32|
                !in_region(a as int, arg1 as int, 8) ==> #[trigger] final(rt).entry(a)
                    == entry_after_scalar_reads(*old(rt), arg2, a),
            forall|a: u32|
                in_region(a as int, arg1 as int, 8) ==> (#[trigger] final(rt).entry(a)).shard
                    == old(rt).shard && final(rt).entry(a).timestamp == old(rt).clk + 1,
            final(rt).record.added(
                old(rt).record,
                PrecompileEvent::Bn254ScalarMulAdd(
                    final(rt).record.bn254_scalar_muladd_events@.last(),
                ),
            ),
            is_scalar_event_of(
                final(rt).record.bn254_scalar_muladd_events@.last(),
                *old(rt),
                arg1,
                arg2,
            ),
            ({
                let event = final(rt).record.bn254_scalar_muladd_events@.last();
                is_scalar(event.arg1.prev_words()) && is_scalar(event.a->0.words()) && is_scalar(
                    event.b->0.words(),
                ) ==> event.wf()
            }),
    {
        let event = create_bn254_scalar_arith_event(rt, arg1, arg2, Bn254FieldOperation::MulAdd);
        let ghost written = *rt;
        rt.record.add_precompile_event(PrecompileEvent::Bn254ScalarMulAdd(event));
        proof {
            assert forall|w: u32| #[trigger] rt.entry(w) == written.entry(w) by {}
            assert(rt.words(arg1, 8) =~= written.words(arg1, 8));
        }
        None
    }
}

} // verus!
