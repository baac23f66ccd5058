//! The precompiles as a guest program calls them: on values, not on pointers.
//!
//! Each function sets up the memory that the syscall expects, runs the syscall and reads the
//! result back, so that it computes what the program would see.
use crate::events::PrecompileEvent;
use crate::field_op::bn254_scalar_modulus;
use crate::limbs::{
    bytes_of_words, bytes_to_words_le, le_value, pow256, resize_limbs, words_to_bytes_le,
};
use crate::mac_core::mul_add_value;
use crate::runtime::{in_region, MemoryEntry, SyscallContext};
use crate::syscalls::{entry_after_read, Bn254MulAddSyscall, MemCopySyscall};
use vstd::prelude::*;

verus! {

/// The number of words of a 256-bit integer.
pub const N: usize = 8;

/// Where the guest functions keep the accumulator.
pub const RESULT_ADDR: u32 = 0x1000;

/// Where the guest functions keep the two factors, side by side.
pub const CONCAT_ADDR: u32 = 0x2000;

/// Sets the words from `addr` on to `values`, without records.
fn store(rt: &mut SyscallContext, addr: u32, values: &[u32])
    requires
        addr % 4 == 0,
        addr + 4 * values@.len() <= 0x1_0000_0000,
        values@.len() <= 64,
    ensures
        final(rt).shard == old(rt).shard,
        final(rt).clk == old(rt).clk,
        final(rt).words(addr, values@.len()) == values@,
        forall|a: u32|
            #[trigger] final(rt).entry(a).shard == old(rt).entry(a).shard && final(rt).entry(
                a,
            ).timestamp == old(rt).entry(a).timestamp,
        forall|a: u32|
            !in_region(a as int, addr as int, values@.len() as int) ==> #[trigger] final(rt).word(a)
                == old(rt).word(a),
{
    let mut i: usize = 0;
    while i < values.len()
        invariant
            i <= values@.len() <= 64,
            addr % 4 == 0,
            addr + 4 * values@.len() <= 0x1_0000_0000,
            rt.shard == old(rt).shard,
            rt.clk == old(rt).clk,
            forall|k: int| 0 <= k < i ==> rt.word((addr + 4 * k) as u32) == #[trigger] values@[k],
            forall|a: u32|
                #[trigger] rt.entry(a).shard == old(rt).entry(a).shard && rt.entry(a).timestamp
                    == old(rt).entry(a).timestamp,
            forall|a: u32|
                !in_region(a as int, addr as int, i as int) ==> #[trigger] rt.word(a) == old(
                    rt,
                ).word(a),
        decreases values@.len() - i,
    {
        let ghost before = *rt;
        rt.write_unsafe(addr + 4 * (i as u32), values[i]);
        proof {
            let w = (addr + 4 * i) as u32;
            assert forall|a: u32| !in_region(a as int, addr as int, i + 1) implies #[trigger] rt.word(
                a,
            ) == old(rt).word(a) by {
                crate::runtime::lemma_region_step(a as int, addr as int, i as int);
                assert(a != w);
                assert(rt.entry(a) == before.entry(a));
                assert(before.word(a) == old(rt).word(a));
            }
            assert forall|k: int| 0 <= k < i + 1 implies rt.word((addr + 4 * k) as u32)
                == #[trigger] values@[k] by {
                if k < i {
                    assert(before.word((addr + 4 * k) as u32) == values@[k]);
                    assert((addr + 4 * k) as u32 != w);
                    assert(rt.entry((addr + 4 * k) as u32) == before.entry((addr + 4 * k) as u32));
                }
            }
        }
        i = i + 1;
    }
    assert(rt.words(addr, values@.len()) =~= values@);
}

/// `z + x * y` modulo the BN254 scalar field's order, as the multiply-add syscall computes it:
/// `z` is stored as the accumulator, `x` and `y` side by side as the factors, and the
/// accumulator is read back after the syscall. `op` is not used.
pub fn sys_bn254_muladd(op: u32, x: &[u32; 8], y: &[u32; 8], z: &[u32; 8]) -> (result: Vec<u32>)
    ensures
        result@.len() == N,
        le_value(bytes_of_words(result@)) == mul_add_value(
            le_value(bytes_of_words(z@)),
            le_value(bytes_of_words(x@)),
            le_value(bytes_of_words(y@)),
        ),
{
    let mut rt: SyscallContext = SyscallContext::new(0, 1);
    store(&mut rt, RESULT_ADDR, z.as_slice());
    store(&mut rt, CONCAT_ADDR, x.as_slice());
    store(&mut rt, CONCAT_ADDR + 32, y.as_slice());
    proof {
        assert(rt.words(RESULT_ADDR, 8) =~= z@) by {
            let s = rt.words(RESULT_ADDR, 8);
            assert forall|i: int| 0 <= i < 8 implies #[trigger] s[i] == z@[i] by {
                let a = (RESULT_ADDR + 4 * i) as u32;
                assert(!in_region(a as int, CONCAT_ADDR as int, 8));
                assert(!in_region(a as int, CONCAT_ADDR as int + 32, 8));
            }
        }
        assert(rt.words(CONCAT_ADDR, 8) =~= x@) by {
            let s = rt.words(CONCAT_ADDR, 8);
            assert forall|i: int| 0 <= i < 8 implies #[trigger] s[i] == x@[i] by {
                let a = (CONCAT_ADDR + 4 * i) as u32;
                assert(!in_region(a as int, CONCAT_ADDR as int + 32, 8));
            }
        }
        assert forall|a: u32| #[trigger] rt.fresh(a) && rt.fresh_at(a, 2) by {
            assert(rt.entry(a).shard == 0 && rt.entry(a).timestamp == 0);
        }
    }
    let syscall = Bn254MulAddSyscall::new();
    syscall.execute(&mut rt, RESULT_ADDR, CONCAT_ADDR);
    rt.slice_unsafe(RESULT_ADDR, 8)
}

/// Eight words as an array.
pub fn words_array(words: &Vec<u32>) -> (array: [u32; 8])
    requires
        words@.len() == 8,
    ensures
        array@ == words@,
{
    let array: [u32; 8] = [
        words[0],
        words[1],
        words[2],
        words[3],
        words[4],
        words[5],
        words[6],
        words[7],
    ];
    assert(array@ =~= words@);
    array
}

/// `x * y + z` modulo the BN254 scalar field's order, on integers of 32 little-endian bytes.
pub fn uint256_muladd(x: &[u8; 32], y: &[u8; 32], z: &[u8; 32]) -> (result: Vec<u8>)
    ensures
        result@.len() == 32,
        le_value(result@) == (le_value(x@) * le_value(y@) + le_value(z@)) % bn254_scalar_modulus(),
{
    let xw: Vec<u32> = bytes_to_words_le(x.as_slice());
    let yw: Vec<u32> = bytes_to_words_le(y.as_slice());
    let zw: Vec<u32> = bytes_to_words_le(z.as_slice());
    proof {
        crate::limbs::lemma_bytes_round_trip(x@);
        crate::limbs::lemma_bytes_round_trip(y@);
        crate::limbs::lemma_bytes_round_trip(z@);
    }
    let xa: [u32; 8] = words_array(&xw);
    let ya: [u32; 8] = words_array(&yw);
    let za: [u32; 8] = words_array(&zw);
    let result: Vec<u32> = sys_bn254_muladd(0, &xa, &ya, &za);
    proof {
        let vx = le_value(x@);
        let vy = le_value(y@);
        let vz = le_value(z@);
        assert(vz + vx * vy == vx * vy + vz);
    }
    words_to_bytes_le(result.as_slice())
}

/// `x * y` modulo `modulus`, or modulo `2^256` where `modulus` is zero. `op` is not used.
pub fn sys_bigint(op: u32, x: &[u32; 8], y: &[u32; 8], modulus: &[u32; 8]) -> (result: Vec<u32>)
    ensures
        result@.len() == N,
        le_value(bytes_of_words(result@)) == (if le_value(bytes_of_words(modulus@)) == 0 {
            (le_value(bytes_of_words(x@)) * le_value(bytes_of_words(y@))) % pow256(32)
        } else {
            (le_value(bytes_of_words(x@)) * le_value(bytes_of_words(y@))) % le_value(
                bytes_of_words(modulus@),
            )
        }),
{
    let xb: Vec<u8> = words_to_bytes_le(x.as_slice());
    let yb: Vec<u8> = words_to_bytes_le(y.as_slice());
    let mb: Vec<u8> = words_to_bytes_le(modulus.as_slice());
    let product: Vec<u8> = crate::bigint::big_mul(xb.as_slice(), yb.as_slice());
    let reduced: Vec<u8> = if crate::limbs::is_zero_limbs(mb.as_slice()) {
        product
    } else {
        crate::bigint::big_rem(product.as_slice(), mb.as_slice())
    };
    let limbs: Vec<u8> = resize_limbs(reduced.as_slice(), 32);
    proof {
        if le_value(mb@) != 0 {
            crate::limbs::lemma_le_value_bound(mb@);
            vstd::arithmetic::div_mod::lemma_mod_bound(
                le_value(product@) as int,
                le_value(mb@) as int,
            );
        }
        crate::limbs::lemma_bytes_round_trip(limbs@);
    }
    bytes_to_words_le(limbs.as_slice())
}

/// Copies the eight words at `src` to `dst` in the context of a running program; see
/// [`MemCopySyscall::execute`].
pub fn syscall_memcopy32(rt: &mut SyscallContext, src: u32, dst: u32)
    requires
        MemCopySyscall::<8>::can_execute(*old(rt), src, dst),
    ensures
        final(rt).shard == old(rt).shard,
        final(rt).clk == old(rt).clk + 1,
        final(rt).words(dst, 8) == old(rt).words(src, 8),
        forall|a: u32|
            #[trigger] final(rt).entry(a) == (if in_region(a as int, dst as int, 8) {
                MemoryEntry {
                    value: old(rt).word((src + (a - dst)) as u32),
                    shard: old(rt).shard,
                    timestamp: (old(rt).clk + 1) as u32,
                }
            } else {
                entry_after_read(*old(rt), a, src, 8)
            }),
        final(rt).record.added(
            old(rt).record,
            PrecompileEvent::MemCopy32(final(rt).record.memcpy32_events@.last()),
        ),
        MemCopySyscall::<8>::is_event_of(
            final(rt).record.memcpy32_events@.last(),
            *old(rt),
            src,
            dst,
        ),
        final(rt).record.memcpy32_events@.last().wf(8),
{
    let syscall = MemCopySyscall::<8>::new();
    syscall.execute(rt, src, dst);
}

/// Copies the sixteen words at `src` to `dst` in the context of a running program; see
/// [`MemCopySyscall::execute`].
pub fn syscall_memcopy64(rt: &mut SyscallContext, src: u32, dst: u32)
    requires
        MemCopySyscall::<16>::can_execute(*old(rt), src, dst),
    ensures
        final(rt).shard == old(rt).shard,
        final(rt).clk == old(rt).clk + 1,
        final(rt).words(dst, 16) == old(rt).words(src, 16),
        forall|a: u32|
            #[trigger] final(rt).entry(a) == (if in_region(a as int, dst as int, 16) {
                MemoryEntry {
                    value: old(rt).word((src + (a - dst)) as u32),
                    shard: old(rt).shard,
                    timestamp: (old(rt).clk + 1) as u32,
                }
            } else {
                entry_after_read(*old(rt), a, src, 16)
            }),
        final(rt).record.added(
            old(rt).record,
            PrecompileEvent::MemCopy64(final(rt).record.memcpy64_events@.last()),
        ),
        MemCopySyscall::<16>::is_event_of(
            final(rt).record.memcpy64_events@.last(),
            *old(rt),
            src,
            dst,
        ),
        final(rt).record.memcpy64_events@.last().wf(16),
{
    let syscall = MemCopySyscall::<16>::new();
    syscall.execute(rt, src, dst);
}

} // verus!
