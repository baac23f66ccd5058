//! The ledger of byte and range-check lookups that a shard accumulates.
//!
//! Every limb that a chip witnesses has to be shown to fit its width. A chip does not show this
//! itself: it appends a request to the ledger, and the table that serves the requests is matched
//! against the ledger as a multiset, so the order of the requests carries no meaning.
use crate::field::{residue, Felt};
use vstd::prelude::*;

verus! {

/// What a lookup asks the byte table to confirm.
#[derive(Clone, Copy, Debug, PartialEq, Eq, Structural)]
pub enum ByteOpcode {
    /// Both `b` and `c` fit eight bits.
    U8Range,
    /// `a1` fits sixteen bits.
    U16Range,
}

/// One request to the byte table.
#[derive(Clone, Copy, Debug, PartialEq, Eq, Structural)]
pub struct ByteLookupEvent {
    /// The shard in which the request arose.
    pub shard: u32,
    /// What is asked.
    pub opcode: ByteOpcode,
    /// The sixteen-bit operand.
    pub a1: u16,
    /// The high result byte, unused by range checks.
    pub a2: u8,
    /// The first byte operand.
    pub b: u8,
    /// The second byte operand.
    pub c: u8,
}

/// The request that `a` and `b` are bytes.
pub open spec fn u8_range_event(shard: u32, a: u8, b: u8) -> ByteLookupEvent {
    ByteLookupEvent { shard, opcode: ByteOpcode::U8Range, a1: 0, a2: 0, b: a, c: b }
}

/// The request that `a` fits sixteen bits.
pub open spec fn u16_range_event(shard: u32, a: u16) -> ByteLookupEvent {
    ByteLookupEvent { shard, opcode: ByteOpcode::U16Range, a1: a, a2: 0, b: 0, c: 0 }
}

/// The requests for a run of bytes: one for each pair, and one for a last byte without a
/// partner, paired with zero.
pub open spec fn u8_range_events(shard: u32, bytes: Seq<u8>) -> Seq<ByteLookupEvent> {
    Seq::new(
        ((bytes.len() + 1) / 2) as nat,
        |i: int|
            u8_range_event(
                shard,
                bytes[2 * i],
                if 2 * i + 1 < bytes.len() {
                    bytes[2 * i + 1]
                } else {
                    0
                },
            ),
    )
}

/// The lowest byte of each element's canonical representative.
pub open spec fn low_bytes(values: Seq<Felt>) -> Seq<u8> {
    Seq::new(values.len(), |i: int| (residue(values[i]) % 256) as u8)
}

/// Appends the request that `a` and `b` are bytes.
pub fn add_u8_range_check(ledger: &mut Vec<ByteLookupEvent>, shard: u32, a: u8, b: u8)
    ensures
        final(ledger)@ == old(ledger)@.push(u8_range_event(shard, a, b)),
{
    ledger.push(ByteLookupEvent { shard, opcode: ByteOpcode::U8Range, a1: 0, a2: 0, b: a, c: b });
}

/// Appends the request that `a` fits sixteen bits.
pub fn add_u16_range_check(ledger: &mut Vec<ByteLookupEvent>, shard: u32, a: u16)
    ensures
        final(ledger)@ == old(ledger)@.push(u16_range_event(shard, a)),
{
    ledger.push(ByteLookupEvent { shard, opcode: ByteOpcode::U16Range, a1: a, a2: 0, b: 0, c: 0 });
}

/// Appends the requests for a run of bytes, two bytes to a request.
pub fn add_u8_range_checks(ledger: &mut Vec<ByteLookupEvent>, shard: u32, bytes: &[u8])
    ensures
        final(ledger)@ == old(ledger)@ + u8_range_events(shard, bytes@),
{
    let n: usize = bytes.len();
    let mut index: usize = 0;
    while index < n && index + 1 < n
        invariant
            n == bytes@.len(),
            index <= n,
            index % 2 == 0,
            ledger@.len() == old(ledger)@.len() + index / 2,
            forall|k: int| 0 <= k < old(ledger)@.len() ==> ledger@[k] == old(ledger)@[k],
            forall|k: int|
                0 <= k < index / 2 ==> ledger@[old(ledger)@.len() + k] == u8_range_events(
                    shard,
                    bytes@,
                )[k],
        decreases n - index,
    {
        add_u8_range_check(ledger, shard, bytes[index], bytes[index + 1]);
        index = index + 2;
    }
    if index < n {
        add_u8_range_check(ledger, shard, bytes[index], 0);
    }
    assert(ledger@ =~= old(ledger)@ + u8_range_events(shard, bytes@));
}

/// Appends the requests for the lowest bytes of a run of field elements.
pub fn add_u8_range_checks_field(ledger: &mut Vec<ByteLookupEvent>, shard: u32, values: &[Felt])
    ensures
        final(ledger)@ == old(ledger)@ + u8_range_events(shard, low_bytes(values@)),
{
    let mut bytes: Vec<u8> = Vec::new();
    let mut i: usize = 0;
    while i < values.len()
        invariant
            i <= values@.len(),
            bytes@.len() == i,
            forall|k: int| 0 <= k < i ==> bytes@[k] == low_bytes(values@)[k],
        decreases values@.len() - i,
    {
        let v: u32 = values[i].as_canonical_u32();
        bytes.push((v % 256) as u8);
        i = i + 1;
    }
    assert(bytes@ =~= low_bytes(values@));
    add_u8_range_checks(ledger, shard, bytes.as_slice());
}

/// Two ledgers joined hold the same requests in whichever order they are joined.
pub proof fn lemma_merge_commutes(a: Seq<ByteLookupEvent>, b: Seq<ByteLookupEvent>)
    ensures
        (a + b).to_multiset() == (b + a).to_multiset(),
{
    broadcast use vstd::multiset::group_multiset_axioms;
    vstd::seq_lib::lemma_multiset_commutative(a, b);
    vstd::seq_lib::lemma_multiset_commutative(b, a);
    assert(a.to_multiset().add(b.to_multiset()) =~= b.to_multiset().add(a.to_multiset()));
}

/// Joining ledgers is associative.
pub proof fn lemma_merge_associates(
    a: Seq<ByteLookupEvent>,
    b: Seq<ByteLookupEvent>,
    c: Seq<ByteLookupEvent>,
)
    ensures
        (a + b) + c == a + (b + c),
{
    assert((a + b) + c =~= a + (b + c));
}

} // verus!
