//! The chip of the fixed-permutation hash: a state of three words goes through four dense
//! rounds, fifty-seven sparse rounds and four more dense rounds, one trace row to a round.
//!
//! A round adds the round's constants to the state, raises words to the fifth power (every
//! word in a dense round, the first word only in a sparse one) and multiplies by a fixed
//! matrix. Whether a round is dense depends on its index alone.
use crate::events::ExecutionRecord;
use crate::field::{fadd, felt_of, fmul, fpow5, fzero, Felt};
use vstd::prelude::*;

pub mod air;
pub mod columns;
pub mod trace;

verus! {

/// The number of words of the state.
pub const WIDTH: usize = 3;

/// The number of dense rounds, half of them before the sparse rounds and half after.
pub const FULL_ROUNDS: usize = 8;

/// The number of sparse rounds.
pub const PARTIAL_ROUNDS: usize = 57;

/// The number of state words that take input.
pub const RATE: usize = 2;

/// The number of rounds of one permutation, and of the rows that restate it.
pub const NUM_ROUNDS: usize = 65;

/// The number of columns of the chip's trace.
pub const NUM_COLS: usize = 32;

/// The matrix of the mixing layer.
pub const POSEIDON_MDS: [[u64; 3]; 3] = [
    [0x2c6dad64b519f5f6, 0x88d797e2c3587014, 0xa07f783a0d634fb9],
    [0x2d80f016b6755e0c, 0x7433dfee8f82b561, 0x8c7131f3c6a437cb],
    [0x1c6046d8df5c8e93, 0xa7e6bdf9c9ebde0e, 0x980d68b4f6972ad4],
];

/// The constants of the dense rounds, a row for each.
pub const POSEIDON_ROUND_CONSTANTS: [[u64; 3]; 8] = [
    [0x0ee9a592707cd727, 0x31f96748d6800b8e, 0x43a7a26a2c46f8c4],
    [0x273b2e90f3844677, 0x0b84c7f81b420ef3, 0x4b7814aa1c136336],
    [0x4f6b30dd1dda2c34, 0x34c082258a3a00d6, 0x0827694a053cf4b6],
    [0x36ae6793eb7d2052, 0x4e56b8d5f7defde4, 0x223e35558ed85f2b],
    [0x0c74c1e32def5e9f, 0x0b9e3f19c8e5d191, 0x4ff34451be63f050],
    [0x08b6e2d2c4467642, 0x366be28448dc562a, 0x4c43183de1739691],
    [0x37962c7e4222ff96, 0x1ba80d4be0c8090f, 0x4c43183de1739691],
    [0x2c6dad64b519f5f6, 0x88d797e2c3587014, 0xa07f783a0d634fb9],
];

/// The constants of the sparse rounds, one for each, added to the first word.
pub const POSEIDON_PARTIAL_CONSTANTS: [u64; 57] = [
    0x18b075d6a5625b6e, 0x7e1d133dca7ac9d5, 0x9d80857ae9751e67,
    0x0ee9a592707cd727, 0x31f96748d6800b8e, 0x43a7a26a2c46f8c4,
    0x273b2e90f3844677, 0x0b84c7f81b420ef3, 0x4b7814aa1c136336,
    0x4f6b30dd1dda2c34, 0x34c082258a3a00d6, 0x0827694a053cf4b6,
    0x36ae6793eb7d2052, 0x4e56b8d5f7defde4, 0x223e35558ed85f2b,
    0x0c74c1e32def5e9f, 0x0b9e3f19c8e5d191, 0x4ff34451be63f050,
    0x08b6e2d2c4467642, 0x366be28448dc562a, 0x4c43183de1739691,
    0x37962c7e4222ff96, 0x1ba80d4be0c8090f, 0x4c43183de1739691,
    0x2c6dad64b519f5f6, 0x88d797e2c3587014, 0xa07f783a0d634fb9,
    0x2d80f016b6755e0c, 0x7433dfee8f82b561, 0x8c7131f3c6a437cb,
    0x1c6046d8df5c8e93, 0xa7e6bdf9c9ebde0e, 0x980d68b4f6972ad4,
    0x18b075d6a5625b6e, 0x7e1d133dca7ac9d5, 0x9d80857ae9751e67,
    0x0ee9a592707cd727, 0x31f96748d6800b8e, 0x43a7a26a2c46f8c4,
    0x273b2e90f3844677, 0x0b84c7f81b420ef3, 0x4b7814aa1c136336,
    0x4f6b30dd1dda2c34, 0x34c082258a3a00d6, 0x0827694a053cf4b6,
    0x36ae6793eb7d2052, 0x4e56b8d5f7defde4, 0x223e35558ed85f2b,
    0x0c74c1e32def5e9f, 0x0b9e3f19c8e5d191, 0x4ff34451be63f050,
    0x08b6e2d2c4467642, 0x366be28448dc562a, 0x4c43183de1739691,
    0x37962c7e4222ff96, 0x1ba80d4be0c8090f, 0x4c43183de1739691,
];

/// Whether the round of index `round` is dense.
pub open spec fn is_full_round(round: int) -> bool {
    round < 4 || round >= 61
}

/// Whether `round` and `is_full` go together in a row: a dense row takes its constants from
/// the table of dense rounds, which has them for the first four rounds and for the last
/// eight; a sparse row from the table of sparse rounds, which begins at round four.
pub open spec fn round_in_table(round: int, is_full: bool) -> bool {
    if is_full {
        0 <= round < 4 || 57 <= round < 65
    } else {
        4 <= round < 61
    }
}

/// The constant that a row of round `round` adds to word `i`.
pub open spec fn round_constant(round: int, is_full: bool, i: int) -> Felt {
    if is_full {
        let row = if round < 4 {
            round
        } else {
            round - 57
        };
        felt_of(POSEIDON_ROUND_CONSTANTS[row][i] as int)
    } else if i == 0 {
        felt_of(POSEIDON_PARTIAL_CONSTANTS[round - 4] as int)
    } else {
        fzero()
    }
}

/// The constants that a row of round `round` adds.
pub open spec fn round_constants(round: int, is_full: bool) -> Seq<Felt> {
    Seq::new(3, |i: int| round_constant(round, is_full, i))
}

/// The state with a round's constants added.
pub open spec fn ark(state: Seq<Felt>, constants: Seq<Felt>) -> Seq<Felt> {
    Seq::new(3, |i: int| fadd(state[i], constants[i]))
}

/// The state after the power map: every word to the fifth power in a dense round, the first
/// word only in a sparse one.
pub open spec fn sbox(state: Seq<Felt>, is_full: bool) -> Seq<Felt> {
    Seq::new(
        3,
        |i: int|
            if is_full || i == 0 {
                fpow5(state[i])
            } else {
                state[i]
            },
    )
}

/// Word `i` of the state after the mixing layer: row `i` of the matrix times the state.
pub open spec fn mix_at(state: Seq<Felt>, i: int) -> Felt {
    fadd(
        fadd(
            fadd(fzero(), fmul(state[0], felt_of(POSEIDON_MDS[i][0] as int))),
            fmul(state[1], felt_of(POSEIDON_MDS[i][1] as int)),
        ),
        fmul(state[2], felt_of(POSEIDON_MDS[i][2] as int)),
    )
}

/// The state after the mixing layer.
pub open spec fn mix(state: Seq<Felt>) -> Seq<Felt> {
    Seq::new(3, |i: int| mix_at(state, i))
}

/// The state after one round.
pub open spec fn round_output(state: Seq<Felt>, round: int, is_full: bool) -> Seq<Felt> {
    mix(sbox(ark(state, round_constants(round, is_full)), is_full))
}

/// The state before round `round` of the permutation of `input`.
pub open spec fn state_at(input: Seq<Felt>, round: nat) -> Seq<Felt>
    decreases round,
{
    if round == 0 {
        input
    } else {
        round_output(
            state_at(input, (round - 1) as nat),
            round - 1,
            is_full_round(round - 1),
        )
    }
}

/// The permutation of `input`: the state after the last round.
pub open spec fn permutation(input: Seq<Felt>) -> Seq<Felt> {
    state_at(input, NUM_ROUNDS as nat)
}

/// The chip of the fixed-permutation hash.
#[derive(Clone, Copy, Debug, Default)]
pub struct PoseidonChip;

impl PoseidonChip {
    /// The chip.
    pub fn new() -> (chip: PoseidonChip) {
        PoseidonChip
    }

    /// The name of the chip.
    pub fn name(&self) -> (name: String)
        ensures
            name@ == "Poseidon"@,
    {
        "Poseidon".to_owned()
    }

    /// The number of columns of the chip's trace.
    pub fn width(&self) -> (w: usize)
        ensures
            w == NUM_COLS,
    {
        NUM_COLS
    }

    /// Whether a shard's proof includes the chip: whether the shard holds an event of the
    /// chip's syscall.
    pub fn included(&self, record: &ExecutionRecord) -> (r: bool)
        ensures
            r == (record.poseidon_events@.len() > 0),
    {
        record.poseidon_events.len() > 0
    }
}

} // verus!
