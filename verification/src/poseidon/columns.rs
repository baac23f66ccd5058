//! The columns of the hash chip's trace, and how one round fills them.
use crate::field::{fbool, felt_of, fone, fzero, Felt};
use crate::poseidon::{
    ark, mix, mix_at, round_constants, round_in_table, sbox, NUM_COLS, POSEIDON_MDS,
    POSEIDON_PARTIAL_CONSTANTS, POSEIDON_ROUND_CONSTANTS, WIDTH,
};
use vstd::prelude::*;

verus! {

/// The number of words of the state.
pub const STATE_WIDTH: usize = 3;

/// One row of the hash chip's trace: one round of one permutation.
#[derive(Clone, Copy, Debug)]
pub struct PoseidonCols {
    /// Whether the row restates a round; padding rows hold zero.
    pub is_real: Felt,
    /// The shard number of the syscall.
    pub shard: Felt,
    /// The clock cycle of the syscall.
    pub clk: Felt,
    /// The number of the row.
    pub nonce: Felt,
    /// The index of the round.
    pub round_ctr: Felt,
    /// Whether the round is dense.
    pub is_full_round: Felt,
    /// The state before the round.
    pub state: [Felt; 3],
    /// The constants of the round.
    pub round_constants: [Felt; 3],
    /// The state with the constants added.
    pub ark_state: [Felt; 3],
    /// The state after the power map.
    pub sbox_state: [Felt; 3],
    /// The state after the mixing layer.
    pub mix_state: [Felt; 3],
    /// The state before the next round.
    pub next_state: [Felt; 3],
    /// Whether the round reads the input or writes the output.
    pub is_memory_op: Felt,
    /// Whether the row is arithmetic.
    pub is_arithmetic: Felt,
    /// Whether the row is binary.
    pub is_binary: Felt,
    /// Whether the round is the first, which reads the input.
    pub is_input_op: Felt,
    /// Whether the round is the last, which writes the output.
    pub is_output_op: Felt,
    /// Where the input is read.
    pub input_ptr: Felt,
    /// Where the output is written.
    pub output_ptr: Felt,
    /// The first word of the permutation's output, on the row of the last round.
    pub output_value: Felt,
}

/// Three zeros.
pub open spec fn zero_state() -> Seq<Felt> {
    Seq::new(3, |i: int| fzero())
}

impl PoseidonCols {
    /// Whether every cell is zero.
    pub open spec fn is_zero_row(self) -> bool {
        &&& self.is_real == fzero()
        &&& self.shard == fzero()
        &&& self.clk == fzero()
        &&& self.nonce == fzero()
        &&& self.round_ctr == fzero()
        &&& self.is_full_round == fzero()
        &&& self.state@ == zero_state()
        &&& self.round_constants@ == zero_state()
        &&& self.ark_state@ == zero_state()
        &&& self.sbox_state@ == zero_state()
        &&& self.mix_state@ == zero_state()
        &&& self.next_state@ == zero_state()
        &&& self.is_memory_op == fzero()
        &&& self.is_arithmetic == fzero()
        &&& self.is_binary == fzero()
        &&& self.is_input_op == fzero()
        &&& self.is_output_op == fzero()
        &&& self.input_ptr == fzero()
        &&& self.output_ptr == fzero()
        &&& self.output_value == fzero()
    }

    /// Whether the row holds round `round` on `state`, as a dense round or a sparse one: the
    /// context, the state through the three layers, and the flags that follow from the round's
    /// index.
    pub open spec fn is_round_row(
        self,
        shard: u32,
        clk: u32,
        round: u32,
        state: Seq<Felt>,
        is_full: bool,
    ) -> bool {
        let constants = round_constants(round as int, is_full);
        &&& self.is_real == fone()
        &&& self.shard == felt_of(shard as int)
        &&& self.clk == felt_of(clk as int)
        &&& self.round_ctr == felt_of(round as int)
        &&& self.is_full_round == fbool(is_full)
        &&& self.state@ == state
        &&& self.round_constants@ == constants
        &&& self.ark_state@ == ark(state, constants)
        &&& self.sbox_state@ == sbox(ark(state, constants), is_full)
        &&& self.mix_state@ == mix(sbox(ark(state, constants), is_full))
        &&& self.next_state@ == self.mix_state@
        &&& self.is_arithmetic == fone()
        &&& self.is_binary == fzero()
        &&& self.is_memory_op == fbool(round == 0 || round == 64)
        &&& self.is_input_op == fbool(round == 0)
        &&& self.is_output_op == fbool(round == 64)
    }

    /// The cells of the row, in column order.
    pub open spec fn flat(self) -> Seq<Felt> {
        seq![
            self.is_real,
            self.shard,
            self.clk,
            self.nonce,
            self.round_ctr,
            self.is_full_round,
        ] + self.state@ + self.round_constants@ + self.ark_state@ + self.sbox_state@
            + self.mix_state@ + self.next_state@ + seq![
            self.is_memory_op,
            self.is_arithmetic,
            self.is_binary,
            self.is_input_op,
            self.is_output_op,
            self.input_ptr,
            self.output_ptr,
            self.output_value,
        ]
    }

    /// Fills the row with round `round` on `state`. The nonce, the pointers and the output
    /// value stay as they are.
    pub fn populate_trace_row(
        &mut self,
        shard: u32,
        clk: u32,
        round: u32,
        state: &[Felt; 3],
        is_full: bool,
    )
        requires
            round_in_table(round as int, is_full),
        ensures
            final(self).is_round_row(shard, clk, round, state@, is_full),
            final(self).nonce == old(self).nonce,
            final(self).input_ptr == old(self).input_ptr,
            final(self).output_ptr == old(self).output_ptr,
            final(self).output_value == old(self).output_value,
    {
        self.is_real = Felt::one();
        self.shard = Felt::from_canonical_u32(shard);
        self.clk = Felt::from_canonical_u32(clk);
        self.round_ctr = Felt::from_canonical_u32(round);
        self.is_full_round = Felt::from_bool(is_full);
        self.state = *state;
        if is_full {
            let row: usize = if round < 4 {
                round as usize
            } else {
                (round - 57) as usize
            };
            self.round_constants = [
                Felt::from_canonical_u64(POSEIDON_ROUND_CONSTANTS[row][0]),
                Felt::from_canonical_u64(POSEIDON_ROUND_CONSTANTS[row][1]),
                Felt::from_canonical_u64(POSEIDON_ROUND_CONSTANTS[row][2]),
            ];
        } else {
            let partial: usize = (round - 4) as usize;
            self.round_constants = [
                Felt::from_canonical_u64(POSEIDON_PARTIAL_CONSTANTS[partial]),
                Felt::zero(),
                Felt::zero(),
            ];
        }
        assert(self.round_constants@ =~= round_constants(round as int, is_full));
        self.ark_state = [
            self.state[0].add(self.round_constants[0]),
            self.state[1].add(self.round_constants[1]),
            self.state[2].add(self.round_constants[2]),
        ];
        assert(self.ark_state@ =~= ark(state@, self.round_constants@));
        if is_full {
            self.sbox_state = [
                self.ark_state[0].pow5(),
                self.ark_state[1].pow5(),
                self.ark_state[2].pow5(),
            ];
        } else {
            self.sbox_state = [self.ark_state[0].pow5(), self.ark_state[1], self.ark_state[2]];
        }
        assert(self.sbox_state@ =~= sbox(self.ark_state@, is_full));
        self.mix_state = [
            mix_row(&self.sbox_state, 0),
            mix_row(&self.sbox_state, 1),
            mix_row(&self.sbox_state, 2),
        ];
        assert(self.mix_state@ =~= mix(self.sbox_state@));
        self.next_state = self.mix_state;
        self.is_arithmetic = Felt::one();
        self.is_binary = Felt::zero();
        self.is_memory_op = Felt::from_bool(round == 0 || round == 64);
        self.is_input_op = Felt::from_bool(round == 0);
        self.is_output_op = Felt::from_bool(round == 64);
    }

    /// Fills the row with zeros: a padding row.
    pub fn populate_empty_row(&mut self)
        ensures
            final(self).is_zero_row(),
    {
        *self = PoseidonCols::default();
    }

    /// The cells of the row, in column order.
    pub fn to_row(&self) -> (row: Vec<Felt>)
        ensures
            row@ == self.flat(),
            row@.len() == NUM_COLS,
    {
        let mut row: Vec<Felt> = Vec::new();
        row.push(self.is_real);
        row.push(self.shard);
        row.push(self.clk);
        row.push(self.nonce);
        row.push(self.round_ctr);
        row.push(self.is_full_round);
        crate::memory::push_felts(&mut row, self.state.as_slice());
        crate::memory::push_felts(&mut row, self.round_constants.as_slice());
        crate::memory::push_felts(&mut row, self.ark_state.as_slice());
        crate::memory::push_felts(&mut row, self.sbox_state.as_slice());
        crate::memory::push_felts(&mut row, self.mix_state.as_slice());
        crate::memory::push_felts(&mut row, self.next_state.as_slice());
        row.push(self.is_memory_op);
        row.push(self.is_arithmetic);
        row.push(self.is_binary);
        row.push(self.is_input_op);
        row.push(self.is_output_op);
        row.push(self.input_ptr);
        row.push(self.output_ptr);
        row.push(self.output_value);
        assert(row@ =~= self.flat());
        row
    }

    /// The row whose cells are `row`, in column order.
    pub fn from_row(row: &[Felt]) -> (cols: PoseidonCols)
        requires
            row@.len() == NUM_COLS,
        ensures
            cols.flat() == row@,
    {
        let cols = PoseidonCols {
            is_real: row[0],
            shard: row[1],
            clk: row[2],
            nonce: row[3],
            round_ctr: row[4],
            is_full_round: row[5],
            state: [row[6], row[7], row[8]],
            round_constants: [row[9], row[10], row[11]],
            ark_state: [row[12], row[13], row[14]],
            sbox_state: [row[15], row[16], row[17]],
            mix_state: [row[18], row[19], row[20]],
            next_state: [row[21], row[22], row[23]],
            is_memory_op: row[24],
            is_arithmetic: row[25],
            is_binary: row[26],
            is_input_op: row[27],
            is_output_op: row[28],
            input_ptr: row[29],
            output_ptr: row[30],
            output_value: row[31],
        };
        assert(cols.flat() =~= row@);
        cols
    }
}

/// Row `i` of the mixing matrix times `state`.
pub fn mix_row(state: &[Felt; 3], i: usize) -> (sum: Felt)
    requires
        i < WIDTH,
    ensures
        sum == mix_at(state@, i as int),
{
    let mut sum: Felt = Felt::zero();
    sum = sum.add(state[0].mul(Felt::from_canonical_u64(POSEIDON_MDS[i][0])));
    sum = sum.add(state[1].mul(Felt::from_canonical_u64(POSEIDON_MDS[i][1])));
    sum = sum.add(state[2].mul(Felt::from_canonical_u64(POSEIDON_MDS[i][2])));
    sum
}

impl Default for PoseidonCols {
    /// The row whose cells are all zero.
    fn default() -> (cols: PoseidonCols)
        ensures
            cols.is_zero_row(),
    {
        let z = Felt::zero();
        let cols = PoseidonCols {
            is_real: z,
            shard: z,
            clk: z,
            nonce: z,
            round_ctr: z,
            is_full_round: z,
            state: [z, z, z],
            round_constants: [z, z, z],
            ark_state: [z, z, z],
            sbox_state: [z, z, z],
            mix_state: [z, z, z],
            next_state: [z, z, z],
            is_memory_op: z,
            is_arithmetic: z,
            is_binary: z,
            is_input_op: z,
            is_output_op: z,
            input_ptr: z,
            output_ptr: z,
            output_value: z,
        };
        assert(cols.state@ =~= zero_state());
        cols
    }
}

} // verus!
