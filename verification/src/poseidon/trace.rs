//! The trace of the hash chip: sixty-five rows for each permutation, in the order of the
//! events, then padding rows up to a power of two.
use crate::air::{eq_felt, eq_when, is_zero, lemma_eq_felt_same, lemma_zero_when_zero};
use crate::events::{ExecutionRecord, PoseidonEvent};
use crate::field::{fadd, fbool, felt_of, fmul, fone, fpow5, fsub, fzero, residue, Felt};
use crate::poseidon::{
    is_full_round, mix_at, round_constant, state_at, PoseidonChip, NUM_COLS, NUM_ROUNDS,
};
use crate::poseidon::air::{
    constraints, memory_constraints, round_constraints, select, state_transition, trace_satisfies,
    within,
};
use crate::poseidon::columns::{zero_state, PoseidonCols};
use crate::trace::{is_power_of_two, TraceMatrix};
use vstd::arithmetic::power2::{lemma_pow2_unfold, pow2};
use vstd::prelude::*;

verus! {

/// The state that a permutation starts from: the event's input words, in the trace field.
pub open spec fn input_state(event: PoseidonEvent) -> Seq<Felt> {
    Seq::new(3, |i: int| felt_of(event.input@[i] as int))
}

/// Whether `cols` is the row of round `round` of the permutation of `event`, as row number
/// `nonce`.
pub open spec fn is_event_row(cols: PoseidonCols, event: PoseidonEvent, round: nat, nonce: nat) -> bool {
    &&& cols.is_round_row(
        event.shard,
        event.clk,
        round as u32,
        state_at(input_state(event), round),
        is_full_round(round as int),
    )
    &&& cols.nonce == felt_of(nonce as int)
    &&& cols.input_ptr == felt_of(event.input_ptr as int)
    &&& cols.output_ptr == felt_of(event.output_ptr as int)
    &&& cols.output_value == (if round == 64 {
        cols.next_state@[0]
    } else {
        fzero()
    })
}

/// Whether `cols` is the padding row of number `nonce`: zero but for the nonce.
pub open spec fn is_padding(cols: PoseidonCols, nonce: nat) -> bool {
    &&& cols.is_real == fzero()
    &&& cols.shard == fzero()
    &&& cols.clk == fzero()
    &&& cols.nonce == felt_of(nonce as int)
    &&& cols.round_ctr == fzero()
    &&& cols.is_full_round == fzero()
    &&& cols.state@ == zero_state()
    &&& cols.round_constants@ == zero_state()
    &&& cols.ark_state@ == zero_state()
    &&& cols.sbox_state@ == zero_state()
    &&& cols.mix_state@ == zero_state()
    &&& cols.next_state@ == zero_state()
    &&& cols.is_memory_op == fzero()
    &&& cols.is_arithmetic == fzero()
    &&& cols.is_binary == fzero()
    &&& cols.is_input_op == fzero()
    &&& cols.is_output_op == fzero()
    &&& cols.input_ptr == fzero()
    &&& cols.output_ptr == fzero()
    &&& cols.output_value == fzero()
}

/// Whether `rows` are the trace of `events`: sixty-five rows for each event, in the events'
/// order and the rounds' order, and padding rows after them, each with its number as nonce.
pub open spec fn rows_restate(rows: Seq<PoseidonCols>, events: Seq<PoseidonEvent>) -> bool {
    &&& rows.len() >= NUM_ROUNDS * events.len()
    &&& forall|i: int|
        0 <= i < NUM_ROUNDS * events.len() ==> is_event_row(
            #[trigger] rows[i],
            events[i / 65],
            (i % 65) as nat,
            i as nat,
        )
    &&& forall|i: int|
        NUM_ROUNDS * events.len() <= i < rows.len() ==> is_padding(#[trigger] rows[i], i as nat)
}

/// Whether `height` is the least power of two that is at least `n` and at least one.
pub open spec fn is_hash_height(height: nat, n: nat) -> bool {
    &&& is_power_of_two(height as int)
    &&& height >= n
    &&& height == 1 || height / 2 < n
}

/// The least power of two that is at least `n` and at least one.
pub fn power_of_two_at_least(n: usize) -> (height: usize)
    requires
        2 * n <= usize::MAX,
    ensures
        is_hash_height(height as nat, n as nat),
{
    let mut height: usize = 1;
    let ghost mut k: nat = 0;
    proof {
        vstd::arithmetic::power2::lemma2_to64();
    }
    while height < n
        invariant
            height == pow2(k),
            height >= 1,
            height == 1 || height / 2 < n,
            2 * n <= usize::MAX,
        decreases 2 * n - height,
    {
        proof {
            lemma_pow2_unfold(k + 1);
            k = k + 1;
        }
        height = height * 2;
    }
    height
}

/// Whether every event of a run is one that the chip can restate.
pub open spec fn events_wf(events: Seq<PoseidonEvent>) -> bool {
    forall|i: int| 0 <= i < events.len() ==> (#[trigger] events[i]).wf()
}

/// Whether `trace` is the trace of `events`.
pub open spec fn is_trace_of(trace: TraceMatrix, events: Seq<PoseidonEvent>) -> bool {
    exists|rows: Seq<PoseidonCols>|
        {
            &&& #[trigger] rows_restate(rows, events)
            &&& rows.len() == trace.spec_height()
            &&& events_wf(events) ==> trace_satisfies(rows)
            &&& forall|i: int| 0 <= i < rows.len() ==> #[trigger] trace.spec_row(i) == rows[i].flat()
        }
}

/// The matrix whose rows are the cells of `rows`.
pub fn flatten_rows(rows: &Vec<PoseidonCols>) -> (trace: TraceMatrix)
    requires
        rows@.len() * NUM_COLS <= usize::MAX,
    ensures
        trace.wf(),
        trace.width == NUM_COLS,
        trace.spec_height() == rows@.len(),
        forall|i: int| 0 <= i < rows@.len() ==> #[trigger] trace.spec_row(i) == rows@[i].flat(),
{
    let mut flat: Vec<Vec<Felt>> = Vec::new();
    let mut i: usize = 0;
    while i < rows.len()
        invariant
            i <= rows@.len(),
            flat@.len() == i,
            forall|j: int| 0 <= j < i ==> (#[trigger] flat@[j])@ == rows@[j].flat(),
            forall|j: int| 0 <= j < i ==> (#[trigger] flat@[j])@.len() == NUM_COLS,
        decreases rows@.len() - i,
    {
        flat.push(rows[i].to_row());
        i = i + 1;
    }
    TraceMatrix::from_rows(&flat, NUM_COLS)
}

impl PoseidonChip {
    /// The rows of the chip's trace for a shard: for each hash event of `input`, in the
    /// events' order, the sixty-five rows of its rounds; then padding rows up to the least
    /// power of two. The chip asks for no range checks, so `output`'s ledger stays as it is.
    pub fn generate_rows(&self, input: &ExecutionRecord, output: &mut ExecutionRecord) -> (rows:
        Vec<PoseidonCols>)
        requires
            2 * (NUM_ROUNDS * input.poseidon_events@.len()) <= usize::MAX,
        ensures
            rows_restate(rows@, input.poseidon_events@),
            is_hash_height(rows@.len(), (NUM_ROUNDS * input.poseidon_events@.len()) as nat),
            events_wf(input.poseidon_events@) ==> trace_satisfies(rows@),
            final(output).byte_lookups@ == old(output).byte_lookups@,
            final(output).same_events(*old(output)),
    {
        let n: usize = input.poseidon_events.len();
        let mut rows: Vec<PoseidonCols> = Vec::new();
        let mut e: usize = 0;
        while e < n
            invariant
                e <= n,
                n == input.poseidon_events@.len(),
                2 * (NUM_ROUNDS * n) <= usize::MAX,
                rows@.len() == NUM_ROUNDS * e,
                forall|i: int|
                    0 <= i < NUM_ROUNDS * e ==> is_event_row(
                        #[trigger] rows@[i],
                        input.poseidon_events@[i / 65],
                        (i % 65) as nat,
                        i as nat,
                    ),
            decreases n - e,
        {
            let event: &PoseidonEvent = &input.poseidon_events[e];
            let mut state: [Felt; 3] = [
                Felt::from_canonical_u64(event.input[0]),
                Felt::from_canonical_u64(event.input[1]),
                Felt::from_canonical_u64(event.input[2]),
            ];
            assert(state@ =~= input_state(*event));
            let mut round: usize = 0;
            while round < NUM_ROUNDS
                invariant
                    round <= NUM_ROUNDS,
                    e < n,
                    n == input.poseidon_events@.len(),
                    2 * (NUM_ROUNDS * n) <= usize::MAX,
                    *event == input.poseidon_events@[e as int],
                    rows@.len() == NUM_ROUNDS * e + round,
                    state@ == state_at(input_state(*event), round as nat),
                    forall|i: int|
                        0 <= i < NUM_ROUNDS * e + round ==> is_event_row(
                            #[trigger] rows@[i],
                            input.poseidon_events@[i / 65],
                            (i % 65) as nat,
                            i as nat,
                        ),
                decreases NUM_ROUNDS - round,
            {
                let is_full: bool = round < 4 || round >= 61;
                let mut cols: PoseidonCols = PoseidonCols::default();
                cols.populate_trace_row(event.shard, event.clk, round as u32, &state, is_full);
                cols.input_ptr = Felt::from_canonical_u32(event.input_ptr);
                cols.output_ptr = Felt::from_canonical_u32(event.output_ptr);
                cols.nonce = Felt::from_canonical_usize(rows.len());
                if round == 64 {
                    cols.output_value = cols.next_state[0];
                }
                state = cols.mix_state;
                proof {
                    let i = (NUM_ROUNDS * e + round) as int;
                    assert(i / 65 == e && i % 65 == round) by {
                        vstd::arithmetic::div_mod::lemma_fundamental_div_mod_converse(
                            i,
                            65,
                            e as int,
                            round as int,
                        );
                    }
                    assert(is_event_row(cols, *event, round as nat, i as nat));
                }
                rows.push(cols);
                round = round + 1;
            }
            e = e + 1;
        }
        let filled: usize = rows.len();
        let height: usize = power_of_two_at_least(filled);
        let mut i: usize = filled;
        while i < height
            invariant
                filled <= i <= height,
                filled == NUM_ROUNDS * input.poseidon_events@.len(),
                rows@.len() == i,
                forall|j: int|
                    0 <= j < filled ==> is_event_row(
                        #[trigger] rows@[j],
                        input.poseidon_events@[j / 65],
                        (j % 65) as nat,
                        j as nat,
                    ),
                forall|j: int| filled <= j < i ==> is_padding(#[trigger] rows@[j], j as nat),
            decreases height - i,
        {
            let mut cols: PoseidonCols = PoseidonCols::default();
            cols.populate_empty_row();
            cols.nonce = Felt::from_canonical_usize(i);
            rows.push(cols);
            i = i + 1;
        }
        proof {
            if events_wf(input.poseidon_events@) {
                lemma_trace_sound(rows@, input.poseidon_events@);
            }
        }
        output.add_byte_lookup_events(Vec::new());
        assert(output.byte_lookups@ =~= old(output).byte_lookups@);
        rows
    }

    /// The chip's trace for a shard, as a matrix: the rows of [`Self::generate_rows`], cell by
    /// cell.
    pub fn generate_trace(&self, input: &ExecutionRecord, output: &mut ExecutionRecord) -> (trace:
        TraceMatrix)
        requires
            2 * (NUM_ROUNDS * input.poseidon_events@.len()) * NUM_COLS <= usize::MAX,
        ensures
            trace.wf(),
            trace.width == NUM_COLS,
            is_hash_height(
                trace.spec_height(),
                (NUM_ROUNDS * input.poseidon_events@.len()) as nat,
            ),
            is_trace_of(trace, input.poseidon_events@),
            crate::trace::rows_are_numbered(
                trace,
                3,
                0,
                (NUM_ROUNDS * input.poseidon_events@.len()) as nat,
            ),
            final(output).byte_lookups@ == old(output).byte_lookups@,
            final(output).same_events(*old(output)),
    {
        let rows: Vec<PoseidonCols> = self.generate_rows(input, output);
        let trace = flatten_rows(&rows);
        assert(rows_restate(rows@, input.poseidon_events@));
        proof {
            assert forall|i: int| 0 <= i < trace.spec_height() implies (#[trigger] trace.spec_row(
                i,
            ))[3] == felt_of(i) && trace.spec_row(i)[0] == fbool(
                i < NUM_ROUNDS * input.poseidon_events@.len(),
            ) by {
                lemma_nonce_column(rows@, input.poseidon_events@, i);
            }
        }
        trace
    }
}

/// The nonce column counts the rows, and `is_real` tells the rows of rounds from the padding
/// rows.
pub proof fn lemma_nonce_column(rows: Seq<PoseidonCols>, events: Seq<PoseidonEvent>, i: int)
    requires
        rows_restate(rows, events),
        0 <= i < rows.len(),
    ensures
        rows[i].nonce == felt_of(i),
        rows[i].is_real == fbool(i < NUM_ROUNDS * events.len()),
        rows[i].flat()[3] == rows[i].nonce,
        rows[i].flat()[0] == rows[i].is_real,
{
    if i < NUM_ROUNDS * events.len() {
        assert(is_event_row(rows[i], events[i / 65], (i % 65) as nat, i as nat));
    } else {
        assert(is_padding(rows[i], i as nat));
    }
}

/// A permutation fills sixty-five rows: the row of its first round is dense and has the round
/// index zero, and the rows of rounds four to sixty are sparse.
pub proof fn lemma_round_rows(rows: Seq<PoseidonCols>, events: Seq<PoseidonEvent>, e: int, r: int)
    requires
        rows_restate(rows, events),
        0 <= e < events.len(),
        0 <= r < NUM_ROUNDS,
    ensures
        rows[65 * e + r].is_real == fone(),
        rows[65 * e + r].round_ctr == felt_of(r),
        rows[65 * e + r].is_full_round == fbool(r < 4 || r >= 61),
{
    let i = 65 * e + r;
    vstd::arithmetic::div_mod::lemma_fundamental_div_mod_converse(i, 65, e, r);
    assert(is_event_row(rows[i], events[i / 65], (i % 65) as nat, i as nat));
}

/// The selector of rows within a permutation is zero on padding rows and on the row of the
/// last round.
pub proof fn lemma_within_zero(local: PoseidonCols)
    requires
        local.is_real == fzero() || local.is_output_op == fone(),
    ensures
        is_zero(within(local)),
        forall|a: Felt, b: Felt| eq_when(within(local), a, b),
{
    let d = fsub(fone(), local.is_output_op);
    if local.is_output_op == fone() {
        lemma_eq_felt_same(fone(), fone());
    }
    lemma_zero_when_zero(local.is_real, d);
    assert forall|a: Felt, b: Felt| eq_when(within(local), a, b) by {
        lemma_zero_when_zero(within(local), fsub(a, b));
    }
}

/// A selection by a flag has the residue of the selected operand.
pub proof fn lemma_select(c: bool, a: Felt, b: Felt)
    ensures
        residue(select(fbool(c), a, b)) == residue(if c {
            a
        } else {
            b
        }),
{
    let ra = residue(a);
    let rb = residue(b);
    crate::field::lemma_rep_cell(a);
    crate::field::lemma_rep_cell(b);
    crate::field::lemma_rep_sub(a, ra, b, rb);
    let cv: int = if c {
        1
    } else {
        0
    };
    crate::field::lemma_rep_felt_of(cv);
    assert(fbool(c) == felt_of(cv));
    crate::field::lemma_rep_mul(fbool(c), cv, fsub(a, b), ra - rb);
    crate::field::lemma_rep_add(b, rb, fmul(fbool(c), fsub(a, b)), cv * (ra - rb));
    if c {
        assert(rb + 1 * (ra - rb) == ra);
    } else {
        assert(rb + 0 * (ra - rb) == rb);
    }
    vstd::arithmetic::div_mod::lemma_mod_twice(a.value as int, crate::field::modulus());
    vstd::arithmetic::div_mod::lemma_mod_twice(b.value as int, crate::field::modulus());
}

/// A row that holds a round satisfies the constraints on the round's layers.
pub proof fn lemma_round_row_layers(
    cols: PoseidonCols,
    shard: u32,
    clk: u32,
    round: u32,
    state: Seq<Felt>,
    is_full: bool,
)
    requires
        cols.is_round_row(shard, clk, round, state, is_full),
        state.len() == 3,
    ensures
        state_transition(cols),
{
    assert forall|i: int| 0 <= i < 3 implies eq_felt(
        #[trigger] cols.ark_state@[i],
        fadd(cols.state@[i], cols.round_constants@[i]),
    ) by {
        lemma_eq_felt_same(cols.ark_state@[i], fadd(cols.state@[i], cols.round_constants@[i]));
    }
    lemma_eq_felt_same(cols.sbox_state@[0], fpow5(cols.ark_state@[0]));
    assert forall|i: int| 1 <= i < 3 implies eq_felt(
        #[trigger] cols.sbox_state@[i],
        select(cols.is_full_round, fpow5(cols.ark_state@[i]), cols.ark_state@[i]),
    ) by {
        lemma_select(is_full, fpow5(cols.ark_state@[i]), cols.ark_state@[i]);
        lemma_eq_felt_same(
            cols.sbox_state@[i],
            select(cols.is_full_round, fpow5(cols.ark_state@[i]), cols.ark_state@[i]),
        );
    }
    assert forall|i: int| 0 <= i < 3 implies eq_felt(
        #[trigger] cols.mix_state@[i],
        mix_at(cols.sbox_state@, i),
    ) by {
        lemma_eq_felt_same(cols.mix_state@[i], mix_at(cols.sbox_state@, i));
    }
    assert forall|i: int| 0 <= i < 3 implies eq_felt(
        #[trigger] cols.next_state@[i],
        cols.mix_state@[i],
    ) by {
        lemma_eq_felt_same(cols.next_state@[i], cols.mix_state@[i]);
    }
}

/// A padding row satisfies the constraints on the layers: every layer of zeros is zero.
pub proof fn lemma_padding_row_layers(cols: PoseidonCols, nonce: nat)
    requires
        is_padding(cols, nonce),
    ensures
        state_transition(cols),
{
    let z = fzero();
    assert(fadd(z, z) == z);
    assert(fmul(z, z) == z);
    assert(fpow5(z) == z);
    assert(fsub(z, z) == z);
    assert(select(z, z, z) == z);
    lemma_eq_felt_same(z, z);
    assert forall|i: int| 0 <= i < 3 implies eq_felt(
        #[trigger] cols.mix_state@[i],
        mix_at(cols.sbox_state@, i),
    ) by {
        assert forall|m: Felt| fmul(z, m) == z by {
            assert(0 * m.value == 0);
        }
        assert(mix_at(cols.sbox_state@, i) == z);
    }
}

/// The rows of one permutation follow one another: the row after the row of round `round`,
/// other than the last, is the row of the next round of the same event.
pub proof fn lemma_next_row(
    rows: Seq<PoseidonCols>,
    events: Seq<PoseidonEvent>,
    i: int,
)
    requires
        rows_restate(rows, events),
        0 <= i < NUM_ROUNDS * events.len(),
        i % 65 < 64,
    ensures
        i + 1 < NUM_ROUNDS * events.len(),
        (i + 1) / 65 == i / 65,
        (i + 1) % 65 == i % 65 + 1,
        is_event_row(rows[i + 1], events[i / 65], (i % 65 + 1) as nat, (i + 1) as nat),
{
    let e = i / 65;
    let r = i % 65;
    vstd::arithmetic::div_mod::lemma_fundamental_div_mod(i, 65);
    vstd::arithmetic::div_mod::lemma_fundamental_div_mod_converse(i + 1, 65, e, r + 1);
    assert(e < events.len());
    assert(is_event_row(rows[i + 1], events[(i + 1) / 65], ((i + 1) % 65) as nat, (i + 1) as nat));
}

/// A row of a well-formed event satisfies the constraints, with the row after it.
pub proof fn lemma_event_row_sound(rows: Seq<PoseidonCols>, events: Seq<PoseidonEvent>, i: int)
    requires
        rows_restate(rows, events),
        events_wf(events),
        0 <= i < NUM_ROUNDS * events.len(),
    ensures
        constraints(rows[i], rows[(i + 1) % (rows.len() as int)], i == 0, i + 1 < rows.len()),
{
    let local = rows[i];
    let e = i / 65;
    let r = i % 65;
    let event = events[e];
    vstd::arithmetic::div_mod::lemma_fundamental_div_mod(i, 65);
    assert(0 <= e < events.len());
    assert(is_event_row(local, event, r as nat, i as nat));
    assert(event.wf());
    let next = rows[(i + 1) % (rows.len() as int)];
    let is_transition = i + 1 < rows.len();
    crate::bn254_mul_add::lemma_nonce_steps(i as nat);
    crate::air::lemma_is_bool_flag(true);
    crate::air::lemma_is_bool_flag(r == 0 || r == 64);
    crate::air::lemma_is_bool_flag(is_full_round(r));
    crate::air::lemma_is_bool_flag(r == 0);
    crate::air::lemma_is_bool_flag(r == 64);
    let round = residue(local.round_ctr);
    assert(round == r) by {
        vstd::arithmetic::div_mod::lemma_small_mod(r as nat, crate::field::modulus() as nat);
        crate::field::lemma_residue_felt_of(r);
    }
    if is_transition {
        vstd::arithmetic::div_mod::lemma_small_mod((i + 1) as nat, rows.len());
        assert(next == rows[i + 1]);
        if i + 1 < NUM_ROUNDS * events.len() {
            assert(is_event_row(
                rows[i + 1],
                events[(i + 1) / 65],
                ((i + 1) % 65) as nat,
                (i + 1) as nat,
            ));
        } else {
            assert(is_padding(rows[i + 1], (i + 1) as nat));
        }
        assert(next.nonce == felt_of(i + 1));
    }
    if r < 64 {
        lemma_next_row(rows, events, i);
        assert(is_transition);
        lemma_eq_felt_same(next.clk, local.clk);
        lemma_eq_felt_same(local.shard, next.shard);
        crate::bn254_mul_add::lemma_nonce_steps(r as nat);
        assert(next.round_ctr == felt_of(r + 1));
        lemma_eq_felt_same(fadd(local.round_ctr, fone()), next.round_ctr);
        assert forall|k: int| 0 <= k < 3 implies eq_when(
            within(local),
            #[trigger] local.next_state@[k],
            next.state@[k],
        ) by {
            assert(next.state@ == state_at(input_state(event), (r + 1) as nat));
            assert(local.next_state@ == next.state@);
            lemma_eq_felt_same(local.next_state@[k], next.state@[k]);
        }
    } else {
        lemma_within_zero(local);
    }
    assert(round_constraints(local, next, i == 0, is_transition)) by {
        lemma_zero_when_zero(local.is_real, fbool(round >= 65));
        lemma_eq_felt_same(local.is_full_round, fbool(is_full_round(round)));
        lemma_eq_felt_same(local.is_input_op, fbool(round == 0));
        lemma_eq_felt_same(local.is_output_op, fbool(round == 64));
        assert forall|k: int| 0 <= k < 3 implies eq_when(
            local.is_real,
            #[trigger] local.round_constants@[k],
            round_constant(round, is_full_round(round), k),
        ) by {
            lemma_eq_felt_same(
                local.round_constants@[k],
                round_constant(round, is_full_round(round), k),
            );
        }
        if i == 0 {
            assert(r == 0);
        }
    }
    lemma_round_row_layers(
        local,
        event.shard,
        event.clk,
        r as u32,
        state_at(input_state(event), r as nat),
        is_full_round(r),
    );
    assert(memory_constraints(local)) by {
        crate::air::lemma_is_bool_flag(r == 0);
        crate::air::lemma_is_bool_flag(r == 64);
        lemma_zero_when_zero(
            local.is_memory_op,
            fmul(local.is_input_op, fsub(local.is_input_op, fone())),
        );
        lemma_zero_when_zero(
            local.is_memory_op,
            fmul(local.is_output_op, fsub(local.is_output_op, fone())),
        );
        vstd::arithmetic::div_mod::lemma_small_mod(
            event.input_ptr as nat,
            crate::field::modulus() as nat,
        );
        vstd::arithmetic::div_mod::lemma_small_mod(
            event.output_ptr as nat,
            crate::field::modulus() as nat,
        );
        crate::field::lemma_residue_felt_of(event.input_ptr as int);
        crate::field::lemma_residue_felt_of(event.output_ptr as int);
        lemma_zero_when_zero(local.is_memory_op, felt_of(residue(local.input_ptr) % 4));
        lemma_zero_when_zero(local.is_memory_op, felt_of(residue(local.output_ptr) % 4));
    }
    assert(eq_when(local.is_output_op, local.next_state@[0], local.output_value)) by {
        if r == 64 {
            lemma_eq_felt_same(local.next_state@[0], local.output_value);
        } else {
            lemma_zero_when_zero(local.is_output_op, fsub(local.next_state@[0], local.output_value));
        }
    }
}

/// A padding row satisfies the constraints, with whatever row comes after it in the trace.
pub proof fn lemma_padding_row_sound(rows: Seq<PoseidonCols>, events: Seq<PoseidonEvent>, i: int)
    requires
        rows_restate(rows, events),
        NUM_ROUNDS * events.len() <= i < rows.len(),
    ensures
        constraints(rows[i], rows[(i + 1) % (rows.len() as int)], i == 0, i + 1 < rows.len()),
{
    let local = rows[i];
    let next = rows[(i + 1) % (rows.len() as int)];
    let is_transition = i + 1 < rows.len();
    assert(is_padding(local, i as nat));
    crate::bn254_mul_add::lemma_nonce_steps(i as nat);
    crate::air::lemma_is_bool_flag(false);
    lemma_within_zero(local);
    if is_transition {
        vstd::arithmetic::div_mod::lemma_small_mod((i + 1) as nat, rows.len());
        assert(is_padding(rows[i + 1], (i + 1) as nat));
    }
    let z = fzero();
    assert(round_constraints(local, next, i == 0, is_transition)) by {
        let round = residue(local.round_ctr);
        lemma_zero_when_zero(local.is_real, fbool(round >= 65));
        lemma_zero_when_zero(
            local.is_real,
            fsub(local.is_full_round, fbool(is_full_round(round))),
        );
        lemma_zero_when_zero(local.is_real, fsub(local.is_input_op, fbool(round == 0)));
        lemma_zero_when_zero(local.is_real, fsub(local.is_output_op, fbool(round == 64)));
        assert forall|k: int| 0 <= k < 3 implies eq_when(
            local.is_real,
            #[trigger] local.round_constants@[k],
            round_constant(round, is_full_round(round), k),
        ) by {
            lemma_zero_when_zero(
                local.is_real,
                fsub(local.round_constants@[k], round_constant(round, is_full_round(round), k)),
            );
        }
    }
    lemma_padding_row_layers(local, i as nat);
    assert(memory_constraints(local)) by {
        lemma_zero_when_zero(
            local.is_memory_op,
            fmul(local.is_input_op, fsub(local.is_input_op, fone())),
        );
        lemma_zero_when_zero(
            local.is_memory_op,
            fmul(local.is_output_op, fsub(local.is_output_op, fone())),
        );
        lemma_zero_when_zero(local.is_memory_op, felt_of(residue(local.input_ptr) % 4));
        lemma_zero_when_zero(local.is_memory_op, felt_of(residue(local.output_ptr) % 4));
    }
    lemma_zero_when_zero(local.is_output_op, fsub(local.next_state@[0], local.output_value));
}

/// The trace of well-formed events satisfies the chip's constraints on every row.
pub proof fn lemma_trace_sound(rows: Seq<PoseidonCols>, events: Seq<PoseidonEvent>)
    requires
        rows_restate(rows, events),
        events_wf(events),
    ensures
        trace_satisfies(rows),
{
    assert forall|i: int| 0 <= i < rows.len() implies constraints(
        #[trigger] rows[i],
        rows[(i + 1) % (rows.len() as int)],
        i == 0,
        i + 1 < rows.len(),
    ) by {
        if i < NUM_ROUNDS * events.len() {
            lemma_event_row_sound(rows, events, i);
        } else {
            lemma_padding_row_sound(rows, events, i);
        }
    }
}

} // verus!
