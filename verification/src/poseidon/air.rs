//! The constraints of the hash chip.
//!
//! The layers of a round are checked on every row. What ties a row to the next (the round
//! index, the state handed on, the clock and the shard) is in force within one permutation:
//! on real rows other than the row of the last round.
use crate::air::{eq_felt, eq_when, is_bool, is_zero, zero_when, ConstraintBuilder, Interaction};
use crate::events::SyscallCode;
use crate::field::{fadd, fbool, felt_of, fmul, fone, fpow5, fsub, residue, Felt};
use crate::poseidon::{
    is_full_round, mix_at, round_constant, PoseidonChip, POSEIDON_PARTIAL_CONSTANTS,
    POSEIDON_ROUND_CONSTANTS,
};
use crate::poseidon::columns::{mix_row, PoseidonCols};
use crate::trace::{ConstraintViolation, TraceMatrix};
use vstd::prelude::*;

verus! {

/// The selector of rows within a permutation: `is_real * (1 - is_output_op)`.
pub open spec fn within(local: PoseidonCols) -> Felt {
    fmul(local.is_real, fsub(fone(), local.is_output_op))
}

/// `b + c * (a - b)`: `a` where the flag `c` is one, `b` where it is zero.
pub open spec fn select(c: Felt, a: Felt, b: Felt) -> Felt {
    fadd(b, fmul(c, fsub(a, b)))
}

/// The constraints on a row's context: every flag is a flag, the nonce counts the rows, and
/// the clock and the shard stay within a permutation.
pub open spec fn execution_context(
    local: PoseidonCols,
    next: PoseidonCols,
    is_first_row: bool,
    is_transition: bool,
) -> bool {
    &&& is_bool(local.is_real)
    &&& is_bool(local.is_arithmetic)
    &&& is_bool(local.is_memory_op)
    &&& is_bool(local.is_binary)
    &&& is_bool(local.is_full_round)
    &&& is_bool(local.is_input_op)
    &&& is_bool(local.is_output_op)
    &&& is_first_row ==> is_zero(local.nonce)
    &&& is_transition ==> eq_felt(fadd(local.nonce, fone()), next.nonce)
    &&& is_transition ==> eq_when(within(local), next.clk, local.clk)
    &&& is_transition ==> eq_when(within(local), local.shard, next.shard)
}

/// The constraints on a row's round: the index starts at zero and counts up within a
/// permutation; on a real row it is a round's index, and whether the round is dense, first or
/// last, and which constants it adds, follow from the index.
pub open spec fn round_constraints(
    local: PoseidonCols,
    next: PoseidonCols,
    is_first_row: bool,
    is_transition: bool,
) -> bool {
    let round = residue(local.round_ctr);
    &&& is_first_row ==> is_zero(local.round_ctr)
    &&& is_transition ==> eq_when(within(local), fadd(local.round_ctr, fone()), next.round_ctr)
    &&& zero_when(local.is_real, fbool(round >= 65))
    &&& round < 65 ==> {
        &&& eq_when(local.is_real, local.is_full_round, fbool(is_full_round(round)))
        &&& eq_when(local.is_real, local.is_input_op, fbool(round == 0))
        &&& eq_when(local.is_real, local.is_output_op, fbool(round == 64))
        &&& forall|i: int|
            0 <= i < 3 ==> eq_when(
                local.is_real,
                #[trigger] local.round_constants@[i],
                round_constant(round, is_full_round(round), i),
            )
    }
}

/// The constraints on a row's layers: each layer's output is the layer applied to the layer
/// before it, and the state handed on is the output of the last layer.
pub open spec fn state_transition(local: PoseidonCols) -> bool {
    &&& forall|i: int|
        0 <= i < 3 ==> eq_felt(
            #[trigger] local.ark_state@[i],
            fadd(local.state@[i], local.round_constants@[i]),
        )
    &&& eq_felt(local.sbox_state@[0], fpow5(local.ark_state@[0]))
    &&& forall|i: int|
        1 <= i < 3 ==> eq_felt(
            #[trigger] local.sbox_state@[i],
            select(local.is_full_round, fpow5(local.ark_state@[i]), local.ark_state@[i]),
        )
    &&& forall|i: int|
        0 <= i < 3 ==> eq_felt(#[trigger] local.mix_state@[i], mix_at(local.sbox_state@, i))
    &&& forall|i: int| 0 <= i < 3 ==> eq_felt(#[trigger] local.next_state@[i], local.mix_state@[i])
}

/// The constraints on a row that touches memory: its two flags are flags, and both pointers
/// are multiples of four.
pub open spec fn memory_constraints(local: PoseidonCols) -> bool {
    &&& zero_when(
        local.is_memory_op,
        fmul(local.is_input_op, fsub(local.is_input_op, fone())),
    )
    &&& zero_when(
        local.is_memory_op,
        fmul(local.is_output_op, fsub(local.is_output_op, fone())),
    )
    &&& zero_when(local.is_memory_op, felt_of(residue(local.input_ptr) % 4))
    &&& zero_when(local.is_memory_op, felt_of(residue(local.output_ptr) % 4))
}

/// The constraints that hand the state on: within a permutation the next row starts from this
/// row's output, and the row of the last round declares the first word of its output.
pub open spec fn state_update(local: PoseidonCols, next: PoseidonCols, is_transition: bool) -> bool {
    &&& is_transition ==> forall|i: int|
        0 <= i < 3 ==> eq_when(within(local), #[trigger] local.next_state@[i], next.state@[i])
    &&& eq_when(local.is_output_op, local.next_state@[0], local.output_value)
}

/// The constraints on a row and the row after it.
pub open spec fn constraints(
    local: PoseidonCols,
    next: PoseidonCols,
    is_first_row: bool,
    is_transition: bool,
) -> bool {
    &&& execution_context(local, next, is_first_row, is_transition)
    &&& round_constraints(local, next, is_first_row, is_transition)
    &&& state_transition(local)
    &&& memory_constraints(local)
    &&& state_update(local, next, is_transition)
}

/// The interaction of a row: the syscall, received once on the row of a permutation's first
/// round.
pub open spec fn interactions(local: PoseidonCols) -> Seq<Interaction> {
    seq![
        Interaction::Syscall {
            shard: local.shard,
            clk: local.clk,
            nonce: local.nonce,
            syscall_id: felt_of((crate::events::syscall_code(SyscallCode::POSEIDON) % 256) as int),
            arg1: local.input_ptr,
            arg2: local.output_ptr,
            multiplicity: fmul(local.is_real, local.is_input_op),
        },
    ]
}

/// For each row of a trace, whether it satisfies the constraints with the row after it, the
/// last row paired with the first.
pub open spec fn row_verdicts(rows: Seq<PoseidonCols>) -> Seq<bool> {
    Seq::new(
        rows.len(),
        |i: int| constraints(rows[i], rows[(i + 1) % (rows.len() as int)], i == 0, i + 1 < rows.len()),
    )
}

/// Whether every row of a trace satisfies the constraints, the last row paired with the
/// first.
pub open spec fn trace_satisfies(rows: Seq<PoseidonCols>) -> bool {
    forall|i: int|
        0 <= i < rows.len() ==> constraints(
            #[trigger] rows[i],
            rows[(i + 1) % (rows.len() as int)],
            i == 0,
            i + 1 < rows.len(),
        )
}

/// Whether `rows` are the rows of `trace`, cell by cell.
pub open spec fn rows_fill(rows: Seq<PoseidonCols>, trace: TraceMatrix) -> bool {
    &&& rows.len() == trace.spec_height()
    &&& forall|i: int|
        0 <= i < rows.len() ==> (#[trigger] rows[i]).flat() == trace.spec_row(i)
}

/// Whether `r` is the verdict on `trace`: the verdict on its rows.
pub open spec fn is_trace_verdict(r: Result<(), ConstraintViolation>, trace: TraceMatrix) -> bool {
    exists|rows: Seq<PoseidonCols>|
        #[trigger] rows_fill(rows, trace) && crate::trace::is_verdict(r, row_verdicts(rows))
}

/// The rows of `trace`.
pub fn unflatten_rows(trace: &TraceMatrix) -> (rows: Vec<PoseidonCols>)
    requires
        trace.wf(),
        trace.width == crate::poseidon::NUM_COLS,
    ensures
        rows_fill(rows@, *trace),
{
    let height: usize = trace.height();
    let mut rows: Vec<PoseidonCols> = Vec::new();
    let mut i: usize = 0;
    while i < height
        invariant
            i <= height,
            height == trace.spec_height(),
            trace.wf(),
            trace.width == crate::poseidon::NUM_COLS,
            rows@.len() == i,
            forall|j: int|
                0 <= j < i ==> (#[trigger] rows@[j]).flat() == trace.spec_row(j),
        decreases height - i,
    {
        let cells: Vec<Felt> = trace.row_slice(i);
        rows.push(PoseidonCols::from_row(cells.as_slice()));
        i = i + 1;
    }
    rows
}

/// Rows with the same cells hold the same columns.
pub proof fn lemma_columns_by_cells(x: PoseidonCols, y: PoseidonCols)
    requires
        x.flat() == y.flat(),
    ensures
        x.is_real == y.is_real,
        x.shard == y.shard,
        x.clk == y.clk,
        x.nonce == y.nonce,
        x.round_ctr == y.round_ctr,
        x.is_full_round == y.is_full_round,
        x.state@ == y.state@,
        x.round_constants@ == y.round_constants@,
        x.ark_state@ == y.ark_state@,
        x.sbox_state@ == y.sbox_state@,
        x.mix_state@ == y.mix_state@,
        x.next_state@ == y.next_state@,
        x.is_memory_op == y.is_memory_op,
        x.is_arithmetic == y.is_arithmetic,
        x.is_binary == y.is_binary,
        x.is_input_op == y.is_input_op,
        x.is_output_op == y.is_output_op,
        x.input_ptr == y.input_ptr,
        x.output_ptr == y.output_ptr,
        x.output_value == y.output_value,
{
    let f = x.flat();
    let g = y.flat();
    assert forall|k: int| 0 <= k < 32 implies f[k] == g[k] by {}
    assert(x.is_real == f[0] && y.is_real == g[0]);
    assert(x.shard == f[1] && y.shard == g[1]);
    assert(x.clk == f[2] && y.clk == g[2]);
    assert(x.nonce == f[3] && y.nonce == g[3]);
    assert(x.round_ctr == f[4] && y.round_ctr == g[4]);
    assert(x.is_full_round == f[5] && y.is_full_round == g[5]);
    assert forall|j: int| 0 <= j < 3 implies x.state@[j] == y.state@[j] by {
        assert(x.state@[j] == f[6 + j] && y.state@[j] == g[6 + j]);
    }
    assert forall|j: int| 0 <= j < 3 implies x.round_constants@[j] == y.round_constants@[j] by {
        assert(x.round_constants@[j] == f[9 + j] && y.round_constants@[j] == g[9 + j]);
    }
    assert forall|j: int| 0 <= j < 3 implies x.ark_state@[j] == y.ark_state@[j] by {
        assert(x.ark_state@[j] == f[12 + j] && y.ark_state@[j] == g[12 + j]);
    }
    assert forall|j: int| 0 <= j < 3 implies x.sbox_state@[j] == y.sbox_state@[j] by {
        assert(x.sbox_state@[j] == f[15 + j] && y.sbox_state@[j] == g[15 + j]);
    }
    assert forall|j: int| 0 <= j < 3 implies x.mix_state@[j] == y.mix_state@[j] by {
        assert(x.mix_state@[j] == f[18 + j] && y.mix_state@[j] == g[18 + j]);
    }
    assert forall|j: int| 0 <= j < 3 implies x.next_state@[j] == y.next_state@[j] by {
        assert(x.next_state@[j] == f[21 + j] && y.next_state@[j] == g[21 + j]);
    }
    assert(x.state@ =~= y.state@);
    assert(x.round_constants@ =~= y.round_constants@);
    assert(x.ark_state@ =~= y.ark_state@);
    assert(x.sbox_state@ =~= y.sbox_state@);
    assert(x.mix_state@ =~= y.mix_state@);
    assert(x.next_state@ =~= y.next_state@);
    assert(x.is_memory_op == f[24] && y.is_memory_op == g[24]);
    assert(x.is_arithmetic == f[25] && y.is_arithmetic == g[25]);
    assert(x.is_binary == f[26] && y.is_binary == g[26]);
    assert(x.is_input_op == f[27] && y.is_input_op == g[27]);
    assert(x.is_output_op == f[28] && y.is_output_op == g[28]);
    assert(x.input_ptr == f[29] && y.input_ptr == g[29]);
    assert(x.output_ptr == f[30] && y.output_ptr == g[30]);
    assert(x.output_value == f[31] && y.output_value == g[31]);
}

/// Whether a pair of rows satisfies the constraints depends on the rows' cells alone.
pub proof fn lemma_constraints_by_cells(
    x: PoseidonCols,
    x_next: PoseidonCols,
    y: PoseidonCols,
    y_next: PoseidonCols,
    is_first_row: bool,
    is_transition: bool,
)
    requires
        x.flat() == y.flat(),
        x_next.flat() == y_next.flat(),
    ensures
        constraints(x, x_next, is_first_row, is_transition) == constraints(
            y,
            y_next,
            is_first_row,
            is_transition,
        ),
{
    lemma_columns_by_cells(x, y);
    lemma_columns_by_cells(x_next, y_next);
    assert(within(x) == within(y));
    assert(execution_context(x, x_next, is_first_row, is_transition) == execution_context(
        y,
        y_next,
        is_first_row,
        is_transition,
    ));
    assert(round_constraints(x, x_next, is_first_row, is_transition) == round_constraints(
        y,
        y_next,
        is_first_row,
        is_transition,
    ));
    assert(state_transition(x) == state_transition(y));
    assert(memory_constraints(x) == memory_constraints(y));
    assert(state_update(x, x_next, is_transition) == state_update(y, y_next, is_transition));
}

/// Two verdicts on the same matrix agree: both are success, or both name the same first row
/// in violation.
pub proof fn lemma_trace_verdict_unique(
    first: Result<(), ConstraintViolation>,
    second: Result<(), ConstraintViolation>,
    trace: TraceMatrix,
)
    requires
        is_trace_verdict(first, trace),
        is_trace_verdict(second, trace),
    ensures
        first is Ok <==> second is Ok,
        first is Err ==> first->Err_0.row == second->Err_0.row,
{
    let a = choose|rows: Seq<PoseidonCols>|
        #[trigger] rows_fill(rows, trace) && crate::trace::is_verdict(first, row_verdicts(rows));
    let b = choose|rows: Seq<PoseidonCols>|
        #[trigger] rows_fill(rows, trace) && crate::trace::is_verdict(second, row_verdicts(rows));
    let n = a.len() as int;
    assert forall|i: int| 0 <= i < n implies row_verdicts(a)[i] == row_verdicts(b)[i] by {
        let j = (i + 1) % n;
        lemma_constraints_by_cells(a[i], a[j], b[i], b[j], i == 0, i + 1 < n);
    }
    assert(row_verdicts(a) =~= row_verdicts(b));
    crate::trace::lemma_verdict_unique(first, second, row_verdicts(a));
}

/// The constant that a row of round `round` adds to word `i`.
pub fn round_constant_of(round: u32, i: usize) -> (c: Felt)
    requires
        round < 65,
        i < 3,
    ensures
        c == round_constant(round as int, is_full_round(round as int), i as int),
{
    if round < 4 {
        Felt::from_canonical_u64(POSEIDON_ROUND_CONSTANTS[round as usize][i])
    } else if round >= 61 {
        Felt::from_canonical_u64(POSEIDON_ROUND_CONSTANTS[(round - 57) as usize][i])
    } else if i == 0 {
        Felt::from_canonical_u64(POSEIDON_PARTIAL_CONSTANTS[(round - 4) as usize])
    } else {
        Felt::zero()
    }
}

impl PoseidonChip {
    /// The selector of rows within a permutation.
    fn within_selector(local: &PoseidonCols) -> (s: Felt)
        ensures
            s == within(*local),
    {
        local.is_real.mul(Felt::one().sub(local.is_output_op))
    }

    /// Asserts the constraints on a row's context.
    pub fn eval_execution_context(
        &self,
        builder: &mut ConstraintBuilder,
        local: &PoseidonCols,
        next: &PoseidonCols,
    )
        ensures
            final(builder).asserted(*old(builder),
                execution_context(
                    *local,
                    *next,
                    old(builder).is_first_row,
                    old(builder).is_transition,
                )),
    {
        builder.assert_bool(local.is_real);
        builder.assert_bool(local.is_arithmetic);
        builder.assert_bool(local.is_memory_op);
        builder.assert_bool(local.is_binary);
        builder.assert_bool(local.is_full_round);
        builder.assert_bool(local.is_input_op);
        builder.assert_bool(local.is_output_op);
        builder.assert_zero_first_row(local.nonce);
        builder.assert_eq_transition(local.nonce.add(Felt::one()), next.nonce);
        let s: Felt = Self::within_selector(local);
        builder.assert_eq_transition_when(s, next.clk, local.clk);
        builder.assert_eq_transition_when(s, local.shard, next.shard);
    }

    /// Asserts the constraints on a row's round.
    pub fn eval_round_constraints(
        &self,
        builder: &mut ConstraintBuilder,
        local: &PoseidonCols,
        next: &PoseidonCols,
    )
        ensures
            final(builder).asserted(*old(builder),
                round_constraints(
                    *local,
                    *next,
                    old(builder).is_first_row,
                    old(builder).is_transition,
                )),
    {
        builder.assert_zero_first_row(local.round_ctr);
        let s: Felt = Self::within_selector(local);
        builder.assert_eq_transition_when(s, local.round_ctr.add(Felt::one()), next.round_ctr);
        let round: u32 = local.round_ctr.as_canonical_u32();
        builder.assert_zero_when(local.is_real, Felt::from_bool(round >= 65));
        if round < 65 {
            let is_full: bool = round < 4 || round >= 61;
            builder.assert_eq_when(local.is_real, local.is_full_round, Felt::from_bool(is_full));
            builder.assert_eq_when(local.is_real, local.is_input_op, Felt::from_bool(round == 0));
            builder.assert_eq_when(local.is_real, local.is_output_op, Felt::from_bool(round == 64));
            builder.assert_eq_when(
                local.is_real,
                local.round_constants[0],
                round_constant_of(round, 0),
            );
            builder.assert_eq_when(
                local.is_real,
                local.round_constants[1],
                round_constant_of(round, 1),
            );
            builder.assert_eq_when(
                local.is_real,
                local.round_constants[2],
                round_constant_of(round, 2),
            );
        }
    }

    /// `x` to the fifth power where the flag `c` is one, `x` where it is zero.
    fn select_pow5(c: Felt, x: Felt) -> (r: Felt)
        ensures
            r == select(c, fpow5(x), x),
    {
        x.add(c.mul(x.pow5().sub(x)))
    }

    /// Asserts the constraints on a row's layers.
    pub fn eval_state_transition(&self, builder: &mut ConstraintBuilder, local: &PoseidonCols)
        ensures
            final(builder).asserted(*old(builder), state_transition(*local)),
    {
        builder.assert_eq(local.ark_state[0], local.state[0].add(local.round_constants[0]));
        builder.assert_eq(local.ark_state[1], local.state[1].add(local.round_constants[1]));
        builder.assert_eq(local.ark_state[2], local.state[2].add(local.round_constants[2]));
        builder.assert_eq(local.sbox_state[0], local.ark_state[0].pow5());
        builder.assert_eq(
            local.sbox_state[1],
            Self::select_pow5(local.is_full_round, local.ark_state[1]),
        );
        builder.assert_eq(
            local.sbox_state[2],
            Self::select_pow5(local.is_full_round, local.ark_state[2]),
        );
        builder.assert_eq(local.mix_state[0], mix_row(&local.sbox_state, 0));
        builder.assert_eq(local.mix_state[1], mix_row(&local.sbox_state, 1));
        builder.assert_eq(local.mix_state[2], mix_row(&local.sbox_state, 2));
        builder.assert_eq(local.next_state[0], local.mix_state[0]);
        builder.assert_eq(local.next_state[1], local.mix_state[1]);
        builder.assert_eq(local.next_state[2], local.mix_state[2]);
    }

    /// Asserts the constraints on a row that touches memory, and receives the syscall on the
    /// row of a permutation's first round.
    pub fn eval_memory_constraints(&self, builder: &mut ConstraintBuilder, local: &PoseidonCols)
        ensures
            final(builder).extends(*old(builder), memory_constraints(*local), interactions(*local)),
    {
        builder.assert_zero_when(
            local.is_memory_op,
            local.is_input_op.mul(local.is_input_op.sub(Felt::one())),
        );
        builder.assert_zero_when(
            local.is_memory_op,
            local.is_output_op.mul(local.is_output_op.sub(Felt::one())),
        );
        builder.assert_zero_when(
            local.is_memory_op,
            Felt::from_canonical_u32(local.input_ptr.as_canonical_u32() % 4),
        );
        builder.assert_zero_when(
            local.is_memory_op,
            Felt::from_canonical_u32(local.output_ptr.as_canonical_u32() % 4),
        );
        builder.receive_syscall(
            local.shard,
            local.clk,
            local.nonce,
            Felt::from_canonical_u32(SyscallCode::POSEIDON.syscall_id()),
            local.input_ptr,
            local.output_ptr,
            local.is_real.mul(local.is_input_op),
        );
        assert(builder.interactions@ =~= old(builder).interactions@ + interactions(*local));
    }

    /// Asserts the constraints that hand the state on.
    pub fn eval_state_update(
        &self,
        builder: &mut ConstraintBuilder,
        local: &PoseidonCols,
        next: &PoseidonCols,
    )
        ensures
            final(builder).asserted(
                *old(builder),
                state_update(*local, *next, old(builder).is_transition),
            ),
    {
        let s: Felt = Self::within_selector(local);
        builder.assert_eq_transition_when(s, local.next_state[0], next.state[0]);
        builder.assert_eq_transition_when(s, local.next_state[1], next.state[1]);
        builder.assert_eq_transition_when(s, local.next_state[2], next.state[2]);
        builder.assert_eq_when(local.is_output_op, local.next_state[0], local.output_value);
    }

    /// Asserts the chip's constraints on a row and the row after it, and declares the row's
    /// interaction.
    pub fn eval(&self, builder: &mut ConstraintBuilder, local: &PoseidonCols, next: &PoseidonCols)
        ensures
            final(builder).extends(
                *old(builder),
                constraints(*local, *next, old(builder).is_first_row, old(builder).is_transition),
                interactions(*local),
            ),
    {
        self.eval_execution_context(builder, local, next);
        self.eval_round_constraints(builder, local, next);
        self.eval_state_transition(builder, local);
        self.eval_memory_constraints(builder, local);
        self.eval_state_update(builder, local, next);
        assert(builder.interactions@ =~= old(builder).interactions@ + interactions(*local));
    }

    /// Evaluates the constraints on every row of a trace given as a matrix, the last row paired
    /// with the first, and reports the first row at which one is violated.
    pub fn check_trace(&self, trace: &TraceMatrix) -> (r: Result<(), ConstraintViolation>)
        requires
            trace.wf(),
            trace.width == crate::poseidon::NUM_COLS,
        ensures
            is_trace_verdict(r, *trace),
            r matches Err(v) ==> v.chip@ == "Poseidon"@,
    {
        let rows: Vec<PoseidonCols> = unflatten_rows(trace);
        let r = self.check_rows(&rows);
        assert(rows_fill(rows@, *trace));
        r
    }

    /// Evaluates the constraints on every row of a trace, the last row paired with the first,
    /// and reports the first row at which one is violated.
    pub fn check_rows(&self, rows: &Vec<PoseidonCols>) -> (r: Result<(), ConstraintViolation>)
        ensures
            r is Ok <==> trace_satisfies(rows@),
            crate::trace::is_verdict(r, row_verdicts(rows@)),
            r matches Err(v) ==> {
                &&& v.chip@ == "Poseidon"@
                &&& v.row < rows@.len()
                &&& !constraints(
                    rows@[v.row as int],
                    rows@[(v.row + 1) % (rows@.len() as int)],
                    v.row == 0,
                    v.row + 1 < rows@.len(),
                )
                &&& forall|j: int|
                    0 <= j < v.row ==> constraints(
                        #[trigger] rows@[j],
                        rows@[(j + 1) % (rows@.len() as int)],
                        j == 0,
                        j + 1 < rows@.len(),
                    )
            },
    {
        let n: usize = rows.len();
        let mut i: usize = 0;
        while i < n
            invariant
                i <= n,
                n == rows@.len(),
                forall|j: int|
                    0 <= j < i ==> constraints(
                        #[trigger] rows@[j],
                        rows@[(j + 1) % (rows@.len() as int)],
                        j == 0,
                        j + 1 < rows@.len(),
                    ),
            decreases n - i,
        {
            let next: usize = if i + 1 < n {
                i + 1
            } else {
                0
            };
            proof {
                if i + 1 < n {
                    vstd::arithmetic::div_mod::lemma_small_mod((i + 1) as nat, n as nat);
                } else {
                    vstd::arithmetic::div_mod::lemma_mod_self_0(n as int);
                }
            }
            let mut builder = ConstraintBuilder::new(i == 0, i + 1 < n);
            self.eval(&mut builder, &rows[i], &rows[next]);
            if !builder.ok {
                return Err(ConstraintViolation { chip: self.name(), row: i });
            }
            i = i + 1;
        }
        Ok(())
    }
}

} // verus!
