//! Evaluating constraints on one pair of adjacent trace rows.
//!
//! A chip's constraints are polynomials in the cells of a row and of the row after it; the
//! trace is valid where every one of them evaluates to zero on every such pair, the last row
//! paired with the first. A [`ConstraintBuilder`] stands for one pair: a chip hands it each
//! polynomial's value and each interaction term, and it remembers whether all values so far
//! were zero and which interactions were declared. Balancing the interactions across chips is
//! the outer prover's part.
use crate::field::{fmul, fone, fsub, fzero, residue, Felt};
use crate::lookup::ByteOpcode;
use vstd::prelude::*;

verus! {

/// One term of the cross-chip multiset argument.
#[derive(Clone, Copy, Debug, PartialEq, Eq, Structural)]
pub enum Interaction {
    /// A state of one memory word: sent for the state an access found, received for the state
    /// it left.
    Memory {
        is_send: bool,
        shard: Felt,
        clk: Felt,
        addr: Felt,
        b0: Felt,
        b1: Felt,
        b2: Felt,
        b3: Felt,
        multiplicity: Felt,
    },
    /// A syscall received from the instruction-execution chip.
    Syscall {
        shard: Felt,
        clk: Felt,
        nonce: Felt,
        syscall_id: Felt,
        arg1: Felt,
        arg2: Felt,
        multiplicity: Felt,
    },
    /// A request sent to the byte table.
    Byte { opcode: ByteOpcode, a1: Felt, a2: Felt, b: Felt, c: Felt, multiplicity: Felt },
}

/// The constraints and interactions of one pair of adjacent rows.
pub struct ConstraintBuilder {
    /// Whether the pair's first row is the first row of the trace.
    pub is_first_row: bool,
    /// Whether the pair's first row is followed by another row of the trace, not by the wrap
    /// to the first.
    pub is_transition: bool,
    /// Whether every constraint asserted so far evaluated to zero.
    pub ok: bool,
    /// The interactions declared so far, in the order of their declaration.
    pub interactions: Vec<Interaction>,
}

/// Whether a field element is zero.
pub open spec fn is_zero(x: Felt) -> bool {
    residue(x) == 0
}

/// Whether `cond * x` is zero: the constraint `x == 0`, in force where `cond` is not zero.
pub open spec fn zero_when(cond: Felt, x: Felt) -> bool {
    is_zero(fmul(cond, x))
}

/// Whether `cond * (a - b)` is zero.
pub open spec fn eq_when(cond: Felt, a: Felt, b: Felt) -> bool {
    is_zero(fmul(cond, fsub(a, b)))
}

/// Whether `a - b` is zero.
pub open spec fn eq_felt(a: Felt, b: Felt) -> bool {
    is_zero(fsub(a, b))
}

/// Whether `x * (x - 1)` is zero: `x` is zero or one.
pub open spec fn is_bool(x: Felt) -> bool {
    is_zero(fmul(x, fsub(x, fone())))
}

/// The requests that a run of cells hold bytes: one for each pair of cells, and one for a last
/// cell without a partner, paired with zero; each sent `multiplicity` times.
pub open spec fn range_check_interactions(values: Seq<Felt>, multiplicity: Felt) -> Seq<
    Interaction,
> {
    Seq::new(
        ((values.len() + 1) / 2) as nat,
        |i: int|
            Interaction::Byte {
                opcode: ByteOpcode::U8Range,
                a1: fzero(),
                a2: fzero(),
                b: values[2 * i],
                c: if 2 * i + 1 < values.len() {
                    values[2 * i + 1]
                } else {
                    fzero()
                },
                multiplicity,
            },
    )
}

impl ConstraintBuilder {
    /// Whether two builders stand for the same place in the trace.
    pub open spec fn same_place(self, other: ConstraintBuilder) -> bool {
        self.is_first_row == other.is_first_row && self.is_transition == other.is_transition
    }

    /// Whether `self` is `before` after constraints that together hold exactly if `holds`, and
    /// after the interactions `sent`.
    pub open spec fn extends(
        self,
        before: ConstraintBuilder,
        holds: bool,
        sent: Seq<Interaction>,
    ) -> bool {
        &&& self.same_place(before)
        &&& self.ok == (before.ok && holds)
        &&& self.interactions@ == before.interactions@ + sent
    }

    /// Whether `self` is `before` after constraints that together hold exactly if `holds`, and
    /// no interaction.
    pub open spec fn asserted(self, before: ConstraintBuilder, holds: bool) -> bool {
        &&& self.same_place(before)
        &&& self.ok == (before.ok && holds)
        &&& self.interactions == before.interactions
    }

    /// A builder for one pair of rows, with nothing asserted yet.
    pub fn new(is_first_row: bool, is_transition: bool) -> (b: ConstraintBuilder)
        ensures
            b.is_first_row == is_first_row,
            b.is_transition == is_transition,
            b.ok,
            b.interactions@ == Seq::<Interaction>::empty(),
    {
        ConstraintBuilder { is_first_row, is_transition, ok: true, interactions: Vec::new() }
    }

    /// Asserts `x == 0`.
    pub fn assert_zero(&mut self, x: Felt)
        ensures
            final(self).asserted(*old(self), is_zero(x)),
    {
        if !x.is_zero() {
            self.ok = false;
        }
    }

    /// Asserts `a == b`.
    pub fn assert_eq(&mut self, a: Felt, b: Felt)
        ensures
            final(self).asserted(*old(self), eq_felt(a, b)),
    {
        self.assert_zero(a.sub(b));
    }

    /// Asserts that `x` is zero or one.
    pub fn assert_bool(&mut self, x: Felt)
        ensures
            final(self).asserted(*old(self), is_bool(x)),
    {
        self.assert_zero(x.mul(x.sub(Felt::one())));
    }

    /// Asserts `x == 0` where `cond` is not zero.
    pub fn assert_zero_when(&mut self, cond: Felt, x: Felt)
        ensures
            final(self).asserted(*old(self), zero_when(cond, x)),
    {
        self.assert_zero(cond.mul(x));
    }

    /// Asserts `a == b` where `cond` is not zero.
    pub fn assert_eq_when(&mut self, cond: Felt, a: Felt, b: Felt)
        ensures
            final(self).asserted(*old(self), eq_when(cond, a, b)),
    {
        self.assert_zero(cond.mul(a.sub(b)));
    }

    /// Asserts `x == 0` on the first row of the trace.
    pub fn assert_zero_first_row(&mut self, x: Felt)
        ensures
            final(self).asserted(*old(self), old(self).is_first_row ==> is_zero(x)),
    {
        if self.is_first_row {
            self.assert_zero(x);
        }
    }

    /// Asserts `a == b` on every row that another row follows.
    pub fn assert_eq_transition(&mut self, a: Felt, b: Felt)
        ensures
            final(self).asserted(*old(self),
                old(self).is_transition ==> eq_felt(a, b)),
    {
        if self.is_transition {
            self.assert_eq(a, b);
        }
    }

    /// Asserts `a == b` where `cond` is not zero, on every row that another row follows.
    pub fn assert_eq_transition_when(&mut self, cond: Felt, a: Felt, b: Felt)
        ensures
            final(self).asserted(*old(self),
                old(self).is_transition ==> eq_when(cond, a, b)),
    {
        if self.is_transition {
            self.assert_eq_when(cond, a, b);
        }
    }

    /// Declares one interaction.
    pub fn interact(&mut self, interaction: Interaction)
        ensures
            final(self).extends(*old(self), true, seq![interaction]),
    {
        self.interactions.push(interaction);
        assert(self.interactions@ =~= old(self).interactions@ + seq![interaction]);
    }

    /// Sends the byte table a request, `multiplicity` times.
    pub fn send_byte(
        &mut self,
        opcode: ByteOpcode,
        a1: Felt,
        a2: Felt,
        b: Felt,
        c: Felt,
        multiplicity: Felt,
    )
        ensures
            final(self).extends(
                *old(self),
                true,
                seq![Interaction::Byte { opcode, a1, a2, b, c, multiplicity }],
            ),
    {
        self.interact(Interaction::Byte { opcode, a1, a2, b, c, multiplicity });
    }

    /// Sends the byte table the requests that the cells of `values` hold bytes.
    pub fn slice_range_check_u8(&mut self, values: &[Felt], multiplicity: Felt)
        ensures
            final(self).extends(
                *old(self),
                true,
                range_check_interactions(values@, multiplicity),
            ),
    {
        let n: usize = values.len();
        let mut index: usize = 0;
        while index < n && index + 1 < n
            invariant
                n == values@.len(),
                index <= n,
                index % 2 == 0,
                self.same_place(*old(self)),
                self.ok == old(self).ok,
                self.interactions@.len() == old(self).interactions@.len() + index / 2,
                forall|k: int|
                    0 <= k < old(self).interactions@.len() ==> self.interactions@[k] == old(
                        self,
                    ).interactions@[k],
                forall|k: int|
                    0 <= k < index / 2 ==> self.interactions@[old(self).interactions@.len() + k]
                        == range_check_interactions(values@, multiplicity)[k],
            decreases n - index,
        {
            self.send_byte(
                ByteOpcode::U8Range,
                Felt::zero(),
                Felt::zero(),
                values[index],
                values[index + 1],
                multiplicity,
            );
            index = index + 2;
        }
        if index < n {
            self.send_byte(
                ByteOpcode::U8Range,
                Felt::zero(),
                Felt::zero(),
                values[index],
                Felt::zero(),
                multiplicity,
            );
        }
        assert(self.interactions@ =~= old(self).interactions@ + range_check_interactions(
            values@,
            multiplicity,
        ));
    }

    /// Receives a syscall from the instruction-execution chip, `multiplicity` times.
    pub fn receive_syscall(
        &mut self,
        shard: Felt,
        clk: Felt,
        nonce: Felt,
        syscall_id: Felt,
        arg1: Felt,
        arg2: Felt,
        multiplicity: Felt,
    )
        ensures
            final(self).extends(
                *old(self),
                true,
                seq![
                    Interaction::Syscall { shard, clk, nonce, syscall_id, arg1, arg2, multiplicity },
                ],
            ),
    {
        self.interact(
            Interaction::Syscall { shard, clk, nonce, syscall_id, arg1, arg2, multiplicity },
        );
    }
}

/// A product is zero where its first factor is.
pub proof fn lemma_zero_when_zero(cond: Felt, x: Felt)
    requires
        is_zero(cond) || is_zero(x),
    ensures
        zero_when(cond, x),
{
    crate::field::lemma_fmul_residue(cond, x);
    assert(residue(cond) * residue(x) == 0) by (nonlinear_arith)
        requires
            residue(cond) == 0 || residue(x) == 0,
    ;
}

/// An element equals itself.
pub proof fn lemma_eq_felt_same(a: Felt, b: Felt)
    requires
        residue(a) == residue(b),
    ensures
        eq_felt(a, b),
        forall|cond: Felt| eq_when(cond, a, b),
{
    crate::field::lemma_fsub_residue(a, b);
    assert forall|cond: Felt| eq_when(cond, a, b) by {
        lemma_zero_when_zero(cond, fsub(a, b));
    }
}

/// Where the selector is one, elements asserted equal have the same residue.
pub proof fn lemma_eq_when_real(a: Felt, b: Felt)
    requires
        eq_when(fone(), a, b),
    ensures
        residue(a) == residue(b),
{
    let d = fsub(a, b);
    let m = crate::field::modulus();
    crate::field::lemma_fsub_residue(a, b);
    crate::field::lemma_rep_felt_of(1);
    crate::field::lemma_rep_cell(d);
    crate::field::lemma_rep_mul(fone(), 1, d, residue(d));
    assert(1 * residue(d) == residue(d));
    vstd::arithmetic::div_mod::lemma_mod_twice(d.value as int, m);
    assert(residue(d) == 0);
    let x = residue(a) - residue(b);
    assert(x % m == 0);
    if x > 0 {
        vstd::arithmetic::div_mod::lemma_small_mod(x as nat, m as nat);
    } else if x < 0 {
        vstd::arithmetic::div_mod::lemma_small_mod((x + m) as nat, m as nat);
        vstd::arithmetic::div_mod::lemma_mod_add_multiples_vanish(x, m);
    }
}

/// Zero and one are the two flags.
pub proof fn lemma_is_bool_flag(b: bool)
    ensures
        is_bool(crate::field::fbool(b)),
        is_bool(fzero()),
        is_bool(fone()),
{
    assert(is_bool(fzero())) by {
        lemma_zero_when_zero(fzero(), fsub(fzero(), fone()));
    }
    assert(is_bool(fone())) by {
        lemma_eq_felt_same(fone(), fone());
        lemma_zero_when_zero(fone(), fsub(fone(), fone()));
    }
}

} // verus!
