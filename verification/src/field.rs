//! The trace field: integers modulo the 31-bit prime `15 * 2^27 + 1`.
use vstd::arithmetic::div_mod::{
    lemma_add_mod_noop, lemma_mul_mod_noop, lemma_small_mod, lemma_sub_mod_noop,
};
use vstd::prelude::*;

verus! {

/// The order of the trace field.
pub const MODULUS: u32 = 2013265921;

/// The order of the trace field as a mathematical integer.
pub open spec fn modulus() -> int {
    2013265921
}

/// An element of the trace field. Every operation reads `value` modulo the field order, and
/// every operation returns the canonical representative, which is below the order.
#[derive(Clone, Copy, Debug, PartialEq, Eq, Structural)]
pub struct Felt {
    pub value: u32,
}

/// The residue that an element stands for.
pub open spec fn residue(x: Felt) -> int {
    x.value as int % modulus()
}

/// The canonical element with the residue of `n`.
pub open spec fn felt_of(n: int) -> Felt {
    Felt { value: (n % modulus()) as u32 }
}

/// Field addition.
pub open spec fn fadd(a: Felt, b: Felt) -> Felt {
    felt_of(a.value + b.value)
}

/// Field subtraction.
pub open spec fn fsub(a: Felt, b: Felt) -> Felt {
    felt_of(a.value - b.value)
}

/// Field multiplication.
pub open spec fn fmul(a: Felt, b: Felt) -> Felt {
    felt_of(a.value * b.value)
}

/// Additive inverse.
pub open spec fn fneg(a: Felt) -> Felt {
    felt_of(-a.value)
}

/// The fifth power, the permutation's power map.
pub open spec fn fpow5(a: Felt) -> Felt {
    fmul(fmul(fmul(a, a), fmul(a, a)), a)
}

/// The additive identity.
pub open spec fn fzero() -> Felt {
    Felt { value: 0 }
}

/// The multiplicative identity.
pub open spec fn fone() -> Felt {
    Felt { value: 1 }
}

/// Either identity, by a flag.
pub open spec fn fbool(b: bool) -> Felt {
    if b {
        fone()
    } else {
        fzero()
    }
}

impl Felt {
    /// Zero.
    pub fn zero() -> (r: Felt)
        ensures
            r == fzero(),
    {
        Felt { value: 0 }
    }

    /// One.
    pub fn one() -> (r: Felt)
        ensures
            r == fone(),
    {
        Felt { value: 1 }
    }

    /// One for `true`, zero for `false`.
    pub fn from_bool(b: bool) -> (r: Felt)
        ensures
            r == fbool(b),
    {
        if b {
            Felt { value: 1 }
        } else {
            Felt { value: 0 }
        }
    }

    /// The element with the residue of `n`.
    pub fn from_canonical_u8(n: u8) -> (r: Felt)
        ensures
            r == felt_of(n as int),
            r.value == n,
    {
        proof {
            lemma_small_mod(n as nat, modulus() as nat);
        }
        Felt { value: n as u32 }
    }

    /// The element with the residue of `n`.
    pub fn from_canonical_u16(n: u16) -> (r: Felt)
        ensures
            r == felt_of(n as int),
            r.value == n,
    {
        proof {
            lemma_small_mod(n as nat, modulus() as nat);
        }
        Felt { value: n as u32 }
    }

    /// The element with the residue of `n`.
    pub fn from_canonical_u32(n: u32) -> (r: Felt)
        ensures
            r == felt_of(n as int),
            n < MODULUS ==> r.value == n,
    {
        proof {
            if n < MODULUS {
                lemma_small_mod(n as nat, modulus() as nat);
            }
        }
        Felt { value: n % MODULUS }
    }

    /// The element with the residue of `n`.
    pub fn from_canonical_u64(n: u64) -> (r: Felt)
        ensures
            r == felt_of(n as int),
            n < MODULUS ==> r.value == n,
    {
        proof {
            if n < MODULUS {
                lemma_small_mod(n as nat, modulus() as nat);
            }
        }
        Felt { value: (n % (MODULUS as u64)) as u32 }
    }

    /// The element with the residue of `n`.
    pub fn from_canonical_usize(n: usize) -> (r: Felt)
        ensures
            r == felt_of(n as int),
            n < MODULUS ==> r.value == n,
    {
        proof {
            if n < MODULUS {
                lemma_small_mod(n as nat, modulus() as nat);
            }
        }
        Felt { value: (n % (MODULUS as usize)) as u32 }
    }

    /// The canonical representative, below the field order.
    pub fn as_canonical_u32(self) -> (r: u32)
        ensures
            r as int == residue(self),
            r < MODULUS,
    {
        self.value % MODULUS
    }

    /// Whether the element is the additive identity.
    pub fn is_zero(self) -> (r: bool)
        ensures
            r == (residue(self) == 0),
    {
        self.value % MODULUS == 0
    }

    /// Field addition.
    pub fn add(self, rhs: Felt) -> (r: Felt)
        ensures
            r == fadd(self, rhs),
            r.value < MODULUS,
    {
        let s: u64 = self.value as u64 + rhs.value as u64;
        Felt { value: (s % (MODULUS as u64)) as u32 }
    }

    /// Field subtraction.
    pub fn sub(self, rhs: Felt) -> (r: Felt)
        ensures
            r == fsub(self, rhs),
            r.value < MODULUS,
    {
        let b: u64 = (rhs.value % MODULUS) as u64;
        let s: u64 = self.value as u64 + (MODULUS as u64 - b);
        proof {
            let m = modulus();
            lemma_sub_mod_noop(self.value as int, rhs.value as int, m);
            lemma_sub_mod_noop(self.value as int + m, b as int, m);
            lemma_add_mod_noop(self.value as int, m, m);
            lemma_sub_mod_noop(self.value as int, b as int, m);
            lemma_small_mod(b as nat, m as nat);
            assert((self.value as int + m - b) % m == (self.value - rhs.value) % m) by {
                lemma_mod_shift(self.value as int - b, m);
            }
        }
        Felt { value: (s % (MODULUS as u64)) as u32 }
    }

    /// Field multiplication.
    pub fn mul(self, rhs: Felt) -> (r: Felt)
        ensures
            r == fmul(self, rhs),
            r.value < MODULUS,
    {
        assert(self.value as u64 * rhs.value as u64 <= 0xffff_ffff * 0xffff_ffff) by (nonlinear_arith)
            requires
                self.value <= 0xffff_ffff,
                rhs.value <= 0xffff_ffff,
        ;
        let s: u64 = self.value as u64 * rhs.value as u64;
        Felt { value: (s % (MODULUS as u64)) as u32 }
    }

    /// Additive inverse.
    pub fn neg(self) -> (r: Felt)
        ensures
            r == fneg(self),
            r.value < MODULUS,
    {
        let z = Felt { value: 0 };
        z.sub(self)
    }

    /// The square.
    pub fn square(self) -> (r: Felt)
        ensures
            r == fmul(self, self),
            r.value < MODULUS,
    {
        self.mul(self)
    }

    /// The fifth power.
    pub fn pow5(self) -> (r: Felt)
        ensures
            r == fpow5(self),
            r.value < MODULUS,
    {
        let x2 = self.mul(self);
        let x4 = x2.mul(x2);
        x4.mul(self)
    }
}

/// Adding the modulus once does not change a residue.
pub proof fn lemma_mod_shift(x: int, m: int)
    requires
        m > 0,
    ensures
        (x + m) % m == x % m,
{
    vstd::arithmetic::div_mod::lemma_mod_add_multiples_vanish(x, m);
}

/// The residue of a canonical element built from an integer is that integer's residue.
pub proof fn lemma_residue_felt_of(n: int)
    ensures
        residue(felt_of(n)) == n % modulus(),
        felt_of(n).value == n % modulus(),
        0 <= felt_of(n).value < modulus(),
{
    vstd::arithmetic::div_mod::lemma_mod_twice(n, modulus());
}

/// Field addition adds residues.
pub proof fn lemma_fadd_residue(a: Felt, b: Felt)
    ensures
        residue(fadd(a, b)) == (residue(a) + residue(b)) % modulus(),
        fadd(a, b) == felt_of(residue(a) + residue(b)),
{
    lemma_add_mod_noop(a.value as int, b.value as int, modulus());
    lemma_residue_felt_of(a.value + b.value);
}

/// Field subtraction subtracts residues.
pub proof fn lemma_fsub_residue(a: Felt, b: Felt)
    ensures
        residue(fsub(a, b)) == (residue(a) - residue(b)) % modulus(),
        fsub(a, b) == felt_of(residue(a) - residue(b)),
{
    lemma_sub_mod_noop(a.value as int, b.value as int, modulus());
    lemma_residue_felt_of(a.value - b.value);
}

/// Field multiplication multiplies residues.
pub proof fn lemma_fmul_residue(a: Felt, b: Felt)
    ensures
        residue(fmul(a, b)) == (residue(a) * residue(b)) % modulus(),
        fmul(a, b) == felt_of(residue(a) * residue(b)),
{
    lemma_mul_mod_noop(a.value as int, b.value as int, modulus());
    lemma_residue_felt_of(a.value * b.value);
}

/// Whether `f` stands for the integer `x`: whether they agree modulo the field order.
pub open spec fn rep(f: Felt, x: int) -> bool {
    residue(f) == x % modulus()
}

/// The canonical element of an integer stands for it.
pub proof fn lemma_rep_felt_of(x: int)
    ensures
        rep(felt_of(x), x),
{
    lemma_residue_felt_of(x);
}

/// Every element stands for its own residue.
pub proof fn lemma_rep_cell(f: Felt)
    ensures
        rep(f, residue(f)),
{
    vstd::arithmetic::div_mod::lemma_mod_twice(f.value as int, modulus());
}

/// A sum of elements stands for the sum of what they stand for.
pub proof fn lemma_rep_add(f: Felt, x: int, g: Felt, y: int)
    requires
        rep(f, x),
        rep(g, y),
    ensures
        fadd(f, g) == felt_of(x + y),
        rep(fadd(f, g), x + y),
{
    lemma_fadd_residue(f, g);
    lemma_add_mod_noop(x, y, modulus());
    lemma_residue_felt_of(x + y);
}

/// A difference of elements stands for the difference of what they stand for.
pub proof fn lemma_rep_sub(f: Felt, x: int, g: Felt, y: int)
    requires
        rep(f, x),
        rep(g, y),
    ensures
        fsub(f, g) == felt_of(x - y),
        rep(fsub(f, g), x - y),
{
    lemma_fsub_residue(f, g);
    lemma_sub_mod_noop(x, y, modulus());
    lemma_residue_felt_of(x - y);
}

/// A product of elements stands for the product of what they stand for.
pub proof fn lemma_rep_mul(f: Felt, x: int, g: Felt, y: int)
    requires
        rep(f, x),
        rep(g, y),
    ensures
        fmul(f, g) == felt_of(x * y),
        rep(fmul(f, g), x * y),
{
    lemma_fmul_residue(f, g);
    lemma_mul_mod_noop(x, y, modulus());
    lemma_residue_felt_of(x * y);
}

} // verus!
