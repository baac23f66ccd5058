//! Trace matrices and the padding of their height.
use crate::field::{fbool, felt_of, Felt};
use vstd::arithmetic::power2::{lemma_pow2_unfold, pow2};
use vstd::prelude::*;

verus! {

/// The least height that a trace is padded to where no height is fixed.
pub const MIN_HEIGHT: usize = 16;

/// Whether `n` is a power of two.
pub open spec fn is_power_of_two(n: int) -> bool {
    exists|k: nat| n == pow2(k)
}

/// Whether `n` rows can be padded as `fixed_power` asks: they fit the fixed height, and the
/// height fits the machine.
pub open spec fn height_fits(n: nat, fixed_power: Option<usize>) -> bool {
    match fixed_power {
        Some(power) => n <= pow2(power as nat) <= usize::MAX,
        None => 2 * n <= usize::MAX,
    }
}

/// Whether `height` is the height that `n` rows are padded to.
pub open spec fn is_padded_height(height: nat, n: nat, fixed_power: Option<usize>) -> bool {
    &&& is_power_of_two(height as int)
    &&& height >= n
    &&& match fixed_power {
        Some(power) => height == pow2(power as nat),
        None => height >= MIN_HEIGHT && (height == MIN_HEIGHT || height / 2 < n),
    }
}

/// Whether a trace of `width` columns for `n` rows, padded as `fixed_power` asks, fits the
/// machine.
pub open spec fn trace_fits(n: nat, fixed_power: Option<usize>, width: nat) -> bool {
    &&& height_fits(n, fixed_power)
    &&& match fixed_power {
        Some(power) => pow2(power as nat) * width <= usize::MAX,
        None => 2 * n * width <= usize::MAX && MIN_HEIGHT * width <= usize::MAX,
    }
}

/// A padded trace that fits the machine has no more cells than the machine can count.
pub proof fn lemma_trace_fits(height: nat, n: nat, fixed_power: Option<usize>, width: nat)
    requires
        trace_fits(n, fixed_power, width),
        is_padded_height(height, n, fixed_power),
    ensures
        height * width <= usize::MAX,
{
    if fixed_power is None && height != MIN_HEIGHT {
        assert(height <= 2 * n);
        assert(height * width <= 2 * n * width) by (nonlinear_arith)
            requires
                height <= 2 * n,
        ;
    }
}

/// Whether the rows of `trace` are numbered and marked: in every row the cell of column
/// `nonce` holds the row's number, and the cell of column `is_real` holds one in the first
/// `events` rows and zero in the rows after them.
pub open spec fn rows_are_numbered(
    trace: TraceMatrix,
    nonce: int,
    is_real: int,
    events: nat,
) -> bool {
    forall|i: int|
        0 <= i < trace.spec_height() ==> (#[trigger] trace.spec_row(i))[nonce] == felt_of(i)
            && trace.spec_row(i)[is_real] == fbool(i < events)
}

/// A violated constraint: the chip and the row at which it was found.
#[derive(Debug)]
pub struct ConstraintViolation {
    /// The name of the chip.
    pub chip: String,
    /// The number of the first row of the pair on which a constraint did not evaluate to zero.
    pub row: usize,
}

/// Whether `r` is the verdict on a trace whose rows satisfy the constraints as `holds` says:
/// success where every row does, and else the first row that does not.
pub open spec fn is_verdict(r: Result<(), ConstraintViolation>, holds: Seq<bool>) -> bool {
    match r {
        Ok(_) => forall|i: int| 0 <= i < holds.len() ==> holds[i],
        Err(v) => {
            &&& v.row < holds.len()
            &&& !holds[v.row as int]
            &&& forall|j: int| 0 <= j < v.row ==> holds[j]
        },
    }
}

/// Two verdicts on the same rows agree: both are success, or both name the same first row in
/// violation.
pub proof fn lemma_verdict_unique(
    first: Result<(), ConstraintViolation>,
    second: Result<(), ConstraintViolation>,
    holds: Seq<bool>,
)
    requires
        is_verdict(first, holds),
        is_verdict(second, holds),
    ensures
        first is Ok <==> second is Ok,
        first is Err ==> first->Err_0.row == second->Err_0.row,
{
    if first is Err && second is Err {
        let a = first->Err_0.row as int;
        let b = second->Err_0.row as int;
        if a < b {
            assert(holds[a]);
        } else if b < a {
            assert(holds[b]);
        }
    }
}

/// The height that `n` rows are padded to. Where a base-two logarithm is fixed, it is that
/// power of two. Where none is, it is the least power of two that is at least `n` and at
/// least [`MIN_HEIGHT`].
pub fn next_power_of_two(n: usize, fixed_power: Option<usize>) -> (height: usize)
    requires
        height_fits(n as nat, fixed_power),
    ensures
        is_padded_height(height as nat, n as nat, fixed_power),
{
    match fixed_power {
        Some(power) => {
            let mut height: usize = 1;
            let mut i: usize = 0;
            proof {
                lemma_pow2_unfold(1);
                vstd::arithmetic::power2::lemma2_to64();
            }
            while i < power
                invariant
                    i <= power,
                    height == pow2(i as nat),
                    pow2(power as nat) <= usize::MAX,
                decreases power - i,
            {
                proof {
                    lemma_pow2_unfold((i + 1) as nat);
                    vstd::arithmetic::power2::lemma_pow2_strictly_increases(
                        i as nat,
                        (i + 1) as nat,
                    );
                    if i + 1 < power {
                        vstd::arithmetic::power2::lemma_pow2_strictly_increases(
                            (i + 1) as nat,
                            power as nat,
                        );
                    }
                }
                height = height * 2;
                i = i + 1;
            }
            height
        },
        None => {
            let mut height: usize = MIN_HEIGHT;
            let ghost mut k: nat = 4;
            proof {
                vstd::arithmetic::power2::lemma2_to64();
            }
            while height < n
                invariant
                    height == pow2(k),
                    height >= MIN_HEIGHT,
                    height == MIN_HEIGHT || height / 2 < n,
                    2 * n <= usize::MAX,
                decreases 2 * n - height,
            {
                proof {
                    lemma_pow2_unfold(k + 1);
                    k = k + 1;
                }
                assert(height >= 16);
                height = height * 2;
            }
            height
        },
    }
}

/// A rectangle of field elements, row after row.
#[derive(Debug)]
pub struct TraceMatrix {
    /// The cells, row after row.
    pub values: Vec<Felt>,
    /// The number of cells of a row.
    pub width: usize,
}

impl TraceMatrix {
    /// Whether the cells fill whole rows.
    pub open spec fn wf(self) -> bool {
        self.width > 0 && self.values@.len() % (self.width as nat) == 0
    }

    /// The number of rows.
    pub open spec fn spec_height(self) -> nat {
        self.values@.len() / (self.width as nat)
    }

    /// Row `i`.
    pub open spec fn spec_row(self, i: int) -> Seq<Felt> {
        self.values@.subrange(i * self.width, (i + 1) * self.width)
    }

    /// The matrix of `width` columns that `values` fill.
    pub fn new(values: Vec<Felt>, width: usize) -> (m: TraceMatrix)
        requires
            width > 0,
            values@.len() % (width as nat) == 0,
        ensures
            m.wf(),
            m.values == values,
            m.width == width,
    {
        TraceMatrix { values, width }
    }

    /// The matrix whose rows are `rows`.
    pub fn from_rows(rows: &Vec<Vec<Felt>>, width: usize) -> (m: TraceMatrix)
        requires
            width > 0,
            forall|i: int| 0 <= i < rows@.len() ==> (#[trigger] rows@[i])@.len() == width,
            rows@.len() * width <= usize::MAX,
        ensures
            m.wf(),
            m.width == width,
            m.spec_height() == rows@.len(),
            m.values@.len() == rows@.len() * width,
            forall|i: int| 0 <= i < rows@.len() ==> #[trigger] m.spec_row(i) == rows@[i]@,
    {
        let mut values: Vec<Felt> = Vec::new();
        let mut i: usize = 0;
        proof {
            assert(0 * width == 0) by (nonlinear_arith);
        }
        while i < rows.len()
            invariant
                i <= rows@.len(),
                width > 0,
                forall|r: int| 0 <= r < rows@.len() ==> (#[trigger] rows@[r])@.len() == width,
                values@.len() == i * width,
                forall|r: int|
                    0 <= r < i ==> #[trigger] values@.subrange(r * width, (r + 1) * width)
                        == rows@[r]@,
            decreases rows@.len() - i,
        {
            let row: &Vec<Felt> = &rows[i];
            let ghost before = values@;
            let mut j: usize = 0;
            while j < width
                invariant
                    j <= width,
                    row@.len() == width,
                    values@.len() == before.len() + j,
                    values@.subrange(0, before.len() as int) == before,
                    forall|c: int| 0 <= c < j ==> values@[before.len() + c] == row@[c],
                decreases width - j,
            {
                let ghost prior = values@;
                values.push(row[j]);
                assert(values@.subrange(0, before.len() as int) =~= prior.subrange(
                    0,
                    before.len() as int,
                ));
                j = j + 1;
            }
            proof {
                assert((i + 1) * width == i * width + width) by (nonlinear_arith);
                assert(values@.subrange(i * width, (i + 1) * width) =~= row@);
                assert forall|r: int| 0 <= r < i implies #[trigger] values@.subrange(
                    r * width,
                    (r + 1) * width,
                ) == rows@[r]@ by {
                    assert((r + 1) * width <= i * width) by (nonlinear_arith)
                        requires
                            r + 1 <= i,
                            width > 0,
                    ;
                    assert(0 <= r * width) by (nonlinear_arith)
                        requires
                            0 <= r,
                            width > 0,
                    ;
                    assert(r * width <= (r + 1) * width) by (nonlinear_arith)
                        requires
                            width > 0,
                    ;
                    assert(values@.subrange(r * width, (r + 1) * width) =~= before.subrange(
                        r * width,
                        (r + 1) * width,
                    ));
                }
            }
            i = i + 1;
        }
        proof {
            let n = rows@.len() as int;
            let w = width as int;
            vstd::arithmetic::div_mod::lemma_mod_multiples_basic(n, w);
            vstd::arithmetic::div_mod::lemma_div_multiples_vanish(n, w);
            assert(n * w == w * n) by (nonlinear_arith);
            assert(values@.len() == w * n);
        }
        TraceMatrix { values, width }
    }

    /// The number of rows.
    pub fn height(&self) -> (h: usize)
        requires
            self.wf(),
        ensures
            h == self.spec_height(),
    {
        self.values.len() / self.width
    }

    /// The number of cells of a row.
    pub fn width(&self) -> (w: usize)
        ensures
            w == self.width,
    {
        self.width
    }

    /// A copy of row `i`.
    pub fn row_slice(&self, i: usize) -> (row: Vec<Felt>)
        requires
            self.wf(),
            i < self.spec_height(),
        ensures
            row@ == self.spec_row(i as int),
            row@.len() == self.width,
    {
        let w: usize = self.width;
        let total: usize = self.values.len();
        proof {
            let len = self.values@.len() as int;
            assert(0 <= i * w <= (i + 1) * w) by (nonlinear_arith)
                requires
                    0 <= i,
                    0 < w,
            ;
            vstd::arithmetic::div_mod::lemma_fundamental_div_mod(len, w as int);
            assert((i + 1) * w <= (len / (w as int)) * w) by (nonlinear_arith)
                requires
                    i + 1 <= len / (w as int),
                    w > 0,
            ;
            assert((i + 1) * w == i * w + w) by (nonlinear_arith);
            assert(w * (len / (w as int)) == (len / (w as int)) * w) by (nonlinear_arith);
        }
        let start: usize = i * w;
        let mut row: Vec<Felt> = Vec::new();
        let mut j: usize = 0;
        while j < w
            invariant
                j <= w,
                w == self.width,
                start == i * w,
                start + w <= self.values@.len(),
                self.values@.len() == total,
                row@.len() == j,
                forall|c: int| 0 <= c < j ==> row@[c] == self.values@[start + c],
            decreases w - j,
        {
            row.push(self.values[start + j]);
            j = j + 1;
        }
        assert(row@ =~= self.spec_row(i as int));
        row
    }
}

} // verus!
