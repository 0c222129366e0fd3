//! The arithmetic of the tensors' number type.
//!
//! The library does not compute on numbers itself. It is handed the four
//! basic operations, the test for zero and the conversion of a count, and
//! builds the scaling and scoring formulas out of them. A contract therefore
//! does not say what a sum is; it says which operations were applied to which
//! operands, in which order.

use vstd::prelude::*;

verus! {

/// One of the four basic operations on two numbers.
#[derive(Debug, Clone, Copy, PartialEq, Eq, Structural)]
pub enum Op {
    /// `a + b`
    Add,
    /// `a - b`
    Sub,
    /// `a * b`
    Mul,
    /// `a / b`
    Div,
}

/// The operations of a number type `T`.
pub struct Arithmetic<T, A, Z, C> {
    /// Applies a basic operation to two numbers.
    pub calc: A,
    /// Tells whether a number equals zero.
    pub is_zero: Z,
    /// The number that stands for a count.
    pub from_count: C,
    /// The number zero.
    pub zero: T,
    /// The number one.
    pub one: T,
}

impl<T: Copy, A: Fn(Op, T, T) -> T, Z: Fn(T) -> bool, C: Fn(usize) -> T> Arithmetic<T, A, Z, C> {
    /// The operations accept every operand.
    pub open spec fn total(self) -> bool {
        &&& forall|op: Op, a: T, b: T| call_requires(self.calc, (op, a, b))
        &&& forall|a: T| call_requires(self.is_zero, (a,))
        &&& forall|n: usize| call_requires(self.from_count, (n,))
    }

    /// `result` is what `op` gives on `a` and `b`.
    pub open spec fn computes(self, op: Op, a: T, b: T, result: T) -> bool {
        call_ensures(self.calc, (op, a, b), result)
    }

    /// `degenerate` is what the test for zero says of `a`.
    pub open spec fn tests_zero(self, a: T, degenerate: bool) -> bool {
        call_ensures(self.is_zero, (a,), degenerate)
    }

    /// `number` is what stands for the count `n`.
    pub open spec fn counts(self, n: usize, number: T) -> bool {
        call_ensures(self.from_count, (n,), number)
    }

    /// `divisor` is what a feature with bounds `min` and `max` is divided by,
    /// where `max - min` came out as `range` and its test for zero as
    /// `degenerate`: `range` itself, or one where the range is zero.
    pub open spec fn is_divisor_via(
        self,
        min: T,
        max: T,
        range: T,
        degenerate: bool,
        divisor: T,
    ) -> bool {
        &&& self.computes(Op::Sub, max, min, range)
        &&& self.tests_zero(range, degenerate)
        &&& divisor == if degenerate {
            self.one
        } else {
            range
        }
    }

    /// `divisor` is what a feature with bounds `min` and `max` is divided by:
    /// `max - min`, or one where that is zero.
    pub open spec fn is_divisor(self, min: T, max: T, divisor: T) -> bool {
        exists|range: T, degenerate: bool|
            self.is_divisor_via(min, max, range, degenerate, divisor)
    }

    /// `scaled` is `offset / divisor`, where `offset` is `x - min`.
    pub open spec fn is_scaled_via(self, x: T, min: T, divisor: T, offset: T, scaled: T) -> bool {
        &&& self.computes(Op::Sub, x, min, offset)
        &&& self.computes(Op::Div, offset, divisor, scaled)
    }

    /// `scaled` is `(x - min) / divisor`.
    pub open spec fn is_scaled(self, x: T, min: T, divisor: T, scaled: T) -> bool {
        exists|offset: T| self.is_scaled_via(x, min, divisor, offset, scaled)
    }

    /// `sum` is `before + diff * diff`, where `diff` is `a - b` and `square`
    /// its square.
    pub open spec fn adds_square_via(
        self,
        before: T,
        a: T,
        b: T,
        diff: T,
        square: T,
        sum: T,
    ) -> bool {
        &&& self.computes(Op::Sub, a, b, diff)
        &&& self.computes(Op::Mul, diff, diff, square)
        &&& self.computes(Op::Add, before, square, sum)
    }

    /// `sum` is the sum of the squared differences of the first `count` cells
    /// of `row` and `rebuilt`, added up from zero in the order of the cells.
    pub open spec fn is_squared_error_sum(
        self,
        row: Seq<T>,
        rebuilt: Seq<T>,
        count: nat,
        sum: T,
    ) -> bool
        decreases count,
    {
        if count == 0 {
            sum == self.zero
        } else {
            exists|before: T, diff: T, square: T|
                {
                    &&& self.is_squared_error_sum(row, rebuilt, (count - 1) as nat, before)
                    &&& #[trigger] self.adds_square_via(
                        before,
                        row[count - 1],
                        rebuilt[count - 1],
                        diff,
                        square,
                        sum,
                    )
                }
        }
    }

    /// `error` is `sum / number`, for the sum of all squared differences of
    /// `row` and `rebuilt` and the number that stands for their length.
    pub open spec fn is_mean_squared_error_via(
        self,
        row: Seq<T>,
        rebuilt: Seq<T>,
        sum: T,
        number: T,
        error: T,
    ) -> bool {
        &&& self.is_squared_error_sum(row, rebuilt, row.len(), sum)
        &&& self.counts(row.len() as usize, number)
        &&& self.computes(Op::Div, sum, number, error)
    }

    /// `error` is the mean squared error of `row` against `rebuilt`: the sum
    /// of the squared differences of their cells, divided by their number.
    pub open spec fn is_mean_squared_error(self, row: Seq<T>, rebuilt: Seq<T>, error: T) -> bool {
        exists|sum: T, number: T| self.is_mean_squared_error_via(row, rebuilt, sum, number, error)
    }

    /// A constant feature is scaled with a range of one: where the bounds of a
    /// feature are both `c` and their difference tests as zero, the scaled
    /// value of `x` is `(x - c) / 1`.
    pub proof fn lemma_constant_feature_is_divided_by_one(self, x: T, c: T, divisor: T, scaled: T)
        requires
            self.is_divisor(c, c, divisor),
            self.is_scaled(x, c, divisor, scaled),
            forall|range: T, degenerate: bool|
                self.computes(Op::Sub, c, c, range) && #[trigger] self.tests_zero(range, degenerate)
                    ==> degenerate,
        ensures
            divisor == self.one,
            self.is_scaled(x, c, self.one, scaled),
    {
        let (range, degenerate) = choose|range: T, degenerate: bool|
            self.is_divisor_via(c, c, range, degenerate, divisor);
        assert(self.is_divisor_via(c, c, range, degenerate, divisor));
        assert(self.tests_zero(range, degenerate));
    }

    /// Scaler constancy: with both bounds of a feature equal to `c`, the
    /// scaled value of `x` is `x - c`.
    ///
    /// This holds of an arithmetic in which `c - c` tests as zero and dividing
    /// `x - c` by one leaves it as it is.
    pub proof fn lemma_constant_feature_scales_to_offset(self, x: T, c: T, divisor: T, scaled: T)
        requires
            self.is_divisor(c, c, divisor),
            self.is_scaled(x, c, divisor, scaled),
            forall|range: T, degenerate: bool|
                self.computes(Op::Sub, c, c, range) && #[trigger] self.tests_zero(range, degenerate)
                    ==> degenerate,
            forall|offset: T, quotient: T|
                self.computes(Op::Sub, x, c, offset) && #[trigger] self.computes(
                    Op::Div,
                    offset,
                    self.one,
                    quotient,
                ) ==> quotient == offset,
        ensures
            self.computes(Op::Sub, x, c, scaled),
    {
        self.lemma_constant_feature_is_divided_by_one(x, c, divisor, scaled);
        let offset = choose|offset: T| self.is_scaled_via(x, c, self.one, offset, scaled);
        assert(self.is_scaled_via(x, c, self.one, offset, scaled));
        assert(self.computes(Op::Div, offset, self.one, scaled));
    }

    /// With the bounds zero and one, scaling leaves `x` as it is.
    ///
    /// This holds of an arithmetic in which `1 - 0` is one, one does not test
    /// as zero, `x - 0` is `x` and `x / 1` is `x`.
    pub proof fn lemma_unit_range_scales_to_itself(self, x: T, divisor: T, scaled: T)
        requires
            self.is_divisor(self.zero, self.one, divisor),
            self.is_scaled(x, self.zero, divisor, scaled),
            forall|range: T| #[trigger]
                self.computes(Op::Sub, self.one, self.zero, range) ==> range == self.one,
            forall|degenerate: bool| #[trigger] self.tests_zero(self.one, degenerate) ==> !degenerate,
            forall|offset: T| #[trigger] self.computes(Op::Sub, x, self.zero, offset) ==> offset == x,
            forall|quotient: T| #[trigger]
                self.computes(Op::Div, x, self.one, quotient) ==> quotient == x,
        ensures
            scaled == x,
    {
        let (range, degenerate) = choose|range: T, degenerate: bool|
            self.is_divisor_via(self.zero, self.one, range, degenerate, divisor);
        assert(self.is_divisor_via(self.zero, self.one, range, degenerate, divisor));
        assert(self.computes(Op::Sub, self.one, self.zero, range));
        assert(self.tests_zero(self.one, degenerate));
        let offset = choose|offset: T| self.is_scaled_via(x, self.zero, divisor, offset, scaled);
        assert(self.is_scaled_via(x, self.zero, divisor, offset, scaled));
        assert(self.computes(Op::Sub, x, self.zero, offset));
        assert(self.computes(Op::Div, x, self.one, scaled));
    }

    /// The squared differences of a row with itself add up to zero.
    ///
    /// This holds of an arithmetic in which `x - x` is zero for every cell `x`
    /// of the row, and `0 * 0` and `0 + 0` are zero.
    pub proof fn lemma_same_rows_sum_to_zero(self, row: Seq<T>, count: nat, sum: T)
        requires
            count <= row.len(),
            self.is_squared_error_sum(row, row, count, sum),
            forall|k: int, diff: T|
                0 <= k < row.len() && #[trigger] self.computes(Op::Sub, row[k], row[k], diff)
                    ==> diff == self.zero,
            forall|square: T| #[trigger]
                self.computes(Op::Mul, self.zero, self.zero, square) ==> square == self.zero,
            forall|sum: T| #[trigger]
                self.computes(Op::Add, self.zero, self.zero, sum) ==> sum == self.zero,
        ensures
            sum == self.zero,
        decreases count,
    {
        if count > 0 {
            let (before, diff, square) = choose|before: T, diff: T, square: T|
                {
                    &&& self.is_squared_error_sum(row, row, (count - 1) as nat, before)
                    &&& #[trigger] self.adds_square_via(
                        before,
                        row[count - 1],
                        row[count - 1],
                        diff,
                        square,
                        sum,
                    )
                };
            self.lemma_same_rows_sum_to_zero(row, (count - 1) as nat, before);
            assert(self.computes(Op::Sub, row[count - 1], row[count - 1], diff));
            assert(self.computes(Op::Mul, diff, diff, square));
            assert(self.computes(Op::Add, before, square, sum));
        }
    }

    /// The mean squared error of a row against itself is zero.
    ///
    /// This holds of an arithmetic in which `x - x` is zero for every cell `x`
    /// of the row, `0 * 0` and `0 + 0` are zero, and zero divided by the
    /// number of cells is zero.
    pub proof fn lemma_same_rows_have_no_error(self, row: Seq<T>, error: T)
        requires
            self.is_mean_squared_error(row, row, error),
            forall|k: int, diff: T|
                0 <= k < row.len() && #[trigger] self.computes(Op::Sub, row[k], row[k], diff)
                    ==> diff == self.zero,
            forall|square: T| #[trigger]
                self.computes(Op::Mul, self.zero, self.zero, square) ==> square == self.zero,
            forall|sum: T| #[trigger]
                self.computes(Op::Add, self.zero, self.zero, sum) ==> sum == self.zero,
            forall|number: T, quotient: T|
                self.counts(row.len() as usize, number) && #[trigger] self.computes(
                    Op::Div,
                    self.zero,
                    number,
                    quotient,
                ) ==> quotient == self.zero,
        ensures
            error == self.zero,
    {
        let (sum, number) = choose|sum: T, number: T|
            self.is_mean_squared_error_via(row, row, sum, number, error);
        assert(self.is_mean_squared_error_via(row, row, sum, number, error));
        self.lemma_same_rows_sum_to_zero(row, row.len(), sum);
        assert(self.computes(Op::Div, self.zero, number, error));
    }

    /// A feature whose range does not test as zero is divided by its range.
    pub proof fn lemma_proper_feature_is_divided_by_its_range(self, min: T, max: T, divisor: T)
        requires
            self.is_divisor(min, max, divisor),
            forall|range: T, degenerate: bool|
                self.computes(Op::Sub, max, min, range) && #[trigger] self.tests_zero(
                    range,
                    degenerate,
                ) ==> !degenerate,
        ensures
            self.computes(Op::Sub, max, min, divisor),
    {
        let (range, degenerate) = choose|range: T, degenerate: bool|
            self.is_divisor_via(min, max, range, degenerate, divisor);
        assert(self.is_divisor_via(min, max, range, degenerate, divisor));
        assert(self.tests_zero(range, degenerate));
    }

    /// What a feature with bounds `min` and `max` is divided by: its range
    /// `max - min`, or one where the range is zero.
    pub fn divisor(&self, min: T, max: T) -> (divisor: T)
        requires
            self.total(),
        ensures
            self.is_divisor(min, max, divisor),
    {
        let range = (self.calc)(Op::Sub, max, min);
        let degenerate = (self.is_zero)(range);
        let divisor = if degenerate {
            self.one
        } else {
            range
        };
        assert(self.is_divisor_via(min, max, range, degenerate, divisor));
        divisor
    }

    /// Scales one cell: `(x - min) / divisor`.
    pub fn scale(&self, x: T, min: T, divisor: T) -> (scaled: T)
        requires
            self.total(),
        ensures
            self.is_scaled(x, min, divisor, scaled),
    {
        let offset = (self.calc)(Op::Sub, x, min);
        let scaled = (self.calc)(Op::Div, offset, divisor);
        assert(self.is_scaled_via(x, min, divisor, offset, scaled));
        scaled
    }

    /// The mean squared error of a row against its reconstruction: the squared
    /// differences are added up from zero, cell by cell, and the sum is
    /// divided by the number of cells.
    pub fn mean_squared_error(&self, row: &[T], rebuilt: &[T]) -> (error: T)
        requires
            self.total(),
            row@.len() == rebuilt@.len(),
        ensures
            self.is_mean_squared_error(row@, rebuilt@, error),
    {
        let count = row.len();
        let mut sum = self.zero;
        let mut k: usize = 0;
        while k < count
            invariant
                0 <= k <= count,
                count == row@.len(),
                count == rebuilt@.len(),
                self.total(),
                self.is_squared_error_sum(row@, rebuilt@, k as nat, sum),
            decreases count - k,
        {
            let ghost before = sum;
            let diff = (self.calc)(Op::Sub, row[k], rebuilt[k]);
            let square = (self.calc)(Op::Mul, diff, diff);
            sum = (self.calc)(Op::Add, sum, square);
            proof {
                let next = (k + 1) as nat;
                assert(self.is_squared_error_sum(row@, rebuilt@, (next - 1) as nat, before));
                assert(self.adds_square_via(
                    before,
                    row@[next - 1],
                    rebuilt@[next - 1],
                    diff,
                    square,
                    sum,
                ));
                assert(self.is_squared_error_sum(row@, rebuilt@, next, sum));
            }
            k += 1;
        }
        let number = (self.from_count)(count);
        let error = (self.calc)(Op::Div, sum, number);
        assert(self.is_mean_squared_error_via(row@, rebuilt@, sum, number, error));
        error
    }
}

} // verus!
