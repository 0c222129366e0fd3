//! The prediction pipeline: scaling, inference, scoring, and the response.
//!
//! Within one request, scaling strictly precedes inference, which strictly
//! precedes scoring. The model itself is outside the library: it is the
//! closure `infer`, which gets the chosen session and the scaled batch and
//! returns the reconstruction as a row-major buffer, or `None` where the
//! runtime failed.

use crate::app::AppState;
use crate::arithmetic::Arithmetic;
use crate::arithmetic::Op;
use crate::error::PredictError;
use crate::matrix::is_rectangular;
use crate::matrix::lemma_cell_position;
use crate::matrix::rows_of;
use crate::matrix::Matrix;
use crate::scaler::ScalerTable;
use vstd::prelude::*;

verus! {

/// Body of a prediction request: a batch of feature vectors, one per row.
pub struct PredictRequest<T> {
    pub input_values: Vec<Vec<T>>,
}

/// Body of a prediction response: one reconstruction error per row of the
/// request.
pub struct PredictResponse<T> {
    pub reconstruction_errors: Vec<T>,
}

/// `divisors` holds, for every feature, what its cells are divided by: the
/// feature's range, or one where the range is zero.
pub open spec fn are_divisors<T: Copy, A: Fn(Op, T, T) -> T, Z: Fn(T) -> bool, C: Fn(usize) -> T>(
    numbers: Arithmetic<T, A, Z, C>,
    lower: Seq<T>,
    upper: Seq<T>,
    divisors: Seq<T>,
) -> bool {
    &&& divisors.len() == lower.len()
    &&& forall|j: int|
        0 <= j < lower.len() ==> numbers.is_divisor(lower[j], upper[j], #[trigger] divisors[j])
}

/// `scaled` has the shape of `raw`, and its cell `(i, j)` is the raw cell
/// `(i, j)` less the minimum of feature `j`, divided by `divisors[j]`.
pub open spec fn is_scaled_by<T: Copy, A: Fn(Op, T, T) -> T, Z: Fn(T) -> bool, C: Fn(usize) -> T>(
    numbers: Arithmetic<T, A, Z, C>,
    raw: Seq<Seq<T>>,
    lower: Seq<T>,
    upper: Seq<T>,
    divisors: Seq<T>,
    scaled: Seq<Seq<T>>,
) -> bool {
    &&& are_divisors(numbers, lower, upper, divisors)
    &&& scaled.len() == raw.len()
    &&& is_rectangular(scaled, lower.len())
    &&& forall|i: int, j: int|
        0 <= i < raw.len() && 0 <= j < lower.len() ==> numbers.is_scaled(
            raw[i][j],
            lower[j],
            divisors[j],
            #[trigger] scaled[i][j],
        )
}

/// `scaled` is `raw`, min-max scaled against the bounds `lower` and `upper`:
///
/// ```text
/// range_j      = upper_j - lower_j
/// scaled[i, j] = (raw[i, j] - lower_j) / (range_j if range_j != 0 else 1)
/// ```
///
/// The divisor of a feature is worked out once and shared by its column.
pub open spec fn is_scaled<T: Copy, A: Fn(Op, T, T) -> T, Z: Fn(T) -> bool, C: Fn(usize) -> T>(
    numbers: Arithmetic<T, A, Z, C>,
    raw: Seq<Seq<T>>,
    lower: Seq<T>,
    upper: Seq<T>,
    scaled: Seq<Seq<T>>,
) -> bool {
    exists|divisors: Seq<T>| is_scaled_by(numbers, raw, lower, upper, divisors, scaled)
}

/// Row `i` of the table that the row-major buffer `output` lays out in rows of
/// `width` cells.
pub open spec fn output_row<T>(output: Seq<T>, width: nat, i: int) -> Seq<T> {
    output.subrange(i * width, (i + 1) * width)
}

/// `errors` holds one error per row of `input`, the `i`-th being the mean
/// squared error of row `i` of `input` against row `i` of `output`:
///
/// ```text
/// errors[i] = (sum over j of (input[i, j] - output[i, j])^2) / width
/// ```
pub open spec fn is_mse<T: Copy, A: Fn(Op, T, T) -> T, Z: Fn(T) -> bool, C: Fn(usize) -> T>(
    numbers: Arithmetic<T, A, Z, C>,
    input: Seq<Seq<T>>,
    output: Seq<T>,
    width: nat,
    errors: Seq<T>,
) -> bool {
    &&& errors.len() == input.len()
    &&& forall|i: int|
        0 <= i < input.len() ==> numbers.is_mean_squared_error(
            input[i],
            output_row(output, width, i),
            #[trigger] errors[i],
        )
}

/// A model that returns its input unchanged has every row scored against
/// itself: where the output of the scaled batch `scaled` is its own buffer,
/// error `i` is the mean squared error of row `i` against row `i`.
pub proof fn lemma_identity_model_scores_rows_against_themselves<
    T: Copy,
    A: Fn(Op, T, T) -> T,
    Z: Fn(T) -> bool,
    C: Fn(usize) -> T,
>(numbers: Arithmetic<T, A, Z, C>, scaled: Matrix<T>, errors: Seq<T>)
    requires
        scaled.well_formed(),
        is_mse(numbers, scaled@, scaled.flat(), scaled.width(), errors),
    ensures
        errors.len() == scaled.height(),
        forall|i: int|
            0 <= i < scaled.height() ==> numbers.is_mean_squared_error(
                scaled@[i],
                scaled@[i],
                #[trigger] errors[i],
            ),
{
    assert forall|i: int| 0 <= i < scaled.height() implies numbers.is_mean_squared_error(
        scaled@[i],
        scaled@[i],
        #[trigger] errors[i],
    ) by {
        assert(output_row(scaled.flat(), scaled.width(), i) == scaled@[i]);
    }
}

/// An exact identity model has reconstruction error zero on every row.
///
/// This holds of an arithmetic in which `x - x` is zero for every cell `x` of
/// the scaled batch, `0 * 0` and `0 + 0` are zero, and zero divided by the
/// number of features is zero.
pub proof fn lemma_identity_model_has_no_error<
    T: Copy,
    A: Fn(Op, T, T) -> T,
    Z: Fn(T) -> bool,
    C: Fn(usize) -> T,
>(numbers: Arithmetic<T, A, Z, C>, scaled: Matrix<T>, errors: Seq<T>)
    requires
        scaled.well_formed(),
        is_mse(numbers, scaled@, scaled.flat(), scaled.width(), errors),
        forall|i: int, j: int, diff: T|
            0 <= i < scaled.height() && 0 <= j < scaled.width() && #[trigger] numbers.computes(
                Op::Sub,
                scaled@[i][j],
                scaled@[i][j],
                diff,
            ) ==> diff == numbers.zero,
        forall|square: T| #[trigger]
            numbers.computes(Op::Mul, numbers.zero, numbers.zero, square) ==> square
                == numbers.zero,
        forall|sum: T| #[trigger]
            numbers.computes(Op::Add, numbers.zero, numbers.zero, sum) ==> sum == numbers.zero,
        forall|number: T, quotient: T|
            numbers.counts(scaled.width() as usize, number) && #[trigger] numbers.computes(
                Op::Div,
                numbers.zero,
                number,
                quotient,
            ) ==> quotient == numbers.zero,
    ensures
        errors.len() == scaled.height(),
        forall|i: int| 0 <= i < scaled.height() ==> #[trigger] errors[i] == numbers.zero,
{
    lemma_identity_model_scores_rows_against_themselves(numbers, scaled, errors);
    assert forall|i: int| 0 <= i < scaled.height() implies #[trigger] errors[i]
        == numbers.zero by {
        let row = scaled@[i];
        assert(row.len() == scaled.width());
        assert(numbers.is_mean_squared_error(row, row, errors[i]));
        numbers.lemma_same_rows_have_no_error(row, errors[i]);
    }
}

/// Scaler constancy: in a column whose bounds are both `c`, the scaled value
/// of a cell `x` is `x - c`.
///
/// This holds of an arithmetic in which `c - c` tests as zero and dividing
/// `x - c` by one leaves it as it is.
pub proof fn lemma_constant_column_scales_to_offset<
    T: Copy,
    A: Fn(Op, T, T) -> T,
    Z: Fn(T) -> bool,
    C: Fn(usize) -> T,
>(
    numbers: Arithmetic<T, A, Z, C>,
    raw: Seq<Seq<T>>,
    lower: Seq<T>,
    upper: Seq<T>,
    scaled: Seq<Seq<T>>,
    i: int,
    j: int,
)
    requires
        is_scaled(numbers, raw, lower, upper, scaled),
        0 <= i < raw.len(),
        0 <= j < lower.len(),
        lower[j] == upper[j],
        forall|range: T, degenerate: bool|
            numbers.computes(Op::Sub, lower[j], lower[j], range) && #[trigger] numbers.tests_zero(
                range,
                degenerate,
            ) ==> degenerate,
        forall|offset: T, quotient: T|
            numbers.computes(Op::Sub, raw[i][j], lower[j], offset) && #[trigger] numbers.computes(
                Op::Div,
                offset,
                numbers.one,
                quotient,
            ) ==> quotient == offset,
    ensures
        numbers.computes(Op::Sub, raw[i][j], lower[j], scaled[i][j]),
{
    let divisors = choose|divisors: Seq<T>|
        is_scaled_by(numbers, raw, lower, upper, divisors, scaled);
    assert(is_scaled_by(numbers, raw, lower, upper, divisors, scaled));
    assert(numbers.is_divisor(lower[j], upper[j], divisors[j]));
    assert(numbers.is_scaled(raw[i][j], lower[j], divisors[j], scaled[i][j]));
    numbers.lemma_constant_feature_scales_to_offset(
        raw[i][j],
        lower[j],
        divisors[j],
        scaled[i][j],
    );
}

/// With every minimum zero and every maximum one, scaling is the identity.
///
/// This holds of an arithmetic in which `1 - 0` is one, one does not test as
/// zero, and `x - 0` and `x / 1` are `x` for every cell `x` of the batch.
pub proof fn lemma_unit_bounds_scale_to_identity<
    T: Copy,
    A: Fn(Op, T, T) -> T,
    Z: Fn(T) -> bool,
    C: Fn(usize) -> T,
>(numbers: Arithmetic<T, A, Z, C>, raw: Seq<Seq<T>>, lower: Seq<T>, upper: Seq<T>, scaled: Seq<Seq<T>>)
    requires
        is_rectangular(raw, lower.len()),
        lower.len() == upper.len(),
        forall|j: int| 0 <= j < lower.len() ==> lower[j] == numbers.zero && upper[j] == numbers.one,
        is_scaled(numbers, raw, lower, upper, scaled),
        forall|range: T| #[trigger]
            numbers.computes(Op::Sub, numbers.one, numbers.zero, range) ==> range == numbers.one,
        forall|degenerate: bool| #[trigger]
            numbers.tests_zero(numbers.one, degenerate) ==> !degenerate,
        forall|i: int, j: int, offset: T|
            0 <= i < raw.len() && 0 <= j < lower.len() && #[trigger] numbers.computes(
                Op::Sub,
                raw[i][j],
                numbers.zero,
                offset,
            ) ==> offset == raw[i][j],
        forall|i: int, j: int, quotient: T|
            0 <= i < raw.len() && 0 <= j < lower.len() && #[trigger] numbers.computes(
                Op::Div,
                raw[i][j],
                numbers.one,
                quotient,
            ) ==> quotient == raw[i][j],
    ensures
        scaled == raw,
{
    let divisors = choose|divisors: Seq<T>|
        is_scaled_by(numbers, raw, lower, upper, divisors, scaled);
    assert(is_scaled_by(numbers, raw, lower, upper, divisors, scaled));
    assert forall|i: int| 0 <= i < raw.len() implies scaled[i] =~= raw[i] by {
        assert(scaled[i].len() == lower.len());
        assert(raw[i].len() == lower.len());
        assert forall|j: int| 0 <= j < lower.len() implies scaled[i][j] == raw[i][j] by {
            assert(numbers.is_divisor(lower[j], upper[j], divisors[j]));
            assert(numbers.is_scaled(raw[i][j], lower[j], divisors[j], scaled[i][j]));
            numbers.lemma_unit_range_scales_to_itself(raw[i][j], divisors[j], scaled[i][j]);
        }
    }
    assert(scaled =~= raw);
}

/// The divisor of every feature of the table, in feature order.
pub fn feature_divisors<T: Copy, A: Fn(Op, T, T) -> T, Z: Fn(T) -> bool, C: Fn(usize) -> T>(
    scaler: &ScalerTable<T>,
    numbers: &Arithmetic<T, A, Z, C>,
) -> (divisors: Vec<T>)
    requires
        numbers.total(),
    ensures
        are_divisors(*numbers, scaler.lower(), scaler.upper(), divisors@),
{
    let width = scaler.features();
    let mut divisors: Vec<T> = Vec::new();
    let mut j: usize = 0;
    while j < width
        invariant
            0 <= j <= width,
            width == scaler.lower().len(),
            width == scaler.upper().len(),
            numbers.total(),
            divisors@.len() == j,
            forall|c: int|
                0 <= c < j ==> numbers.is_divisor(
                    scaler.lower()[c],
                    scaler.upper()[c],
                    #[trigger] divisors@[c],
                ),
        decreases width - j,
    {
        let ghost before = divisors@;
        let divisor = numbers.divisor(*scaler.min(j), *scaler.max(j));
        divisors.push(divisor);
        proof {
            assert forall|c: int| 0 <= c < j + 1 implies numbers.is_divisor(
                scaler.lower()[c],
                scaler.upper()[c],
                #[trigger] divisors@[c],
            ) by {
                if c < j {
                    assert(divisors@[c] == before[c]);
                }
            }
        }
        j += 1;
    }
    divisors
}

/// Min-max scales a batch against the scaler table.
///
/// The batch must have at least one row, and every row exactly one cell per
/// feature of the table; anything else is a shape error. A feature whose
/// range is zero is divided by one, so that its scaled value is the raw value
/// less the minimum.
pub fn scale_input_values<T: Copy, A: Fn(Op, T, T) -> T, Z: Fn(T) -> bool, C: Fn(usize) -> T>(
    input_values: &Vec<Vec<T>>,
    scaler: &ScalerTable<T>,
    numbers: &Arithmetic<T, A, Z, C>,
) -> (scaled: Result<Matrix<T>, PredictError>)
    requires
        numbers.total(),
    ensures
        scaled is Ok <==> input_values@.len() >= 1 && is_rectangular(
            rows_of(input_values@),
            scaler.lower().len(),
        ),
        scaled matches Ok(table) ==> {
            &&& is_scaled(*numbers, rows_of(input_values@), scaler.lower(), scaler.upper(), table@)
            &&& table.height() == input_values@.len()
            &&& table.width() == scaler.lower().len()
            &&& table.well_formed()
        },
        scaled matches Err(e) ==> e == PredictError::ShapeMismatch,
{
    let width = scaler.features();
    let raw = match Matrix::from_rows(input_values, width) {
        Ok(raw) => raw,
        Err(e) => {
            return Err(e);
        },
    };
    let height = raw.nrows();
    let divisors = feature_divisors(scaler, numbers);
    let ghost rows = rows_of(input_values@);
    let ghost lower = scaler.lower();
    let mut cells: Vec<T> = Vec::new();
    let mut i: usize = 0;
    while i < height
        invariant
            0 <= i <= height,
            height == raw.height(),
            width == raw.width(),
            raw@ == rows,
            lower == scaler.lower(),
            lower.len() == width,
            divisors@.len() == width,
            numbers.total(),
            cells@.len() == i * width,
            forall|r: int, c: int|
                0 <= r < i && 0 <= c < width ==> numbers.is_scaled(
                    rows[r][c],
                    lower[c],
                    divisors@[c],
                    #[trigger] cells@[r * width + c],
                ),
        decreases height - i,
    {
        let mut j: usize = 0;
        while j < width
            invariant
                0 <= i < height,
                0 <= j <= width,
                height == raw.height(),
                width == raw.width(),
                raw@ == rows,
                lower == scaler.lower(),
                lower.len() == width,
                divisors@.len() == width,
                numbers.total(),
                cells@.len() == i * width + j,
                forall|r: int, c: int|
                    0 <= r < i && 0 <= c < width ==> numbers.is_scaled(
                        rows[r][c],
                        lower[c],
                        divisors@[c],
                        #[trigger] cells@[r * width + c],
                    ),
                forall|c: int|
                    0 <= c < j ==> numbers.is_scaled(
                        rows[i as int][c],
                        lower[c],
                        divisors@[c],
                        #[trigger] cells@[i * width + c],
                    ),
            decreases width - j,
        {
            let ghost before = cells@;
            let cell = numbers.scale(*raw.get(i, j), *scaler.min(j), divisors[j]);
            cells.push(cell);
            proof {
                assert forall|r: int, c: int| 0 <= r < i && 0 <= c < width implies numbers.is_scaled(
                    rows[r][c],
                    lower[c],
                    divisors@[c],
                    #[trigger] cells@[r * width + c],
                ) by {
                    lemma_cell_position(r, c, i as int, width as int);
                    assert(cells@[r * width + c] == before[r * width + c]);
                }
                assert forall|c: int| 0 <= c < j + 1 implies numbers.is_scaled(
                    rows[i as int][c],
                    lower[c],
                    divisors@[c],
                    #[trigger] cells@[i * width + c],
                ) by {
                    if c < j {
                        assert(cells@[i * width + c] == before[i * width + c]);
                    }
                }
            }
            j += 1;
        }
        proof {
            assert((i + 1) * width == i * width + width) by (nonlinear_arith);
            assert forall|r: int, c: int| 0 <= r < i + 1 && 0 <= c < width implies numbers.is_scaled(
                rows[r][c],
                lower[c],
                divisors@[c],
                #[trigger] cells@[r * width + c],
            ) by {
                if r == i {
                    assert(numbers.is_scaled(
                        rows[i as int][c],
                        lower[c],
                        divisors@[c],
                        cells@[i * width + c],
                    ));
                }
            }
        }
        i += 1;
    }
    let ghost flat = cells@;
    match Matrix::from_shape_vec(height, width, cells) {
        Ok(table) => {
            proof {
                assert forall|r: int, c: int|
                    0 <= r < rows.len() && 0 <= c < lower.len() implies numbers.is_scaled(
                    rows[r][c],
                    lower[c],
                    divisors@[c],
                    #[trigger] table@[r][c],
                ) by {
                    lemma_cell_position(r, c, height as int, width as int);
                    assert(table@[r][c] == flat[r * width + c]);
                }
                assert(is_scaled_by(
                    *numbers,
                    rows,
                    scaler.lower(),
                    scaler.upper(),
                    divisors@,
                    table@,
                ));
            }
            Ok(table)
        },
        Err(e) => Err(e),
    }
}

/// Scores every row of a scaled batch against the model's reconstruction by
/// their mean squared error.
///
/// `output` is the reconstruction as a row-major buffer; it must hold exactly
/// one cell per cell of `input`, anything else is a shape error.
pub fn compute_mse<T: Copy, A: Fn(Op, T, T) -> T, Z: Fn(T) -> bool, C: Fn(usize) -> T>(
    input: &Matrix<T>,
    output: &[T],
    numbers: &Arithmetic<T, A, Z, C>,
) -> (mse: Result<Vec<T>, PredictError>)
    requires
        numbers.total(),
    ensures
        mse is Ok <==> output@.len() == input.height() * input.width(),
        mse matches Ok(errors) ==> is_mse(*numbers, input@, output@, input.width(), errors@),
        mse matches Err(e) ==> e == PredictError::ShapeMismatch,
{
    let height = input.nrows();
    let width = input.ncols();
    let held = input.as_flat().len();
    if output.len() != held {
        return Err(PredictError::ShapeMismatch);
    }
    let mut errors: Vec<T> = Vec::new();
    let mut i: usize = 0;
    while i < height
        invariant
            0 <= i <= height,
            height == input.height(),
            width == input.width(),
            input.well_formed(),
            output@.len() == held,
            held == height * width,
            errors@.len() == i,
            numbers.total(),
            forall|r: int|
                0 <= r < i ==> numbers.is_mean_squared_error(
                    input@[r],
                    output_row(output@, width as nat, r),
                    #[trigger] errors@[r],
                ),
        decreases height - i,
    {
        proof {
            if width > 0 {
                lemma_cell_position(i as int, 0, height as int, width as int);
            } else {
                assert(i * width == 0 && (i + 1) * width == 0 && i * width + width == 0)
                    by (nonlinear_arith)
                    requires
                        width == 0,
                ;
            }
        }
        let row = input.row(i);
        let start = i * width;
        let rebuilt = &output[start..start + width];
        let ghost before = errors@;
        let error = numbers.mean_squared_error(row, rebuilt);
        errors.push(error);
        proof {
            assert(rebuilt@ == output_row(output@, width as nat, i as int));
            assert forall|r: int| 0 <= r < i + 1 implies numbers.is_mean_squared_error(
                input@[r],
                output_row(output@, width as nat, r),
                #[trigger] errors@[r],
            ) by {
                if r < i {
                    assert(errors@[r] == before[r]);
                }
            }
        }
        i += 1;
    }
    Ok(errors)
}

/// What [`get_outputs`] returns once inference has come back with `inferred`:
/// the model's output buffer, or `None` where the runtime failed.
///
/// A runtime failure is an inference error. An output of the wrong size is a
/// shape error. Otherwise the result is the row errors together with the
/// output itself.
pub fn score_outputs<T: Copy, A: Fn(Op, T, T) -> T, Z: Fn(T) -> bool, C: Fn(usize) -> T>(
    input: &Matrix<T>,
    inferred: Option<Vec<T>>,
    numbers: &Arithmetic<T, A, Z, C>,
) -> (outputs: Result<(Vec<T>, Vec<T>), PredictError>)
    requires
        numbers.total(),
    ensures
        outputs is Ok <==> (inferred matches Some(output) && output@.len() == input.height()
            * input.width()),
        outputs matches Ok(pair) ==> {
            &&& inferred == Some(pair.1)
            &&& is_mse(*numbers, input@, pair.1@, input.width(), pair.0@)
        },
        outputs matches Err(e) ==> (e == PredictError::InferenceFailed <==> inferred is None),
        outputs matches Err(e) ==> (e == PredictError::ShapeMismatch <==> inferred is Some),
{
    match inferred {
        None => Err(PredictError::InferenceFailed),
        Some(output) => {
            match compute_mse(input, output.as_slice(), numbers) {
                Ok(errors) => Ok((errors, output)),
                Err(e) => Err(e),
            }
        },
    }
}

/// Runs the model held by `session` on the scaled batch `input` and scores
/// its reconstruction: calls `infer` once, then [`score_outputs`] on what it
/// returned.
pub fn get_outputs<
    S,
    T: Copy,
    A: Fn(Op, T, T) -> T,
    Z: Fn(T) -> bool,
    C: Fn(usize) -> T,
    M: Fn(&S, &Matrix<T>) -> Option<Vec<T>>,
>(session: &S, input: &Matrix<T>, numbers: &Arithmetic<T, A, Z, C>, infer: M) -> (outputs: Result<
    (Vec<T>, Vec<T>),
    PredictError,
>)
    requires
        numbers.total(),
        call_requires(infer, (session, input)),
    ensures
        outputs matches Ok(pair) ==> {
            &&& call_ensures(infer, (session, input), Some(pair.1))
            &&& pair.1@.len() == input.height() * input.width()
            &&& is_mse(*numbers, input@, pair.1@, input.width(), pair.0@)
        },
        outputs matches Err(e) ==> {
            ||| e == PredictError::InferenceFailed && call_ensures(
                infer,
                (session, input),
                None::<Vec<T>>,
            )
            ||| e == PredictError::ShapeMismatch && exists|output: Vec<T>|
                output@.len() != input.height() * input.width() && call_ensures(
                    infer,
                    (session, input),
                    Some(output),
                )
        },
{
    let inferred = infer(session, input);
    score_outputs(input, inferred, numbers)
}

/// The errors that a request of `batch` rows is answered with, given how
/// inference and scoring ended: the row errors where they succeeded, and
/// `batch` times `zero` where they failed.
pub open spec fn response_errors<T>(
    outcome: Result<(Vec<T>, Vec<T>), PredictError>,
    batch: nat,
    zero: T,
) -> Seq<T> {
    match outcome {
        Ok(pair) => pair.0@,
        Err(_) => Seq::new(batch, |i: int| zero),
    }
}

impl<T: Copy> PredictResponse<T> {
    /// The response to a request of `batch` rows whose inference and scoring
    /// ended with `outcome`. A failure degrades to one `zero` per row.
    pub fn from_outcome(
        outcome: Result<(Vec<T>, Vec<T>), PredictError>,
        batch: usize,
        zero: T,
    ) -> (response: PredictResponse<T>)
        ensures
            response.reconstruction_errors@ == response_errors(outcome, batch as nat, zero),
            outcome is Err ==> response.reconstruction_errors@.len() == batch,
    {
        match outcome {
            Ok(pair) => PredictResponse { reconstruction_errors: pair.0 },
            Err(_) => {
                let mut zeros: Vec<T> = Vec::new();
                let mut i: usize = 0;
                while i < batch
                    invariant
                        0 <= i <= batch,
                        zeros@.len() == i,
                        forall|k: int| 0 <= k < i ==> zeros@[k] == zero,
                    decreases batch - i,
                {
                    zeros.push(zero);
                    i += 1;
                }
                assert(zeros@ =~= Seq::new(batch as nat, |i: int| zero));
                PredictResponse { reconstruction_errors: zeros }
            },
        }
    }
}

/// `errors` answers the batch `input_values` by way of the scaled batch
/// `scaled`, the session at `index` and the inference result `inferred`: the
/// mean squared errors where the model returned an output of the batch's
/// size, and one zero per row where it failed or returned anything else.
pub open spec fn is_served_via<
    S,
    T: Copy,
    A: Fn(Op, T, T) -> T,
    Z: Fn(T) -> bool,
    C: Fn(usize) -> T,
    M: Fn(&S, &Matrix<T>) -> Option<Vec<T>>,
>(
    state: AppState<S, T>,
    input_values: Seq<Seq<T>>,
    numbers: Arithmetic<T, A, Z, C>,
    infer: M,
    scaled: Matrix<T>,
    index: int,
    inferred: Option<Vec<T>>,
    errors: Seq<T>,
) -> bool {
    &&& is_scaled(numbers, input_values, state.scaler.lower(), state.scaler.upper(), scaled@)
    &&& scaled.well_formed()
    &&& scaled.height() == input_values.len()
    &&& scaled.width() == state.scaler.lower().len()
    &&& 0 <= index < state.pool@.len()
    &&& call_ensures(infer, (&state.pool@[index], &scaled), inferred)
    &&& match inferred {
        Some(output) => if output@.len() == scaled.height() * scaled.width() {
            is_mse(numbers, scaled@, output@, scaled.width(), errors)
        } else {
            errors == Seq::new(input_values.len(), |i: int| numbers.zero)
        },
        None => errors == Seq::new(input_values.len(), |i: int| numbers.zero),
    }
}

/// `errors` answers the batch `input_values`: the batch was scaled against
/// the scaler table, one session of the pool ran the model on the scaled
/// batch, and `errors` is what became of its result.
pub open spec fn is_served<
    S,
    T: Copy,
    A: Fn(Op, T, T) -> T,
    Z: Fn(T) -> bool,
    C: Fn(usize) -> T,
    M: Fn(&S, &Matrix<T>) -> Option<Vec<T>>,
>(
    state: AppState<S, T>,
    input_values: Seq<Seq<T>>,
    numbers: Arithmetic<T, A, Z, C>,
    infer: M,
    errors: Seq<T>,
) -> bool {
    exists|scaled: Matrix<T>, index: int, inferred: Option<Vec<T>>|
        is_served_via(state, input_values, numbers, infer, scaled, index, inferred, errors)
}

/// A request to an exact identity model is answered with zero for every row.
///
/// The model is an identity when whatever `infer` returns is the buffer of
/// the batch it was given. The law holds of an arithmetic in which `x - x` is
/// zero for every cell `x` of the scaled batch, `0 * 0` and `0 + 0` are zero,
/// and zero divided by the number of features is zero.
pub proof fn lemma_identity_model_is_served_without_error<
    S,
    T: Copy,
    A: Fn(Op, T, T) -> T,
    Z: Fn(T) -> bool,
    C: Fn(usize) -> T,
    M: Fn(&S, &Matrix<T>) -> Option<Vec<T>>,
>(
    state: AppState<S, T>,
    input_values: Seq<Seq<T>>,
    numbers: Arithmetic<T, A, Z, C>,
    infer: M,
    errors: Seq<T>,
)
    requires
        is_served(state, input_values, numbers, infer, errors),
        forall|session: &S, input: &Matrix<T>, inferred: Option<Vec<T>>| #[trigger]
            call_ensures(infer, (session, input), inferred) ==> (inferred matches Some(output)
                && output@ == input.flat()),
        forall|scaled: Matrix<T>, i: int, j: int, diff: T|
            #![trigger
                is_scaled(
                    numbers,
                    input_values,
                    state.scaler.lower(),
                    state.scaler.upper(),
                    scaled@,
                ),
                numbers.computes(Op::Sub, scaled@[i][j], scaled@[i][j], diff),
            ]
            is_scaled(numbers, input_values, state.scaler.lower(), state.scaler.upper(), scaled@)
                && 0 <= i < scaled.height() && 0 <= j < scaled.width() && numbers.computes(
                Op::Sub,
                scaled@[i][j],
                scaled@[i][j],
                diff,
            ) ==> diff == numbers.zero,
        forall|square: T| #[trigger]
            numbers.computes(Op::Mul, numbers.zero, numbers.zero, square) ==> square
                == numbers.zero,
        forall|sum: T| #[trigger]
            numbers.computes(Op::Add, numbers.zero, numbers.zero, sum) ==> sum == numbers.zero,
        forall|number: T, quotient: T|
            numbers.counts(state.scaler.lower().len() as usize, number) && #[trigger] numbers.computes(
                Op::Div,
                numbers.zero,
                number,
                quotient,
            ) ==> quotient == numbers.zero,
    ensures
        errors == Seq::new(input_values.len(), |i: int| numbers.zero),
{
    let (scaled, index, inferred) = choose|scaled: Matrix<T>, index: int, inferred: Option<Vec<T>>|
        is_served_via(state, input_values, numbers, infer, scaled, index, inferred, errors);
    assert(is_served_via(state, input_values, numbers, infer, scaled, index, inferred, errors));
    assert(call_ensures(infer, (&state.pool@[index], &scaled), inferred));
    let output = inferred->0;
    assert(output@ == scaled.flat());
    assert(is_mse(numbers, scaled@, scaled.flat(), scaled.width(), errors));
    lemma_identity_model_has_no_error(numbers, scaled, errors);
    assert(errors =~= Seq::new(input_values.len(), |i: int| numbers.zero));
}

/// Serves one prediction request.
///
/// The batch is scaled against the scaler table, handed to the session that
/// the pool's dispatcher picks, and every row is scored against the model's
/// reconstruction, in this order.
///
/// A batch that is empty or has a row that is not as wide as the scaler table
/// is rejected with a shape error, before a session is picked. Every other
/// request is answered with one error per row: the row's mean squared error
/// where inference succeeded, and zero for every row where the runtime failed
/// or returned an output of the wrong size.
pub fn predict<
    S,
    T: Copy,
    A: Fn(Op, T, T) -> T,
    Z: Fn(T) -> bool,
    C: Fn(usize) -> T,
    M: Fn(&S, &Matrix<T>) -> Option<Vec<T>>,
>(
    state: &AppState<S, T>,
    payload: &PredictRequest<T>,
    numbers: &Arithmetic<T, A, Z, C>,
    infer: M,
) -> (answer: Result<PredictResponse<T>, PredictError>)
    requires
        numbers.total(),
        forall|session: &S, input: &Matrix<T>| call_requires(infer, (session, input)),
    ensures
        answer is Ok <==> payload.input_values@.len() >= 1 && is_rectangular(
            rows_of(payload.input_values@),
            state.scaler.lower().len(),
        ),
        answer matches Ok(response) ==> {
            &&& response.reconstruction_errors@.len() == payload.input_values@.len()
            &&& is_served(
                *state,
                rows_of(payload.input_values@),
                *numbers,
                infer,
                response.reconstruction_errors@,
            )
        },
        answer matches Err(e) ==> e == PredictError::ShapeMismatch,
{
    let scaled = match scale_input_values(&payload.input_values, &state.scaler, numbers) {
        Ok(scaled) => scaled,
        Err(e) => {
            return Err(e);
        },
    };
    let (index, session) = state.pool.checkout();
    let outcome = get_outputs(session, &scaled, numbers, infer);
    let ghost seen = outcome;
    let response = PredictResponse::from_outcome(outcome, payload.input_values.len(), numbers.zero);
    proof {
        let inferred: Option<Vec<T>> = match seen {
            Ok(pair) => Some(pair.1),
            Err(PredictError::InferenceFailed) => None,
            Err(PredictError::ShapeMismatch) => Some(
                choose|output: Vec<T>|
                    output@.len() != scaled.height() * scaled.width() && call_ensures(
                        infer,
                        (session, &scaled),
                        Some(output),
                    ),
            ),
        };
        assert(is_served_via(
            *state,
            rows_of(payload.input_values@),
            *numbers,
            infer,
            scaled,
            index as int,
            inferred,
            response.reconstruction_errors@,
        ));
    }
    Ok(response)
}

} // verus!
