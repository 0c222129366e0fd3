use ml_service::app::AppState;
use ml_service::arithmetic::Arithmetic;
use ml_service::arithmetic::Op;
use ml_service::error::PredictError;
use ml_service::matrix::Matrix;
use ml_service::pool::SessionPool;
use ml_service::predict::get_outputs;
use ml_service::predict::predict;
use ml_service::predict::score_outputs;
use ml_service::predict::PredictRequest;
use ml_service::predict::PredictResponse;
use ml_service::scaler::ScalerTable;

/// A stand-in for a model session: what it adds to every cell, or a failure.
enum Model {
    Shift(f32),
    Broken,
    Truncating,
}

fn run(model: &Model, input: &Matrix<f32>) -> Option<Vec<f32>> {
    match model {
        Model::Shift(by) => Some(input.as_flat().iter().map(|x| x + by).collect()),
        Model::Broken => None,
        Model::Truncating => Some(input.as_flat()[1..].to_vec()),
    }
}

fn calc(op: Op, a: f32, b: f32) -> f32 {
    match op {
        Op::Add => a + b,
        Op::Sub => a - b,
        Op::Mul => a * b,
        Op::Div => a / b,
    }
}

fn is_zero(x: f32) -> bool {
    x == 0.0
}

fn from_count(n: usize) -> f32 {
    n as f32
}

type Floats = Arithmetic<f32, fn(Op, f32, f32) -> f32, fn(f32) -> bool, fn(usize) -> f32>;

fn floats() -> Floats {
    Arithmetic {
        calc,
        is_zero,
        from_count,
        zero: 0.0,
        one: 1.0,
    }
}

fn state(models: Vec<Model>) -> AppState<Model, f32> {
    AppState {
        pool: SessionPool::new(models).unwrap(),
        scaler: ScalerTable::new(vec![0.0, 10.0], vec![2.0, 20.0]).unwrap(),
    }
}

fn request(rows: Vec<Vec<f32>>) -> PredictRequest<f32> {
    PredictRequest { input_values: rows }
}

#[test]
fn an_identity_model_reconstructs_without_error() {
    let state = state(vec![Model::Shift(0.0)]);
    let payload = request(vec![vec![1.0, 12.0], vec![0.5, 19.0], vec![2.0, 10.0]]);
    let response = predict(&state, &payload, &floats(), run).unwrap();
    assert_eq!(response.reconstruction_errors, vec![0.0, 0.0, 0.0]);
}

#[test]
fn a_batch_of_one_gets_one_error() {
    let state = state(vec![Model::Shift(0.5)]);
    let payload = request(vec![vec![1.0, 15.0]]);
    let response = predict(&state, &payload, &floats(), run).unwrap();
    assert_eq!(response.reconstruction_errors, vec![0.25]);
}

#[test]
fn every_row_gets_its_own_error() {
    let state = state(vec![Model::Shift(2.0)]);
    let payload = request(vec![vec![1.0, 15.0]; 7]);
    let response = predict(&state, &payload, &floats(), run).unwrap();
    assert_eq!(response.reconstruction_errors, vec![4.0; 7]);
}

#[test]
fn requests_go_round_the_sessions() {
    let state = state(vec![Model::Shift(0.0), Model::Shift(1.0), Model::Shift(2.0)]);
    let payload = request(vec![vec![1.0, 15.0]]);
    let mut seen = Vec::new();
    for _ in 0..6 {
        let response = predict(&state, &payload, &floats(), run).unwrap();
        seen.push(response.reconstruction_errors[0]);
    }
    assert_eq!(seen, vec![0.0, 1.0, 4.0, 0.0, 1.0, 4.0]);
}

#[test]
fn a_row_of_the_wrong_width_is_rejected() {
    let state = state(vec![Model::Shift(0.0)]);
    let short = request(vec![vec![1.0, 15.0], vec![1.0]]);
    assert_eq!(
        predict(&state, &short, &floats(), run).err(),
        Some(PredictError::ShapeMismatch)
    );
    let long = request(vec![vec![1.0, 15.0, 3.0]]);
    assert_eq!(
        predict(&state, &long, &floats(), run).err(),
        Some(PredictError::ShapeMismatch)
    );
}

#[test]
fn an_empty_batch_is_rejected() {
    let state = state(vec![Model::Shift(0.0)]);
    let empty = request(Vec::new());
    assert_eq!(
        predict(&state, &empty, &floats(), run).err(),
        Some(PredictError::ShapeMismatch)
    );
}

#[test]
fn a_rejected_request_draws_no_ticket() {
    let state = state(vec![Model::Shift(0.0), Model::Shift(1.0)]);
    assert!(predict(&state, &request(Vec::new()), &floats(), run).is_err());
    let (index, _) = state.pool.checkout();
    assert_eq!(index, 0);
}

#[test]
fn a_failed_inference_degrades_to_zero() {
    let state = state(vec![Model::Broken]);
    let payload = request(vec![vec![1.0, 15.0], vec![2.0, 11.0], vec![0.0, 20.0]]);
    let response = predict(&state, &payload, &floats(), run).unwrap();
    assert_eq!(response.reconstruction_errors, vec![0.0, 0.0, 0.0]);
}

#[test]
fn an_output_of_the_wrong_size_degrades_to_zero() {
    let state = state(vec![Model::Truncating]);
    let payload = request(vec![vec![1.0, 15.0], vec![2.0, 11.0]]);
    let response = predict(&state, &payload, &floats(), run).unwrap();
    assert_eq!(response.reconstruction_errors, vec![0.0, 0.0]);
}

#[test]
fn outputs_come_with_their_errors() {
    let input = Matrix::from_rows(&vec![vec![0.5, 0.5], vec![1.0, 0.0]], 2).unwrap();
    let (errors, output) =
        get_outputs(&Model::Shift(1.0), &input, &floats(), run).unwrap();
    assert_eq!(output, vec![1.5, 1.5, 2.0, 1.0]);
    assert_eq!(errors, vec![1.0, 1.0]);
    assert_eq!(
        get_outputs(&Model::Broken, &input, &floats(), run).err(),
        Some(PredictError::InferenceFailed)
    );
    assert_eq!(
        get_outputs(&Model::Truncating, &input, &floats(), run).err(),
        Some(PredictError::ShapeMismatch)
    );
    assert_eq!(PredictError::InferenceFailed.message(), "Inference failed");
}

#[test]
fn scoring_tells_a_failed_run_from_a_misshapen_output() {
    let input = Matrix::from_shape_vec(1, 2, vec![1.0, 2.0]).unwrap();
    assert_eq!(
        score_outputs(&input, None, &floats()).err(),
        Some(PredictError::InferenceFailed)
    );
    assert_eq!(
        score_outputs(&input, Some(vec![1.0]), &floats()).err(),
        Some(PredictError::ShapeMismatch)
    );
    let (errors, output) =
        score_outputs(&input, Some(vec![1.0, 4.0]), &floats()).unwrap();
    assert_eq!(errors, vec![2.0]);
    assert_eq!(output, vec![1.0, 4.0]);
}

#[test]
fn responses_keep_the_errors_or_fall_back_to_zeros() {
    let kept = PredictResponse::from_outcome(Ok((vec![0.5, 0.25], vec![1.0; 4])), 2, 0.0);
    assert_eq!(kept.reconstruction_errors, vec![0.5, 0.25]);
    let failed: PredictResponse<f32> =
        PredictResponse::from_outcome(Err(PredictError::InferenceFailed), 3, 0.0);
    assert_eq!(failed.reconstruction_errors, vec![0.0; 3]);
    let misshapen: PredictResponse<f32> =
        PredictResponse::from_outcome(Err(PredictError::ShapeMismatch), 1, 0.0);
    assert_eq!(misshapen.reconstruction_errors, vec![0.0]);
}

#[test]
fn matrices_are_laid_out_row_by_row() {
    let table = Matrix::from_rows(&vec![vec![1, 2, 3], vec![4, 5, 6]], 3).unwrap();
    assert_eq!(table.nrows(), 2);
    assert_eq!(table.ncols(), 3);
    assert_eq!(table.as_flat(), &vec![1, 2, 3, 4, 5, 6]);
    assert_eq!(table.row(0), &[1, 2, 3]);
    assert_eq!(table.row(1), &[4, 5, 6]);
    assert_eq!(*table.get(1, 0), 4);
    assert_eq!(*table.get(0, 2), 3);
}

#[test]
fn matrices_reject_ragged_and_empty_input() {
    assert_eq!(
        Matrix::from_rows(&vec![vec![1, 2], vec![3]], 2).err(),
        Some(PredictError::ShapeMismatch)
    );
    assert_eq!(
        Matrix::from_rows(&vec![vec![1, 2]], 3).err(),
        Some(PredictError::ShapeMismatch)
    );
    let empty: Vec<Vec<u8>> = Vec::new();
    assert_eq!(
        Matrix::from_rows(&empty, 0).err(),
        Some(PredictError::ShapeMismatch)
    );
    assert_eq!(
        Matrix::from_shape_vec(2, 3, vec![0u8; 5]).err(),
        Some(PredictError::ShapeMismatch)
    );
    assert_eq!(
        Matrix::from_shape_vec(usize::MAX, 2, vec![0u8; 2]).err(),
        Some(PredictError::ShapeMismatch)
    );
    assert!(Matrix::from_shape_vec(0, 3, Vec::<u8>::new()).is_ok());
}

#[test]
fn a_failed_request_is_filled_with_the_zero_of_its_numbers() {
    let state = AppState {
        pool: SessionPool::new(vec![Model::Broken]).unwrap(),
        scaler: ScalerTable::new(vec![0.0], vec![1.0]).unwrap(),
    };
    let mut numbers = floats();
    numbers.zero = -0.0;
    let payload = request(vec![vec![0.5], vec![0.25]]);
    let response = predict(&state, &payload, &numbers, run).unwrap();
    assert_eq!(response.reconstruction_errors.len(), 2);
    assert!(response
        .reconstruction_errors
        .iter()
        .all(|e| *e == 0.0 && e.is_sign_negative()));
}

#[test]
fn errors_of_ordinary_inputs_are_finite_and_not_negative() {
    let state = state(vec![Model::Shift(-0.75), Model::Shift(3.0)]);
    let payload = request(vec![vec![-5.0, 100.0], vec![0.0, 10.0], vec![2.0, 20.0]]);
    for _ in 0..2 {
        let response = predict(&state, &payload, &floats(), run).unwrap();
        assert_eq!(response.reconstruction_errors.len(), 3);
        for error in response.reconstruction_errors {
            assert!(error.is_finite());
            assert!(error >= 0.0);
        }
    }
}
