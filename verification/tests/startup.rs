use ml_service::app::create_app;
use ml_service::app::AppState;
use ml_service::error::ConfigError;
use ml_service::error::InitError;
use ml_service::error::StartupError;
use ml_service::health::healthcheck;
use ml_service::scaler::load_scaler_tensors;
use ml_service::scaler::parse_scaler_rows;
use ml_service::scaler::ScalerTable;

fn number(field: &str) -> Option<f32> {
    field.parse::<f32>().ok()
}

fn text(fields: &[&str]) -> Vec<String> {
    fields.iter().map(|f| f.to_string()).collect()
}

#[test]
fn health_is_available_every_time() {
    let first = healthcheck();
    let second = healthcheck();
    assert_eq!(first.status, "Available");
    assert_eq!(first.status, second.status);
}

#[test]
fn scaler_is_read_from_two_columns() {
    let csv = b"0.0,2.5\n33.15972,56.03299\n1.5,1.5\n";
    let table = load_scaler_tensors(csv, false, number).unwrap();
    assert_eq!(table.features(), 3);
    assert_eq!(table.min_values(), &vec![0.0, 33.15972, 1.5]);
    assert_eq!(table.max_values(), &vec![2.5, 56.03299, 1.5]);
    assert_eq!(*table.min(1), 33.15972);
    assert_eq!(*table.max(0), 2.5);
}

#[test]
fn scaler_header_is_skipped_only_when_asked() {
    let csv = b"min,max\n1.0,2.0\n3.0,4.0\n";
    let table = load_scaler_tensors(csv, true, number).unwrap();
    assert_eq!(table.min_values(), &vec![1.0, 3.0]);
    assert_eq!(table.max_values(), &vec![2.0, 4.0]);
    assert_eq!(
        load_scaler_tensors(csv, false, number).err(),
        Some(ConfigError::ScalerParse)
    );
    let plain = b"1.0,2.0\n3.0,4.0\n";
    let table = load_scaler_tensors(plain, true, number).unwrap();
    assert_eq!(table.min_values(), &vec![3.0]);
}

#[test]
fn scaler_ignores_further_columns_and_reads_quoted_fields() {
    let csv = b"\"1.0\",2.0,first\n3.0,\"4.0\",second\n";
    let table = load_scaler_tensors(csv, false, number).unwrap();
    assert_eq!(table.min_values(), &vec![1.0, 3.0]);
    assert_eq!(table.max_values(), &vec![2.0, 4.0]);
}

#[test]
fn scaler_accepts_a_maximum_below_its_minimum() {
    let table = load_scaler_tensors(b"5.0,1.0\n", false, number).unwrap();
    assert_eq!(table.min_values(), &vec![5.0]);
    assert_eq!(table.max_values(), &vec![1.0]);
}

#[test]
fn scaler_rejects_short_rows() {
    assert_eq!(
        load_scaler_tensors(b"1.0\n2.0\n", false, number).err(),
        Some(ConfigError::ScalerParse)
    );
}

#[test]
fn scaler_rejects_fields_that_are_no_numbers() {
    assert_eq!(
        load_scaler_tensors(b"1.0,2.0\nlow,4.0\n", false, number).err(),
        Some(ConfigError::ScalerParse)
    );
    assert_eq!(
        load_scaler_tensors(b"1.0,2.0\n3.0,\n", false, number).err(),
        Some(ConfigError::ScalerParse)
    );
    assert_eq!(
        load_scaler_tensors(b"1.0, 2.0\n", false, number).err(),
        Some(ConfigError::ScalerParse)
    );
}

#[test]
fn scaler_rejects_records_of_unequal_length() {
    assert_eq!(
        load_scaler_tensors(b"1.0,2.0\n3.0,4.0,5.0\n", false, number).err(),
        Some(ConfigError::ScalerParse)
    );
}

#[test]
fn scaler_rejects_text_that_is_not_utf8() {
    assert_eq!(
        load_scaler_tensors(b"1.0,2.0\n\xff\xfe,4.0\n", false, number).err(),
        Some(ConfigError::ScalerParse)
    );
}

#[test]
fn scaler_rejects_an_empty_file() {
    assert_eq!(
        load_scaler_tensors(b"", false, number).err(),
        Some(ConfigError::ScalerParse)
    );
    assert_eq!(
        load_scaler_tensors(b"min,max\n", true, number).err(),
        Some(ConfigError::ScalerParse)
    );
}

#[test]
fn scaler_rows_are_parsed_in_order() {
    let rows = vec![text(&["1", "2"]), text(&["3", "4", "x"])];
    let table = parse_scaler_rows(&rows, number).unwrap();
    assert_eq!(table.min_values(), &vec![1.0, 3.0]);
    assert_eq!(table.max_values(), &vec![2.0, 4.0]);
    let short = vec![text(&["1", "2"]), text(&["3"])];
    assert_eq!(
        parse_scaler_rows(&short, number).err(),
        Some(ConfigError::ScalerParse)
    );
    let none: Vec<Vec<String>> = Vec::new();
    assert_eq!(
        parse_scaler_rows(&none, number).err(),
        Some(ConfigError::ScalerParse)
    );
    assert_eq!(
        ConfigError::ScalerParse.message(),
        "Failed to parse the scaler table"
    );
}

#[test]
fn scaler_table_needs_paired_bounds() {
    assert!(ScalerTable::new(vec![1.0], vec![2.0]).is_ok());
    assert_eq!(
        ScalerTable::new(vec![1.0, 2.0], vec![2.0]).err(),
        Some(ConfigError::ScalerParse)
    );
    let none: Vec<f32> = Vec::new();
    assert_eq!(
        ScalerTable::new(none.clone(), none).err(),
        Some(ConfigError::ScalerParse)
    );
}

#[test]
fn startup_builds_the_pool_and_the_table() {
    let csv: &[u8] = b"0.0,1.0\n2.0,4.0\n";
    let state: AppState<usize, f32> =
        create_app(16, |i| Some((i, 2)), Some(csv), false, number).unwrap();
    assert_eq!(state.pool.len(), 16);
    assert_eq!(*state.pool.session(7), 7);
    assert_eq!(state.scaler.features(), 2);
    assert_eq!(state.scaler.max_values(), &vec![1.0, 4.0]);
}

#[test]
fn startup_fails_on_a_session_before_it_reads_the_table() {
    let app: Result<AppState<usize, f32>, StartupError> =
        create_app(16, |i| if i == 3 { None } else { Some((i, 2)) }, None, false, number);
    assert_eq!(app.err(), Some(StartupError::Init(InitError::ModelLoad)));
    assert_eq!(
        StartupError::Init(InitError::ModelLoad).message(),
        "Failed to load the model"
    );
}

#[test]
fn startup_fails_on_an_unreadable_or_malformed_table() {
    let unreadable: Result<AppState<usize, f32>, StartupError> =
        create_app(2, |i| Some((i, 1)), None, false, number);
    assert_eq!(
        unreadable.err(),
        Some(StartupError::Config(ConfigError::ScalerParse))
    );
    let csv: &[u8] = b"0.0\n";
    let malformed: Result<AppState<usize, f32>, StartupError> =
        create_app(2, |i| Some((i, 1)), Some(csv), false, number);
    assert_eq!(
        malformed.err(),
        Some(StartupError::Config(ConfigError::ScalerParse))
    );
    assert_eq!(
        StartupError::Config(ConfigError::ScalerParse).message(),
        "Failed to parse the scaler table"
    );
}

#[test]
fn startup_refuses_a_model_of_another_width_than_the_table() {
    let csv: &[u8] = b"0.0,1.0\n2.0,4.0\n5.0,6.0\n";
    let narrow: Result<AppState<usize, f32>, StartupError> =
        create_app(4, |i| Some((i, 2)), Some(csv), false, number);
    assert_eq!(narrow.err(), Some(StartupError::Init(InitError::InputWidth)));
    let wide: Result<AppState<usize, f32>, StartupError> =
        create_app(4, |i| Some((i, 52)), Some(csv), false, number);
    assert_eq!(wide.err(), Some(StartupError::Init(InitError::InputWidth)));
    let one_off: Result<AppState<usize, f32>, StartupError> = create_app(
        4,
        |i| Some((i, if i == 3 { 4 } else { 3 })),
        Some(csv),
        false,
        number,
    );
    assert_eq!(one_off.err(), Some(StartupError::Init(InitError::InputWidth)));
    assert_eq!(
        StartupError::Init(InitError::InputWidth).message(),
        "Model input width differs from the number of features"
    );
    let fitting: AppState<usize, f32> =
        create_app(4, |i| Some((i, 3)), Some(csv), false, number).unwrap();
    assert_eq!(fitting.scaler.features(), 3);
    assert_eq!(fitting.pool.len(), 4);
}

#[test]
fn the_header_counts_for_the_width_only_when_it_is_data() {
    let csv: &[u8] = b"1.0,2.0\n3.0,4.0\n";
    let data: Result<AppState<usize, f32>, StartupError> =
        create_app(1, |i| Some((i, 2)), Some(csv), false, number);
    assert!(data.is_ok());
    let header: Result<AppState<usize, f32>, StartupError> =
        create_app(1, |i| Some((i, 2)), Some(csv), true, number);
    assert_eq!(header.err(), Some(StartupError::Init(InitError::InputWidth)));
}

#[test]
fn a_failed_session_comes_before_a_bad_table_and_a_bad_table_before_a_bad_width() {
    let bad: &[u8] = b"0.0\n";
    let both: Result<AppState<usize, f32>, StartupError> = create_app(
        3,
        |i| if i == 2 { None } else { Some((i, 9)) },
        Some(bad),
        false,
        number,
    );
    assert_eq!(both.err(), Some(StartupError::Init(InitError::ModelLoad)));
    let table: Result<AppState<usize, f32>, StartupError> =
        create_app(3, |i| Some((i, 9)), Some(bad), false, number);
    assert_eq!(
        table.err(),
        Some(StartupError::Config(ConfigError::ScalerParse))
    );
    let loads = std::cell::Cell::new(0);
    let unreadable: Result<AppState<usize, f32>, StartupError> = create_app(
        3,
        |i| {
            loads.set(loads.get() + 1);
            Some((i, 9))
        },
        None,
        false,
        number,
    );
    assert_eq!(
        unreadable.err(),
        Some(StartupError::Config(ConfigError::ScalerParse))
    );
    assert_eq!(loads.get(), 3);
}
