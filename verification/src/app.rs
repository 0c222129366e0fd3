//! The state that all request handlers share, and how it is brought up.

use crate::error::ConfigError;
use crate::error::InitError;
use crate::error::StartupError;
use crate::pool::are_loaded;
use crate::pool::check_input_widths;
use crate::pool::widths_match;
use crate::pool::SessionPool;
use crate::scaler::csv_records;
use crate::scaler::load_scaler_tensors;
use crate::scaler::scaler_parsed;
use crate::scaler::scaler_rejected;
use crate::scaler::ScalerTable;
use vstd::prelude::*;

verus! {

/// What every request handler reads: the scaler table and the session pool.
///
/// Nothing in it changes after startup but the pool's ticket counter.
pub struct AppState<S, T> {
    pub pool: SessionPool<S>,
    pub scaler: ScalerTable<T>,
}

/// The scaler file was read, is well-formed CSV, and its records parse to the
/// bounds `lower` and `upper`.
pub open spec fn table_parses<T, P: Fn(&str) -> Option<T>>(
    parse: P,
    scaler_csv: Option<&[u8]>,
    has_headers: bool,
    lower: Seq<T>,
    upper: Seq<T>,
) -> bool {
    &&& scaler_csv matches Some(bytes)
    &&& csv_records(bytes@, has_headers) matches Some(records)
    &&& scaler_parsed(parse, records, lower, upper)
}

/// The scaler file could not be read, is not well-formed CSV, or has records
/// that make no scaler table.
pub open spec fn table_fails<T, P: Fn(&str) -> Option<T>>(
    parse: P,
    scaler_csv: Option<&[u8]>,
    has_headers: bool,
) -> bool {
    scaler_csv matches Some(bytes) ==> (csv_records(bytes@, has_headers) matches Some(records)
        ==> scaler_rejected(parse, records))
}

/// Brings up the shared state: first the pool of exactly `sessions` model
/// sessions, each made by `load`, then the scaler table, read from the bytes
/// of its CSV file. Last, the input width that every model declares is held
/// against the number of features of the table.
///
/// `load` returns a session together with the number of cells per row that
/// its model declares for its input. `scaler_csv` is `None` where the file
/// could not be read. With `has_headers` its first record is skipped as a
/// header. Numbers are read by `parse`.
///
/// Startup fails when a session fails to load or none is asked for; otherwise
/// when the scaler table cannot be read; otherwise when some model declares an
/// input of another width than the table has features.
pub fn create_app<S, T, L: Fn(usize) -> Option<(S, usize)>, P: Fn(&str) -> Option<T>>(
    sessions: usize,
    load: L,
    scaler_csv: Option<&[u8]>,
    has_headers: bool,
    parse: P,
) -> (app: Result<AppState<S, T>, StartupError>)
    requires
        forall|i: usize| i < sessions ==> call_requires(load, (i,)),
        forall|field: &str| call_requires(parse, (field,)),
    ensures
        app matches Ok(state) ==> {
            &&& sessions >= 1
            &&& exists|widths: Seq<usize>|
                {
                    &&& #[trigger] are_loaded(load, sessions, state.pool@, widths)
                    &&& widths_match(widths, state.scaler.lower().len())
                }
            &&& table_parses(
                parse,
                scaler_csv,
                has_headers,
                state.scaler.lower(),
                state.scaler.upper(),
            )
            &&& state.scaler.well_formed()
        },
        app matches Err(StartupError::Init(InitError::ModelLoad)) ==> {
            sessions == 0 || exists|i: usize| i < sessions && call_ensures(load, (i,), None)
        },
        app matches Err(StartupError::Init(InitError::InputWidth)) ==> {
            exists|loaded: Seq<S>, widths: Seq<usize>, lower: Seq<T>, upper: Seq<T>|
                #![trigger
                    are_loaded(load, sessions, loaded, widths),
                    table_parses(parse, scaler_csv, has_headers, lower, upper),
                ]
                {
                    &&& are_loaded(load, sessions, loaded, widths)
                    &&& table_parses(parse, scaler_csv, has_headers, lower, upper)
                    &&& !widths_match(widths, lower.len())
                }
        },
        app matches Err(StartupError::Config(e)) ==> {
            &&& e == ConfigError::ScalerParse
            &&& sessions >= 1
            &&& exists|loaded: Seq<S>, widths: Seq<usize>| are_loaded(load, sessions, loaded, widths)
            &&& table_fails(parse, scaler_csv, has_headers)
        },
{
    let (pool, widths) = match SessionPool::build(sessions, load) {
        Ok(built) => built,
        Err(e) => {
            return Err(StartupError::Init(e));
        },
    };
    let bytes = match scaler_csv {
        Some(bytes) => bytes,
        None => {
            return Err(StartupError::Config(ConfigError::ScalerParse));
        },
    };
    let scaler = match load_scaler_tensors(bytes, has_headers, parse) {
        Ok(scaler) => scaler,
        Err(e) => {
            return Err(StartupError::Config(e));
        },
    };
    match check_input_widths(&widths, scaler.features()) {
        Ok(()) => {
            let state = AppState { pool, scaler };
            assert(are_loaded(load, sessions, state.pool@, widths@));
            assert(widths_match(widths@, state.scaler.lower().len()));
            Ok(state)
        },
        Err(e) => {
            assert(table_parses(parse, scaler_csv, has_headers, scaler.lower(), scaler.upper()));
            Err(StartupError::Init(e))
        },
    }
}

} // verus!
