//! The scaler table and its loader.
//!
//! The table holds, for each of the `F` features of the model, the minimum and
//! the maximum that the feature took in training. It is read once at startup
//! from CSV text with one record per feature, the minimum in the first field
//! and the maximum in the second.

use crate::error::ConfigError;
use vstd::prelude::*;

verus! {

/// Fitted bounds of every feature: two vectors of the same, non-zero length.
///
/// Nothing is asked of the bounds themselves: a maximum below its minimum is
/// accepted as it stands.
pub struct ScalerTable<T> {
    min: Vec<T>,
    max: Vec<T>,
}

impl<T> ScalerTable<T> {
    #[verifier::type_invariant]
    spec fn paired(self) -> bool {
        self.min@.len() == self.max@.len() && self.min@.len() >= 1
    }

    /// The minimum of every feature.
    pub closed spec fn lower(self) -> Seq<T> {
        self.min@
    }

    /// The maximum of every feature.
    pub closed spec fn upper(self) -> Seq<T> {
        self.max@
    }

    /// The table bounds at least one feature, and each of them on both sides.
    pub open spec fn well_formed(self) -> bool {
        self.lower().len() == self.upper().len() && self.lower().len() >= 1
    }

    /// The table with the given minima and maxima. The two must be equally
    /// long and not empty.
    pub fn new(min: Vec<T>, max: Vec<T>) -> (built: Result<ScalerTable<T>, ConfigError>)
        ensures
            built is Ok <==> min@.len() == max@.len() && min@.len() >= 1,
            built matches Ok(table) ==> {
                &&& table.lower() == min@
                &&& table.upper() == max@
                &&& table.well_formed()
            },
            built matches Err(e) ==> e == ConfigError::ScalerParse,
    {
        if min.len() == max.len() && min.len() >= 1 {
            Ok(ScalerTable { min, max })
        } else {
            Err(ConfigError::ScalerParse)
        }
    }

    /// The number of features, `F`.
    pub fn features(&self) -> (count: usize)
        ensures
            count == self.lower().len(),
            count == self.upper().len(),
            count >= 1,
    {
        proof {
            use_type_invariant(self);
        }
        self.min.len()
    }

    /// The minimum of feature `j`.
    pub fn min(&self, j: usize) -> (bound: &T)
        requires
            j < self.lower().len(),
        ensures
            *bound == self.lower()[j as int],
    {
        &self.min[j]
    }

    /// The maximum of feature `j`.
    pub fn max(&self, j: usize) -> (bound: &T)
        requires
            j < self.upper().len(),
        ensures
            *bound == self.upper()[j as int],
    {
        &self.max[j]
    }

    /// The minima, in feature order.
    pub fn min_values(&self) -> (bounds: &Vec<T>)
        ensures
            bounds@ == self.lower(),
            self.well_formed(),
    {
        proof {
            use_type_invariant(self);
        }
        &self.min
    }

    /// The maxima, in feature order.
    pub fn max_values(&self) -> (bounds: &Vec<T>)
        ensures
            bounds@ == self.upper(),
            self.well_formed(),
    {
        proof {
            use_type_invariant(self);
        }
        &self.max
    }
}

/// `csv::Error`, the error of the `csv` crate's reader. Nothing is known of
/// what it holds.
#[verifier::external_type_specification]
#[verifier::external_body]
pub struct ExCsvError(csv::Error);

/// The records that the `csv` crate reads from `bytes`, each as its fields'
/// text, or `None` where it reports an error. With `has_headers` the first
/// record is a header and is not among them.
pub uninterp spec fn csv_records(bytes: Seq<u8>, has_headers: bool) -> Option<Seq<Seq<Seq<char>>>>;

/// Reads all records of `bytes` with `csv::Reader::records`, on a reader made
/// by `csv::ReaderBuilder` with only `has_headers` set, and copies every field
/// into a `String`.
///
/// Trusted: the result is the one that `csv_records` names for these
/// arguments, and it is an error exactly when the reader reports one for some
/// record.
#[verifier::external_body]
fn read_records(bytes: &[u8], has_headers: bool) -> (read: Result<Vec<Vec<String>>, csv::Error>)
    ensures
        read matches Ok(rows) ==> csv_records(bytes@, has_headers) == Some(rows.deep_view()),
        read is Err ==> csv_records(bytes@, has_headers) is None,
{
    let mut reader = csv::ReaderBuilder::new().has_headers(has_headers).from_reader(bytes);
    let mut rows: Vec<Vec<String>> = Vec::new();
    for record in reader.records() {
        rows.push(record?.iter().map(|field| field.to_string()).collect());
    }
    Ok(rows)
}

/// `parse` may turn `text` into `value`.
pub open spec fn parses_to<T, F: Fn(&str) -> Option<T>>(
    parse: F,
    text: Seq<char>,
    value: Option<T>,
) -> bool {
    exists|field: &str| field@ == text && call_ensures(parse, (field,), value)
}

/// Every record has a minimum and a maximum that parse to the entries of
/// `lower` and `upper`, and there is at least one record.
pub open spec fn scaler_parsed<T, F: Fn(&str) -> Option<T>>(
    parse: F,
    records: Seq<Seq<Seq<char>>>,
    lower: Seq<T>,
    upper: Seq<T>,
) -> bool {
    &&& records.len() >= 1
    &&& lower.len() == records.len()
    &&& upper.len() == records.len()
    &&& forall|i: int|
        0 <= i < records.len() ==> {
            &&& (#[trigger] records[i]).len() >= 2
            &&& parses_to(parse, records[i][0], Some(lower[i]))
            &&& parses_to(parse, records[i][1], Some(upper[i]))
        }
}

/// There is no record, or some record has fewer than two fields or a bound
/// that does not parse.
pub open spec fn scaler_rejected<T, F: Fn(&str) -> Option<T>>(
    parse: F,
    records: Seq<Seq<Seq<char>>>,
) -> bool {
    ||| records.len() == 0
    ||| exists|i: int|
        0 <= i < records.len() && {
            ||| (#[trigger] records[i]).len() < 2
            ||| parses_to(parse, records[i][0], None::<T>)
            ||| parses_to(parse, records[i][1], None::<T>)
        }
}

/// Builds the scaler table from CSV records: the first field of record `i` is
/// the minimum of feature `i`, the second its maximum, and further fields are
/// ignored. Numbers are read by `parse`.
///
/// Fails when there is no record, when a record has fewer than two fields, and
/// when `parse` refuses a bound.
pub fn parse_scaler_rows<T, F: Fn(&str) -> Option<T>>(rows: &Vec<Vec<String>>, parse: F) -> (built:
    Result<ScalerTable<T>, ConfigError>)
    requires
        forall|field: &str| call_requires(parse, (field,)),
    ensures
        built matches Ok(table) ==> {
            &&& scaler_parsed(parse, rows.deep_view(), table.lower(), table.upper())
            &&& table.well_formed()
        },
        built matches Err(e) ==> {
            &&& e == ConfigError::ScalerParse
            &&& scaler_rejected(parse, rows.deep_view())
        },
{
    let ghost records = rows.deep_view();
    let mut min: Vec<T> = Vec::new();
    let mut max: Vec<T> = Vec::new();
    let mut i: usize = 0;
    while i < rows.len()
        invariant
            0 <= i <= rows@.len(),
            records == rows.deep_view(),
            min@.len() == i,
            max@.len() == i,
            forall|field: &str| call_requires(parse, (field,)),
            forall|k: int|
                0 <= k < i ==> {
                    &&& (#[trigger] records[k]).len() >= 2
                    &&& parses_to(parse, records[k][0], Some(min@[k]))
                    &&& parses_to(parse, records[k][1], Some(max@[k]))
                },
        decreases rows@.len() - i,
    {
        let row = &rows[i];
        assert(records[i as int] == row.deep_view());
        if row.len() < 2 {
            return Err(ConfigError::ScalerParse);
        }
        let low_text = row[0].as_str();
        let high_text = row[1].as_str();
        assert(low_text@ == records[i as int][0]);
        assert(high_text@ == records[i as int][1]);
        let low = parse(low_text);
        let high = parse(high_text);
        match (low, high) {
            (Some(low), Some(high)) => {
                let ghost min_before = min@;
                let ghost max_before = max@;
                min.push(low);
                max.push(high);
                proof {
                    assert(parses_to(parse, records[i as int][0], Some(min@[i as int])));
                    assert(parses_to(parse, records[i as int][1], Some(max@[i as int])));
                    assert forall|k: int| 0 <= k < i + 1 implies {
                        &&& (#[trigger] records[k]).len() >= 2
                        &&& parses_to(parse, records[k][0], Some(min@[k]))
                        &&& parses_to(parse, records[k][1], Some(max@[k]))
                    } by {
                        if k < i {
                            assert(min@[k] == min_before[k]);
                            assert(max@[k] == max_before[k]);
                        }
                    }
                }
            },
            (None, _) => {
                assert(parses_to(parse, records[i as int][0], None::<T>));
                return Err(ConfigError::ScalerParse);
            },
            (_, None) => {
                assert(parses_to(parse, records[i as int][1], None::<T>));
                return Err(ConfigError::ScalerParse);
            },
        }
        i += 1;
    }
    if i == 0 {
        Err(ConfigError::ScalerParse)
    } else {
        Ok(ScalerTable { min, max })
    }
}

/// Reads the scaler table from the bytes of a CSV file.
///
/// With `has_headers` the first record is skipped as a header; without it the
/// first record is data. Numbers are read by `parse`. Text that is not
/// well-formed CSV is an error, and so is everything that
/// [`parse_scaler_rows`] refuses.
pub fn load_scaler_tensors<T, F: Fn(&str) -> Option<T>>(
    bytes: &[u8],
    has_headers: bool,
    parse: F,
) -> (built: Result<ScalerTable<T>, ConfigError>)
    requires
        forall|field: &str| call_requires(parse, (field,)),
    ensures
        built matches Ok(table) ==> {
            &&& csv_records(bytes@, has_headers) matches Some(records)
            &&& scaler_parsed(parse, records, table.lower(), table.upper())
            &&& table.well_formed()
        },
        built matches Err(e) ==> {
            &&& e == ConfigError::ScalerParse
            &&& csv_records(bytes@, has_headers) matches Some(records) ==> scaler_rejected(
                parse,
                records,
            )
        },
{
    match read_records(bytes, has_headers) {
        Ok(rows) => parse_scaler_rows(&rows, parse),
        Err(_) => Err(ConfigError::ScalerParse),
    }
}

} // verus!
