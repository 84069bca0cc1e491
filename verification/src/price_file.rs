//! Reading of stored price files: comma-separated rows under the header
//! `date,close,open,high,low,volume,adjusted_close,split_unadjusted_close,source,updated_at`.

use crate::actions::load_split_events;
use crate::calendar::{parse_date, parsed_iso_date};
use crate::number::{as_i64, decimal_value, numeric_chars, parse_amount_str};
use crate::order::sorted;
use crate::price::{by_date, rows_of, PriceRecord, PriceRow, PriceSeries};
use crate::split::{adjustable, adjusted_record, forward_adjust, SplitEvent};
use crate::text::{texts, trim, trimmed};
use vstd::prelude::*;

verus! {

/// Why a price file gave no series.
#[derive(Clone, Copy, Debug, PartialEq, Eq)]
pub enum LoadError {
    /// A row is not well-formed comma-separated text.
    InvalidRow,
    /// A row has a date that cannot be read.
    InvalidDate,
    /// The file holds no usable row.
    NotFound,
    /// A price cannot be held once adjusted for splits.
    Overflow,
}

/// The rows that the `csv` crate reads from comma-separated data with a
/// header row: for each row after the header its fields, or nothing where the
/// crate reports the row as an error.
pub uninterp spec fn csv_rows(data: Seq<u8>) -> Seq<Option<Seq<Seq<char>>>>;

/// The fields of a row as character sequences.
pub open spec fn row_texts(row: Option<Vec<String>>) -> Option<Seq<Seq<char>>> {
    match row {
        Some(fields) => Some(texts(fields@)),
        None => None,
    }
}

/// `csv::ReaderBuilder` with headers, over a byte slice, and its record
/// iterator: the rows depend on the bytes alone and are named `csv_rows`.
#[verifier::external_body]
fn read_csv_rows(data: &[u8]) -> (r: Vec<Option<Vec<String>>>)
    ensures
        rows_texts(r@) == csv_rows(data@),
{
    csv::ReaderBuilder::new()
        .has_headers(true)
        .from_reader(data)
        .into_records()
        .map(|row| row.ok().map(|record| record.iter().map(|f| f.to_string()).collect()))
        .collect()
}

/// The amount in column `i`, read from the digits, points and signs of the
/// trimmed field; none where the row has no such column or it holds no number.
pub open spec fn column_amount(fields: Seq<Seq<char>>, i: int) -> Option<i64> {
    if 0 <= i < fields.len() {
        as_i64(decimal_value(numeric_chars(trimmed(fields[i]))))
    } else {
        None
    }
}

/// The record that a row with a readable date holds. A close that is no
/// number counts as zero; a row without a source column is `manual`.
pub open spec fn price_row(symbol: Seq<char>, fields: Seq<Seq<char>>) -> Option<PriceRow> {
    match parsed_iso_date(trimmed(fields[0])) {
        None => None,
        Some(day) => Some(
            PriceRow {
                symbol,
                date: day as i32,
                close: match column_amount(fields, 1) {
                    Some(c) => c,
                    None => 0,
                },
                open: column_amount(fields, 2),
                high: column_amount(fields, 3),
                low: column_amount(fields, 4),
                volume: column_amount(fields, 5),
                adjusted_close: column_amount(fields, 6),
                split_unadjusted_close: column_amount(fields, 7),
                source: if fields.len() > 8 {
                    trimmed(fields[8])
                } else {
                    "manual"@
                },
            },
        ),
    }
}

/// The records of a file read strictly: rows with fewer than two fields are
/// passed over, and the first row that is an error or has an unreadable date
/// fails the file.
pub open spec fn strict_rows(symbol: Seq<char>, rows: Seq<Option<Seq<Seq<char>>>>) -> Result<
    Seq<PriceRow>,
    LoadError,
>
    decreases rows.len(),
{
    if rows.len() == 0 {
        Ok(Seq::empty())
    } else {
        match strict_rows(symbol, rows.drop_last()) {
            Err(e) => Err(e),
            Ok(head) => match rows.last() {
                None => Err(LoadError::InvalidRow),
                Some(fields) => if fields.len() < 2 {
                    Ok(head)
                } else {
                    match price_row(symbol, fields) {
                        None => Err(LoadError::InvalidDate),
                        Some(row) => Ok(head.push(row)),
                    }
                },
            },
        }
    }
}

/// The record of a row read leniently: nothing for a row that is an error,
/// has fewer than three fields, or has an unreadable date.
pub open spec fn lenient_row(symbol: Seq<char>, row: Option<Seq<Seq<char>>>) -> Option<PriceRow> {
    match row {
        Some(fields) => if fields.len() < 3 {
            None
        } else {
            price_row(symbol, fields)
        },
        None => None,
    }
}

/// The records of a file read leniently.
pub open spec fn lenient_rows(symbol: Seq<char>, rows: Seq<Option<Seq<Seq<char>>>>) -> Seq<
    PriceRow,
> {
    rows.filter_map(|row: Option<Seq<Seq<char>>>| lenient_row(symbol, row))
}

/// A failure among the first rows is the failure of the file.
pub proof fn lemma_strict_rows_fail(symbol: Seq<char>, rows: Seq<Option<Seq<Seq<char>>>>, k: int)
    requires
        0 <= k <= rows.len(),
        strict_rows(symbol, rows.take(k)) is Err,
    ensures
        strict_rows(symbol, rows) == strict_rows(symbol, rows.take(k)),
    decreases rows.len() - k,
{
    if k == rows.len() {
        assert(rows.take(k) == rows);
    } else {
        assert(rows.take(k + 1).drop_last() == rows.take(k));
        lemma_strict_rows_fail(symbol, rows, k + 1);
    }
}

fn read_column(fields: &Vec<String>, i: usize) -> (r: Option<i64>)
    ensures
        r == column_amount(texts(fields@), i as int),
{
    if i < fields.len() {
        let t = trim(fields[i].as_str());
        parse_amount_str(t.as_str())
    } else {
        None
    }
}

/// Reads the record of one row; `None` where its date cannot be read.
fn read_price_row(symbol: &str, fields: &Vec<String>) -> (r: Option<PriceRecord>)
    requires
        fields@.len() >= 1,
    ensures
        match r {
            Some(record) => price_row(symbol@, texts(fields@)) == Some(record@),
            None => price_row(symbol@, texts(fields@)) is None,
        },
{
    match parse_date(fields[0].as_str()) {
        None => None,
        Some(date) => {
            let close = match read_column(fields, 1) {
                Some(c) => c,
                None => 0,
            };
            let source = if fields.len() > 8 {
                trim(fields[8].as_str())
            } else {
                "manual".to_owned()
            };
            Some(
                PriceRecord {
                    symbol: symbol.to_owned(),
                    date,
                    close,
                    open: read_column(fields, 2),
                    high: read_column(fields, 3),
                    low: read_column(fields, 4),
                    volume: read_column(fields, 5),
                    adjusted_close: read_column(fields, 6),
                    split_unadjusted_close: read_column(fields, 7),
                    source,
                },
            )
        },
    }
}

/// The rows of a file as character sequences.
pub open spec fn rows_texts(rows: Seq<Option<Vec<String>>>) -> Seq<Option<Seq<Seq<char>>>> {
    rows.map_values(|row: Option<Vec<String>>| row_texts(row))
}

/// Reads a price file strictly: its records in file order. It is an error if
/// a row cannot be read, and `NotFound` if the file holds no usable row.
pub fn read_price_file(symbol: &str, data: &[u8]) -> (r: Result<Vec<PriceRecord>, LoadError>)
    ensures
        match r {
            Ok(records) => strict_rows(symbol@, csv_rows(data@)) == Ok::<Seq<PriceRow>, LoadError>(
                rows_of(records@),
            ) && records@.len() > 0,
            Err(e) => match strict_rows(symbol@, csv_rows(data@)) {
                Ok(rows) => rows.len() == 0 && e == LoadError::NotFound,
                Err(f) => e == f,
            },
        },
{
    let rows = read_csv_rows(data);
    records_of_rows(symbol, &rows)
}

/// Reads the rows of a price file strictly: the records of the rows in their
/// order. It is an error if a row cannot be read, and `NotFound` if no row is
/// usable.
pub fn records_of_rows(symbol: &str, rows: &Vec<Option<Vec<String>>>) -> (r: Result<
    Vec<PriceRecord>,
    LoadError,
>)
    ensures
        match r {
            Ok(records) => strict_rows(symbol@, rows_texts(rows@)) == Ok::<Seq<PriceRow>, LoadError>(
                rows_of(records@),
            ) && records@.len() > 0,
            Err(e) => match strict_rows(symbol@, rows_texts(rows@)) {
                Ok(found) => found.len() == 0 && e == LoadError::NotFound,
                Err(f) => e == f,
            },
        },
{
    let ghost all = rows_texts(rows@);
    let mut out: Vec<PriceRecord> = Vec::new();
    let mut i: usize = 0;
    proof {
        assert(rows_of(out@) =~= Seq::<PriceRow>::empty());
    }
    while i < rows.len()
        invariant
            i <= rows.len(),
            all == rows_texts(rows@),
            strict_rows(symbol@, all.take(i as int)) == Ok::<Seq<PriceRow>, LoadError>(
                rows_of(out@),
            ),
        decreases rows.len() - i,
    {
        proof {
            assert(all.take(i + 1).drop_last() == all.take(i as int));
        }
        match &rows[i] {
            None => {
                proof {
                    lemma_strict_rows_fail(symbol@, all, i + 1);
                }
                return Err(LoadError::InvalidRow);
            },
            Some(fields) => {
                if fields.len() >= 2 {
                    match read_price_row(symbol, fields) {
                        None => {
                            proof {
                                lemma_strict_rows_fail(symbol@, all, i + 1);
                            }
                            return Err(LoadError::InvalidDate);
                        },
                        Some(record) => {
                            assert(rows_of(out@.push(record)) =~= rows_of(out@).push(record@));
                            out.push(record);
                        },
                    }
                }
            },
        }
        i += 1;
    }
    assert(all.take(rows.len() as int) == all);
    if out.len() == 0 {
        Err(LoadError::NotFound)
    } else {
        Ok(out)
    }
}

/// Reads a price file leniently: the records of the rows that can be read, in
/// file order.
pub fn load_price_records(symbol: &str, data: &[u8]) -> (r: Vec<PriceRecord>)
    ensures
        rows_of(r@) == lenient_rows(symbol@, csv_rows(data@)),
{
    let rows = read_csv_rows(data);
    readable_records_of_rows(symbol, &rows)
}

/// Reads the rows of a price file leniently: the records of the rows that can
/// be read, in their order.
pub fn readable_records_of_rows(symbol: &str, rows: &Vec<Option<Vec<String>>>) -> (r: Vec<
    PriceRecord,
>)
    ensures
        rows_of(r@) == lenient_rows(symbol@, rows_texts(rows@)),
{
    let ghost all = rows_texts(rows@);
    let ghost read = |row: Option<Seq<Seq<char>>>| lenient_row(symbol@, row);
    let mut out: Vec<PriceRecord> = Vec::new();
    let mut i: usize = 0;
    while i < rows.len()
        invariant
            i <= rows.len(),
            all == rows_texts(rows@),
            read == (|row: Option<Seq<Seq<char>>>| lenient_row(symbol@, row)),
            rows_of(out@) == all.take(i as int).filter_map(read),
        decreases rows.len() - i,
    {
        proof {
            assert(all.take(i + 1).drop_last() == all.take(i as int));
        }
        match &rows[i] {
            None => {},
            Some(fields) => {
                if fields.len() >= 3 {
                    match read_price_row(symbol, fields) {
                        None => {},
                        Some(record) => {
                            out.push(record);
                        },
                    }
                }
            },
        }
        i += 1;
    }
    assert(all.take(rows.len() as int) == all);
    out
}

/// Whether `history` holds the records of `ordered`, each adjusted for `splits`.
pub open spec fn is_adjusted(
    history: Seq<PriceRecord>,
    ordered: Seq<PriceRecord>,
    splits: Seq<SplitEvent>,
) -> bool {
    history.len() == ordered.len() && forall|i: int|
        0 <= i < ordered.len() ==> adjustable(#[trigger] ordered[i], splits) && history[i]
            == adjusted_record(ordered[i], splits)
}

/// Whether a record of `ordered` cannot be adjusted for `splits`.
pub open spec fn has_unadjustable(ordered: Seq<PriceRecord>, splits: Seq<SplitEvent>) -> bool {
    exists|i: int| 0 <= i < ordered.len() && !adjustable(#[trigger] ordered[i], splits)
}

/// Whether `ordered` holds records with the rows `rows`, one per date (of two
/// rows of one date the later), oldest first.
pub open spec fn is_ordered_history(ordered: Seq<PriceRecord>, rows: Seq<PriceRow>) -> bool {
    exists|series: PriceSeries, records: Seq<PriceRecord>|
        #![trigger series.valid(), rows_of(records)]
        rows_of(records) == rows && series.valid() && series@ == by_date(records) && ordered
            == series.records().reverse()
}

/// The records of `series`, oldest first, each adjusted for `splits`; `None`
/// when a record cannot be adjusted.
pub fn adjusted_history(series: &PriceSeries, splits: &Vec<SplitEvent>) -> (r: Option<
    Vec<PriceRecord>,
>)
    ensures
        match r {
            Some(history) => is_adjusted(history@, series.records().reverse(), splits@),
            None => has_unadjustable(series.records().reverse(), splits@),
        },
{
    let ordered = series.oldest_first();
    forward_adjust(ordered, splits)
}

/// Loads the price history of `symbol` from its price file and its split
/// file: one record per date, oldest first, with close, open, high and low
/// adjusted for the splits of the split file.
pub fn load_price_history_for_symbol(symbol: &str, price_data: &[u8], split_content: &str) -> (r:
    Result<Vec<PriceRecord>, LoadError>)
    ensures
        match (r, strict_rows(symbol@, csv_rows(price_data@))) {
            (Ok(history), Ok(rows)) => rows.len() > 0 && exists|ordered: Seq<PriceRecord>|
                #![trigger is_ordered_history(ordered, rows)]
                is_ordered_history(ordered, rows) && is_adjusted(
                    history@,
                    ordered,
                    sorted(crate::actions::events_of(crate::actions::split_file_records(split_content@))),
                ),
            (Err(e), Ok(rows)) => if rows.len() == 0 {
                e == LoadError::NotFound
            } else {
                e == LoadError::Overflow && exists|ordered: Seq<PriceRecord>|
                    #![trigger is_ordered_history(ordered, rows)]
                    is_ordered_history(ordered, rows) && has_unadjustable(
                        ordered,
                        sorted(
                            crate::actions::events_of(
                                crate::actions::split_file_records(split_content@),
                            ),
                        ),
                    )
            },
            (Err(e), Err(f)) => e == f,
            (Ok(_), Err(_)) => false,
        },
{
    let records = match read_price_file(symbol, price_data) {
        Ok(records) => records,
        Err(e) => {
            return Err(e);
        },
    };
    let ghost rows = rows_of(records@);
    let series = PriceSeries::from_records(records);
    let splits = load_split_events(split_content);
    let ghost ordered = series.records().reverse();
    proof {
        assert(is_ordered_history(ordered, rows));
    }
    match adjusted_history(&series, &splits) {
        Some(history) => Ok(history),
        None => Err(LoadError::Overflow),
    }
}

} // verus!
