//! The corporate-action store: split files in their two layouts, and
//! dividend lists with one entry per ex-date.

use crate::calendar::{format_date, in_calendar, iso_date_text, parse_date, parsed_iso_date};
use crate::fetch::{collapse_dividends, is_collapsed, RawDividend};
use crate::number::{
    amount_text, append_text, as_i32, as_i64, decimal_value, digits_of, format_amount,
    integer_value, parse_i32, parse_price_field, u64_to_string,
};
use crate::order::{ascending, sort_by_key, sorted, Keyed};
use crate::split::{
    parse_ratio_components, ratio_components, ratio_from_parts, ratio_or_unit, SplitEvent,
};
use crate::text::{
    lines, lower_ascii, lowered, same_text, split, split_lines, split_text, texts, trim, trimmed,
};
use vstd::prelude::*;

verus! {

/// One row of a split file.
#[derive(Clone, Copy, Debug, PartialEq, Eq)]
pub struct SplitRecord {
    pub date: i32,
    pub numerator: i64,
    pub denominator: i64,
    pub before_price: Option<i64>,
    pub after_price: Option<i64>,
}

impl SplitRecord {
    /// The split event that the row records.
    pub open spec fn event(&self) -> SplitEvent {
        SplitEvent { date: self.date, numerator: self.numerator, denominator: self.denominator }
    }

    /// The split event that the row records.
    pub fn to_event(&self) -> (e: SplitEvent)
        ensures
            e == self.event(),
    {
        SplitEvent { date: self.date, numerator: self.numerator, denominator: self.denominator }
    }
}

impl Keyed for SplitEvent {
    /// Split events are ordered oldest first.
    open spec fn key(&self) -> int {
        self.date as int
    }

    fn sort_key(&self) -> (k: i64) {
        self.date as i64
    }
}

/// Whether a header row names a `numerator` column, in any mix of upper and
/// lower case: the mark of the layout with one column per part of the ratio.
pub open spec fn has_fraction_columns(header: Seq<char>) -> bool {
    exists|i: int|
        0 <= i < split(header, ',').len() && lowered(trimmed(#[trigger] split(header, ',')[i]))
            == "numerator"@
}

/// The whole number in column `i`, if the row has that column and it holds one.
pub open spec fn field_integer(fields: Seq<Seq<char>>, i: int) -> Option<i32> {
    if 0 <= i < fields.len() {
        as_i32(integer_value(trimmed(fields[i])))
    } else {
        None
    }
}

/// The amount in column `i`, if the row has that column and it holds one.
pub open spec fn field_amount(fields: Seq<Seq<char>>, i: int) -> Option<i64> {
    if 0 <= i < fields.len() {
        as_i64(decimal_value(trimmed(fields[i])))
    } else {
        None
    }
}

/// The text in column `i`, empty if the row has no such column.
pub open spec fn field_text(fields: Seq<Seq<char>>, i: int) -> Seq<char> {
    if 0 <= i < fields.len() {
        fields[i]
    } else {
        Seq::empty()
    }
}

/// The ratio of a row.
pub open spec fn row_ratio(fields: Seq<Seq<char>>, fractional: bool) -> (int, int) {
    if fractional {
        ratio_or_unit(field_integer(fields, 1), field_integer(fields, 2))
    } else {
        ratio_components(field_text(fields, 1))
    }
}

/// What a line of a split file records: nothing where the line is blank or
/// does not open with a date. In the fractional layout the columns are date,
/// numerator, denominator, price before, price after; in the other layout
/// date, ratio text, price before, price after.
pub open spec fn split_row(line: Seq<char>, fractional: bool) -> Option<SplitRecord> {
    let fields = split(line, ',');
    if trimmed(line).len() == 0 {
        None
    } else {
        match parsed_iso_date(trimmed(fields[0])) {
            None => None,
            Some(day) => Some(
                SplitRecord {
                    date: day as i32,
                    numerator: row_ratio(fields, fractional).0 as i64,
                    denominator: row_ratio(fields, fractional).1 as i64,
                    before_price: field_amount(fields, if fractional { 3 } else { 2 }),
                    after_price: field_amount(fields, if fractional { 4 } else { 3 }),
                },
            ),
        }
    }
}

/// The rows that a split file records, in file order. The first line is the
/// header and decides the layout.
pub open spec fn split_file_records(content: Seq<char>) -> Seq<SplitRecord> {
    let all = lines(content);
    if all.len() == 0 {
        Seq::empty()
    } else {
        all.skip(1).filter_map(|line: Seq<char>| split_row(line, has_fraction_columns(all[0])))
    }
}

/// Decides the layout of a split file from its header row.
pub fn detect_fraction_columns(header: &str) -> (r: bool)
    ensures
        r == has_fraction_columns(header@),
{
    let columns = split_text(header, ',');
    let mut i: usize = 0;
    while i < columns.len()
        invariant
            i <= columns.len(),
            texts(columns@) == split(header@, ','),
            forall|j: int|
                0 <= j < i ==> lowered(trimmed(#[trigger] split(header@, ',')[j])) != "numerator"@,
        decreases columns.len() - i,
    {
        assert(texts(columns@)[i as int] == columns@[i as int]@);
        let name = trim(columns[i].as_str());
        let lower = lower_ascii(name.as_str());
        if same_text(lower.as_str(), "numerator") {
            return true;
        }
        i += 1;
    }
    false
}

/// Column `i` of a row, if the row has it.
fn field<'a>(fields: &'a Vec<String>, i: usize) -> (r: Option<&'a str>)
    ensures
        match r {
            Some(t) => i < fields@.len() && t@ == texts(fields@)[i as int],
            None => i >= fields@.len(),
        },
{
    if i < fields.len() {
        Some(fields[i].as_str())
    } else {
        None
    }
}

/// The whole number in column `i` of a row.
fn parse_integer_field(fields: &Vec<String>, i: usize) -> (r: Option<i32>)
    ensures
        r == field_integer(texts(fields@), i as int),
{
    match field(fields, i) {
        Some(t) => {
            let trimmed_text = trim(t);
            parse_i32(trimmed_text.as_str())
        },
        None => None,
    }
}

/// Reads one line of a split file.
pub fn parse_split_row(line: &str, fractional: bool) -> (r: Option<SplitRecord>)
    ensures
        r == split_row(line@, fractional),
        r matches Some(rec) ==> rec.numerator >= 1 && rec.denominator >= 1,
{
    let blank = trim(line);
    if blank.as_str().unicode_len() == 0 {
        return None;
    }
    let fields = split_text(line, ',');
    match parse_date(fields[0].as_str()) {
        None => None,
        Some(date) => {
            let ratio = if fractional {
                ratio_from_parts(parse_integer_field(&fields, 1), parse_integer_field(&fields, 2))
            } else {
                match field(&fields, 1) {
                    Some(t) => parse_ratio_components(t),
                    None => {
                        let unit = parse_ratio_components("");
                        proof {
                            reveal_strlit("");
                        }
                        unit
                    },
                }
            };
            let before = parse_price_field(field(&fields, if fractional { 3 } else { 2 }));
            let after = parse_price_field(field(&fields, if fractional { 4 } else { 3 }));
            Some(
                SplitRecord {
                    date,
                    numerator: ratio.0,
                    denominator: ratio.1,
                    before_price: before,
                    after_price: after,
                },
            )
        },
    }
}

/// Reads a split file: the rows it records, in file order.
pub fn parse_split_file(content: &str) -> (r: Vec<SplitRecord>)
    ensures
        r@ == split_file_records(content@),
        forall|i: int|
            0 <= i < r@.len() ==> (#[trigger] r@[i]).numerator >= 1 && r@[i].denominator >= 1,
{
    let all = split_lines(content);
    let mut out: Vec<SplitRecord> = Vec::new();
    if all.len() == 0 {
        return out;
    }
    let fractional = detect_fraction_columns(all[0].as_str());
    let ghost rows = lines(content@).skip(1);
    let ghost read = |line: Seq<char>| split_row(line, fractional);
    let mut i: usize = 1;
    while i < all.len()
        invariant
            1 <= i <= all.len(),
            texts(all@) == lines(content@),
            rows == lines(content@).skip(1),
            read == (|line: Seq<char>| split_row(line, fractional)),
            out@ == rows.take(i - 1).filter_map(read),
            forall|k: int|
                0 <= k < out@.len() ==> (#[trigger] out@[k]).numerator >= 1 && out@[k].denominator
                    >= 1,
        decreases all.len() - i,
    {
        proof {
            assert(rows.take(i as int).drop_last() == rows.take(i - 1));
        }
        match parse_split_row(all[i].as_str(), fractional) {
            Some(record) => {
                out.push(record);
            },
            None => {},
        }
        i += 1;
    }
    assert(rows.take(all.len() - 1) == rows);
    out
}

/// The events of `records`, in the same order.
pub open spec fn events_of(records: Seq<SplitRecord>) -> Seq<SplitEvent> {
    records.map_values(|r: SplitRecord| r.event())
}

/// Reads the split events of a split file, oldest first; events of one date
/// keep their file order.
pub fn load_split_events(content: &str) -> (r: Vec<SplitEvent>)
    ensures
        r@ == sorted(events_of(split_file_records(content@))),
        ascending(r@),
        forall|i: int| 0 <= i < r@.len() ==> (#[trigger] r@[i]).well_formed(),
{
    let records = parse_split_file(content);
    let mut events: Vec<SplitEvent> = Vec::new();
    let mut i: usize = 0;
    while i < records.len()
        invariant
            i <= records.len(),
            events@ == events_of(records@.take(i as int)),
            forall|k: int|
                0 <= k < records@.len() ==> (#[trigger] records@[k]).numerator >= 1
                    && records@[k].denominator >= 1,
        decreases records.len() - i,
    {
        let e = records[i].to_event();
        events.push(e);
        i += 1;
    }
    assert(records@.take(records.len() as int) == records@);
    let ghost unsorted = events@;
    let out = sort_by_key(events);
    proof {
        assert forall|i: int| 0 <= i < out@.len() implies (#[trigger] out@[i]).well_formed() by {
            broadcast use vstd::seq_lib::group_to_multiset_ensures;

            assert(out@.to_multiset().contains(out@[i]));
        }
    }
    out
}

/// The split file of one symbol.
#[derive(Clone, Debug, PartialEq, Eq)]
pub struct SplitFile {
    pub ticker: String,
    pub content: String,
}

/// One entry of the split history of a portfolio.
#[derive(Clone, Debug, PartialEq, Eq)]
pub struct SplitHistoryEntry {
    pub ticker: String,
    pub split: SplitRecord,
}

impl Keyed for SplitHistoryEntry {
    /// The split history is ordered newest first.
    open spec fn key(&self) -> int {
        -(self.split.date as int)
    }

    fn sort_key(&self) -> (k: i64) {
        -(self.split.date as i64)
    }
}

/// The entries that one split file gives, in file order.
pub open spec fn file_entries(file: SplitFile) -> Seq<SplitHistoryEntry> {
    split_file_records(file.content@).map_values(
        |r: SplitRecord| SplitHistoryEntry { ticker: file.ticker, split: r },
    )
}

/// The entries that the split files give, file after file.
pub open spec fn all_entries(files: Seq<SplitFile>) -> Seq<SplitHistoryEntry>
    decreases files.len(),
{
    if files.len() == 0 {
        Seq::empty()
    } else {
        all_entries(files.drop_last()) + file_entries(files.last())
    }
}

/// The text `numerator:denominator` of a ratio, `1:1` for a ratio with a part
/// below one.
pub open spec fn ratio_text(numerator: int, denominator: int) -> Seq<char> {
    if numerator >= 1 && denominator >= 1 {
        digits_of(numerator as nat) + ":"@ + digits_of(denominator as nat)
    } else {
        "1:1"@
    }
}

/// Writes a ratio as `numerator:denominator`.
pub fn ratio_label(numerator: i64, denominator: i64) -> (r: String)
    ensures
        r@ == ratio_text(numerator as int, denominator as int),
{
    if numerator >= 1 && denominator >= 1 {
        let mut s = u64_to_string(numerator as u64);
        append_text(&mut s, ":");
        let d = u64_to_string(denominator as u64);
        append_text(&mut s, d.as_str());
        s
    } else {
        "1:1".to_owned()
    }
}

/// The split history of a portfolio: the rows of all split files, newest
/// first; rows of one date keep the order of the files and of their rows.
pub fn get_split_history(files: &Vec<SplitFile>) -> (r: Vec<SplitHistoryEntry>)
    ensures
        r@ == sorted(all_entries(files@)),
        ascending(r@),
{
    let mut entries: Vec<SplitHistoryEntry> = Vec::new();
    let mut i: usize = 0;
    while i < files.len()
        invariant
            i <= files.len(),
            entries@ == all_entries(files@.take(i as int)),
        decreases files.len() - i,
    {
        let file = &files[i];
        let records = parse_split_file(file.content.as_str());
        let ghost before = entries@;
        let mut k: usize = 0;
        while k < records.len()
            invariant
                k <= records.len(),
                records@ == split_file_records(file.content@),
                entries@ == before + file_entries(*file).take(k as int),
            decreases records.len() - k,
        {
            let entry = SplitHistoryEntry { ticker: file.ticker.clone(), split: records[k] };
            entries.push(entry);
            k += 1;
        }
        proof {
            assert(files@.take(i + 1).drop_last() == files@.take(i as int));
        }
        i += 1;
    }
    assert(files@.take(files.len() as int) == files@);
    sort_by_key(entries)
}

/// The line of a dividend in a dividend file.
pub open spec fn dividend_line(d: RawDividend, currency: Seq<char>, updated_at: Seq<char>) -> Seq<
    char,
> {
    iso_date_text(d.ex_date as int) + ","@ + amount_text(d.amount as int) + ","@ + currency + ","@
        + updated_at + "\n"@
}

/// The lines of a list of dividends.
pub open spec fn dividend_lines(
    list: Seq<RawDividend>,
    currency: Seq<char>,
    updated_at: Seq<char>,
) -> Seq<char>
    decreases list.len(),
{
    if list.len() == 0 {
        Seq::empty()
    } else {
        dividend_lines(list.drop_last(), currency, updated_at) + dividend_line(
            list.last(),
            currency,
            updated_at,
        )
    }
}

/// Whether every ex-date of `list` is a day of the calendar.
pub open spec fn all_in_calendar(list: Seq<RawDividend>) -> bool {
    forall|i: int| 0 <= i < list.len() ==> in_calendar((#[trigger] list[i]).ex_date as int)
}

/// Whether `text` is the dividend file for `dividends`: the header line, then
/// one line per ex-date, newest first, for the first dividend of that ex-date.
pub open spec fn is_dividend_file(
    text: Seq<char>,
    dividends: Seq<RawDividend>,
    currency: Seq<char>,
    updated_at: Seq<char>,
) -> bool {
    exists|list: Seq<RawDividend>|
        #![trigger is_collapsed(list, dividends)]
        is_collapsed(list, dividends) && all_in_calendar(list) && text
            == "ex_date,amount,currency,updated_at\n"@ + dividend_lines(list, currency, updated_at)
}

/// Whether `dividends` holds an ex-date that the calendar does not have.
pub open spec fn has_unwritable_date(dividends: Seq<RawDividend>) -> bool {
    exists|i: int| 0 <= i < dividends.len() && !in_calendar((#[trigger] dividends[i]).ex_date as int)
}

/// The content of the dividend file for `dividends`, which are collapsed by
/// ex-date before they are written. There is no content where an ex-date
/// cannot be written.
pub fn dividend_file_content(dividends: &Vec<RawDividend>, currency: &str, updated_at: &str) -> (r:
    Option<String>)
    ensures
        match r {
            Some(text) => is_dividend_file(text@, dividends@, currency@, updated_at@),
            None => has_unwritable_date(dividends@),
        },
{
    let list = collapse_dividends(dividends);
    let mut text = String::new();
    append_text(&mut text, "ex_date,amount,currency,updated_at\n");
    let ghost header = text@;
    let mut i: usize = 0;
    proof {
        assert(list@.take(0) == Seq::<RawDividend>::empty());
    }
    while i < list.len()
        invariant
            i <= list.len(),
            is_collapsed(list@, dividends@),
            header == "ex_date,amount,currency,updated_at\n"@,
            text@ == header + dividend_lines(list@.take(i as int), currency@, updated_at@),
            forall|k: int| 0 <= k < i ==> in_calendar((#[trigger] list@[k]).ex_date as int),
        decreases list.len() - i,
    {
        let d = list[i];
        match format_date(d.ex_date) {
            None => {
                return None;
            },
            Some(date) => {
                let amount = format_amount(d.amount);
                append_text(&mut text, date.as_str());
                append_text(&mut text, ",");
                append_text(&mut text, amount.as_str());
                append_text(&mut text, ",");
                append_text(&mut text, currency);
                append_text(&mut text, ",");
                append_text(&mut text, updated_at);
                append_text(&mut text, "\n");
                proof {
                    assert(list@.take(i + 1).drop_last() == list@.take(i as int));
                }
            },
        }
        i += 1;
    }
    assert(list@.take(list.len() as int) == list@);
    Some(text)
}

} // verus!
