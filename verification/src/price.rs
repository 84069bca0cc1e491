//! The price store: one daily record per date, newest first.

use vstd::prelude::*;

verus! {

/// One day's prices of one security. Amounts are in millionths.
#[derive(Clone, Debug, PartialEq, Eq)]
pub struct PriceRecord {
    pub symbol: String,
    pub date: i32,
    pub close: i64,
    pub open: Option<i64>,
    pub high: Option<i64>,
    pub low: Option<i64>,
    pub volume: Option<i64>,
    pub adjusted_close: Option<i64>,
    pub split_unadjusted_close: Option<i64>,
    pub source: String,
}

/// What a price record holds, with its texts as character sequences.
pub ghost struct PriceRow {
    pub symbol: Seq<char>,
    pub date: i32,
    pub close: i64,
    pub open: Option<i64>,
    pub high: Option<i64>,
    pub low: Option<i64>,
    pub volume: Option<i64>,
    pub adjusted_close: Option<i64>,
    pub split_unadjusted_close: Option<i64>,
    pub source: Seq<char>,
}

impl View for PriceRecord {
    type V = PriceRow;

    open spec fn view(&self) -> PriceRow {
        PriceRow {
            symbol: self.symbol@,
            date: self.date,
            close: self.close,
            open: self.open,
            high: self.high,
            low: self.low,
            volume: self.volume,
            adjusted_close: self.adjusted_close,
            split_unadjusted_close: self.split_unadjusted_close,
            source: self.source@,
        }
    }
}

/// The rows of a sequence of records.
pub open spec fn rows_of(records: Seq<PriceRecord>) -> Seq<PriceRow> {
    records.map_values(|r: PriceRecord| r@)
}

impl PriceRecord {
    /// A copy of the record.
    pub fn duplicate(&self) -> (r: PriceRecord)
        ensures
            r == *self,
    {
        PriceRecord {
            symbol: self.symbol.clone(),
            date: self.date,
            close: self.close,
            open: self.open,
            high: self.high,
            low: self.low,
            volume: self.volume,
            adjusted_close: self.adjusted_close,
            split_unadjusted_close: self.split_unadjusted_close,
            source: self.source.clone(),
        }
    }
}

/// The records of `records` by date; of two records of one date the later wins.
pub open spec fn by_date(records: Seq<PriceRecord>) -> Map<int, PriceRecord>
    decreases records.len(),
{
    if records.len() == 0 {
        Map::empty()
    } else {
        by_date(records.drop_last()).insert(records.last().date as int, records.last())
    }
}

/// Whether some record of `records` is dated `date`.
pub open spec fn has_date(records: Seq<PriceRecord>, date: int) -> bool {
    exists|i: int| 0 <= i < records.len() && (#[trigger] records[i]).date == date
}

/// The dates that occur in `records`.
pub open spec fn date_set(records: Seq<PriceRecord>) -> Set<int> {
    Set::new(|d: int| has_date(records, d))
}

/// Whether the dates of `records` strictly decrease: newest first, and no date twice.
pub open spec fn newest_first(records: Seq<PriceRecord>) -> bool {
    forall|i: int, j: int| 0 <= i < j < records.len() ==> records[i].date > records[j].date
}

/// What a store holding `existing` holds after `incoming` has been merged into it.
pub open spec fn merged(existing: Map<int, PriceRecord>, incoming: Seq<PriceRecord>) -> Map<
    int,
    PriceRecord,
> {
    existing.union_prefer_right(by_date(incoming))
}

/// The dates of `by_date(records)` are those that occur in `records`.
pub proof fn lemma_by_date_dom(records: Seq<PriceRecord>)
    ensures
        by_date(records).dom() =~= date_set(records),
    decreases records.len(),
{
    if records.len() > 0 {
        let head = records.drop_last();
        lemma_by_date_dom(head);
        assert forall|d: int| by_date(records).dom().contains(d) == has_date(records, d) by {
            if d == records.last().date {
            } else if has_date(head, d) {
            } else if has_date(records, d) {
                let i = choose|i: int| 0 <= i < records.len() && (#[trigger] records[i]).date == d;
                assert(head[i].date == d);
            }
        }
    }
}

/// `by_date` yields, for a date, the last record of that date.
pub proof fn lemma_by_date_last(records: Seq<PriceRecord>, i: int)
    requires
        0 <= i < records.len(),
        forall|j: int| i < j < records.len() ==> records[j].date != records[i].date,
    ensures
        by_date(records).dom().contains(records[i].date as int),
        by_date(records)[records[i].date as int] == records[i],
    decreases records.len(),
{
    if i < records.len() - 1 {
        let head = records.drop_last();
        lemma_by_date_last(head, i);
    }
}

/// Where no date occurs twice, there are as many dates as records.
pub proof fn lemma_by_date_len(records: Seq<PriceRecord>)
    requires
        newest_first(records),
    ensures
        by_date(records).dom().finite(),
        by_date(records).dom().len() == records.len(),
    decreases records.len(),
{
    if records.len() > 0 {
        let head = records.drop_last();
        lemma_by_date_len(head);
        lemma_by_date_dom(head);
        let d = records.last().date as int;
    }
}

/// Putting a record of a new date at its place adds it to the map.
pub proof fn lemma_insert_record(records: Seq<PriceRecord>, p: int, r: PriceRecord)
    requires
        newest_first(records),
        0 <= p <= records.len(),
        forall|j: int| 0 <= j < p ==> (#[trigger] records[j]).date > r.date,
        forall|j: int| p <= j < records.len() ==> (#[trigger] records[j]).date < r.date,
    ensures
        newest_first(records.insert(p, r)),
        by_date(records.insert(p, r)) =~= by_date(records).insert(r.date as int, r),
{
    let out = records.insert(p, r);
    assert forall|i: int| 0 <= i < records.len() && (#[trigger] records[i]).date != r.date implies out.contains(
        records[i],
    ) by {
        let k = if i < p { i } else { i + 1 };
        assert(out[k] == records[i]);
    }
    lemma_same_map(records, out, r, p);
}

/// Replacing the record of a date by another of that date replaces it in the map.
pub proof fn lemma_replace_record(records: Seq<PriceRecord>, p: int, r: PriceRecord)
    requires
        newest_first(records),
        0 <= p < records.len(),
        records[p].date == r.date,
    ensures
        newest_first(records.update(p, r)),
        by_date(records.update(p, r)) =~= by_date(records).insert(r.date as int, r),
{
    let out = records.update(p, r);
    assert forall|i: int| 0 <= i < records.len() && (#[trigger] records[i]).date != r.date implies out.contains(
        records[i],
    ) by {
        assert(out[i] == records[i]);
    }
    lemma_same_map(records, out, r, p);
}

/// The map of `out` is that of `records` with `r` put in, where `out` holds
/// `r` at `p`, every record of `records` of another date, and nothing else.
proof fn lemma_same_map(records: Seq<PriceRecord>, out: Seq<PriceRecord>, r: PriceRecord, p: int)
    requires
        newest_first(records),
        newest_first(out),
        0 <= p < out.len(),
        out[p] == r,
        forall|i: int|
            0 <= i < records.len() && (#[trigger] records[i]).date != r.date ==> out.contains(
                records[i],
            ),
        forall|k: int| 0 <= k < out.len() && k != p ==> records.contains(#[trigger] out[k]),
    ensures
        by_date(out) =~= by_date(records).insert(r.date as int, r),
{
    let want = by_date(records).insert(r.date as int, r);
    lemma_by_date_dom(records);
    lemma_by_date_dom(out);
    assert forall|d: int| by_date(out).dom().contains(d) implies by_date(out)[d] == want[d] by {
        let k = choose|k: int| 0 <= k < out.len() && (#[trigger] out[k]).date == d;
        lemma_by_date_last(out, k);
        if k != p {
            let i = choose|i: int| 0 <= i < records.len() && records[i] == out[k];
            lemma_by_date_last(records, i);
        }
    }
}

/// Whether `r` is the oldest date of `m`: none where `m` holds no record.
pub open spec fn is_oldest_date(m: Map<int, PriceRecord>, r: Option<i32>) -> bool {
    match r {
        Some(d) => m.dom().contains(d as int) && forall|e: int| m.dom().contains(e) ==> d <= e,
        None => m.dom() =~= Set::<int>::empty(),
    }
}

/// Whether `r` is the newest date of `m`: none where `m` holds no record.
pub open spec fn is_newest_date(m: Map<int, PriceRecord>, r: Option<i32>) -> bool {
    match r {
        Some(d) => m.dom().contains(d as int) && forall|e: int| m.dom().contains(e) ==> e <= d,
        None => m.dom() =~= Set::<int>::empty(),
    }
}

/// Whether `m` holds a record dated `earliest` or before.
pub open spec fn reaches_back_to(m: Map<int, PriceRecord>, earliest: int) -> bool {
    exists|d: int| m.dom().contains(d) && d <= earliest
}

/// The stored history of one security: at most one record per date.
pub struct PriceSeries {
    records: Vec<PriceRecord>,
}

impl View for PriceSeries {
    type V = Map<int, PriceRecord>;

    /// The records by date.
    open spec fn view(&self) -> Map<int, PriceRecord> {
        by_date(self.records())
    }
}

/// The place in `records` of the first record dated `date` or before, or
/// their number where every record is newer.
fn locate(records: &Vec<PriceRecord>, date: i32) -> (p: usize)
    requires
        newest_first(records@),
    ensures
        p <= records@.len(),
        forall|j: int| 0 <= j < p ==> (#[trigger] records@[j]).date > date,
        forall|j: int| p <= j < records@.len() ==> (#[trigger] records@[j]).date <= date,
{
    let mut lo: usize = 0;
    let mut hi: usize = records.len();
    while lo < hi
        invariant
            lo <= hi <= records.len(),
            newest_first(records@),
            forall|j: int| 0 <= j < lo ==> (#[trigger] records@[j]).date > date,
            forall|j: int| hi <= j < records@.len() ==> (#[trigger] records@[j]).date <= date,
        decreases hi - lo,
    {
        let mid = lo + (hi - lo) / 2;
        if records[mid].date > date {
            lo = mid + 1;
        } else {
            hi = mid;
        }
    }
    lo
}

impl PriceSeries {
    #[verifier::type_invariant]
    spec fn ordered(&self) -> bool {
        newest_first(self.records@)
    }

    /// The records in stored order.
    pub closed spec fn records(&self) -> Seq<PriceRecord> {
        self.records@
    }

    /// What holds of every series that the library hands out: the records are
    /// stored newest first, and no date occurs twice.
    pub open spec fn valid(&self) -> bool {
        newest_first(self.records())
    }

    /// A series without records.
    pub fn new() -> (s: PriceSeries)
        ensures
            s.records() == Seq::<PriceRecord>::empty(),
            s@ == Map::<int, PriceRecord>::empty(),
            s.valid(),
    {
        PriceSeries { records: Vec::new() }
    }

    /// The records, newest first.
    pub fn as_vec(&self) -> (r: &Vec<PriceRecord>)
        ensures
            r@ == self.records(),
            newest_first(r@),
    {
        proof {
            use_type_invariant(self);
        }
        &self.records
    }

    /// Number of records, which is the number of dates.
    pub fn len(&self) -> (n: usize)
        ensures
            n == self.records().len(),
            self@.dom().finite(),
            n == self@.dom().len(),
    {
        proof {
            use_type_invariant(self);
            lemma_by_date_len(self.records@);
        }
        self.records.len()
    }

    /// Stores `record`, in place of the record of its date if there is one.
    pub fn upsert(&mut self, record: PriceRecord)
        ensures
            final(self)@ == old(self)@.insert(record.date as int, record),
            final(self).valid(),
    {
        proof {
            use_type_invariant(&*self);
        }
        let mut records: Vec<PriceRecord> = Vec::new();
        std::mem::swap(&mut self.records, &mut records);
        let n = records.len();
        let p = locate(&records, record.date);
        if p < n && records[p].date == record.date {
            proof {
                lemma_replace_record(records@, p as int, record);
            }
            records.set(p, record);
        } else {
            proof {
                lemma_insert_record(records@, p as int, record);
            }
            records.insert(p, record);
        }
        self.records = records;
    }

    /// Merges `incoming` into the series: a record replaces the stored record
    /// of its date, and of two incoming records of one date the later stays.
    pub fn merge(&mut self, incoming: Vec<PriceRecord>)
        ensures
            final(self)@ == merged(old(self)@, incoming@),
            final(self).valid(),
    {
        let ghost all = incoming@;
        proof {
            use_type_invariant(&*self);
        }
        for record in it: incoming
            invariant
                it.seq() == all,
                self@ == merged(old(self)@, all.take(it.index() as int)),
                self.valid(),
        {
            proof {
                let k = it.index() as int;
                assert(all.take(k + 1).drop_last() == all.take(k));
            }
            self.upsert(record);
        }
        proof {
            assert(all.take(all.len() as int) == all);
        }
    }

    /// The series that holds `records`; of two records of one date the later stays.
    pub fn from_records(records: Vec<PriceRecord>) -> (s: PriceSeries)
        ensures
            s@ == by_date(records@),
            s.valid(),
    {
        let mut s = PriceSeries::new();
        s.merge(records);
        s
    }

    /// The oldest date of the series.
    pub fn earliest_date(&self) -> (r: Option<i32>)
        ensures
            is_oldest_date(self@, r),
    {
        proof {
            use_type_invariant(self);
            lemma_by_date_dom(self.records@);
        }
        let n = self.records.len();
        if n == 0 {
            None
        } else {
            let d = self.records[n - 1].date;
            Some(d)
        }
    }

    /// The newest date of the series.
    pub fn latest_date(&self) -> (r: Option<i32>)
        ensures
            is_newest_date(self@, r),
    {
        proof {
            use_type_invariant(self);
            lemma_by_date_dom(self.records@);
        }
        let n = self.records.len();
        if n == 0 {
            None
        } else {
            let d = self.records[0].date;
            Some(d)
        }
    }

    /// Copies of the records, oldest first.
    pub fn oldest_first(&self) -> (r: Vec<PriceRecord>)
        ensures
            r@ == self.records().reverse(),
    {
        let mut out: Vec<PriceRecord> = Vec::new();
        let mut i: usize = self.records.len();
        while i > 0
            invariant
                i <= self.records.len(),
                out@ == self.records@.reverse().take(self.records.len() - i),
            decreases i,
        {
            i -= 1;
            let copy = self.records[i].duplicate();
            out.push(copy);
        }
        out
    }

    /// Whether history back to `earliest` is still to be fetched: it is, unless
    /// the series holds a record dated `earliest` or before.
    pub fn needs_fetch(&self, earliest: i32) -> (r: bool)
        ensures
            r == !reaches_back_to(self@, earliest as int),
    {
        match self.earliest_date() {
            Some(d) => {
                d > earliest
            },
            None => {
                true
            },
        }
    }

    /// Whether the series holds a record dated `date`.
    pub fn contains_date(&self, date: i32) -> (r: bool)
        ensures
            r == self@.dom().contains(date as int),
    {
        proof {
            use_type_invariant(self);
            lemma_by_date_dom(self.records@);
        }
        let p = locate(&self.records, date);
        if p < self.records.len() && self.records[p].date == date {
            true
        } else {
            false
        }
    }
}

/// Merging a fetched series into a stored one yields exactly one record per
/// date: the dates of the result are those of the stored series together with
/// those of the fetched records, the result has as many records as there are
/// such dates, a date that was fetched holds the last record fetched for it,
/// and every other date keeps its stored record.
pub proof fn law_merge_keeps_one_record_per_date(
    stored: PriceSeries,
    fetched: Seq<PriceRecord>,
    result: PriceSeries,
)
    requires
        result.valid(),
        result@ == merged(stored@, fetched),
    ensures
        result@.dom() =~= date_set(stored.records()).union(date_set(fetched)),
        result@.dom().finite(),
        result.records().len() == date_set(stored.records()).union(date_set(fetched)).len(),
        forall|i: int, j: int|
            0 <= i < j < result.records().len() ==> result.records()[i].date
                != result.records()[j].date,
        forall|i: int|
            0 <= i < fetched.len() && (forall|j: int|
                i < j < fetched.len() ==> fetched[j].date != fetched[i].date) ==> result@[(
            #[trigger] fetched[i]).date as int] == fetched[i],
        forall|d: int|
            stored@.dom().contains(d) && !has_date(fetched, d) ==> #[trigger] result@[d]
                == stored@[d],
{
    lemma_by_date_dom(stored.records());
    lemma_by_date_dom(fetched);
    lemma_by_date_len(result.records());
    assert forall|i: int|
        0 <= i < fetched.len() && (forall|j: int|
            i < j < fetched.len() ==> fetched[j].date != fetched[i].date) implies result@[(
    #[trigger] fetched[i]).date as int] == fetched[i] by {
        lemma_by_date_last(fetched, i);
    }
}

} // verus!
