//! The price store of a portfolio: one price series per symbol.

use crate::price::{merged, PriceRecord, PriceSeries};
use crate::text::same_text;
use vstd::prelude::*;

verus! {

/// The series of one symbol.
pub struct StoreEntry {
    pub symbol: String,
    pub series: PriceSeries,
}

/// Whether `entries` holds an entry for `symbol`.
pub open spec fn has_symbol(entries: Seq<StoreEntry>, symbol: Seq<char>) -> bool {
    exists|i: int| 0 <= i < entries.len() && (#[trigger] entries[i]).symbol@ == symbol
}

/// The place of the entry for `symbol`.
pub open spec fn place_of_symbol(entries: Seq<StoreEntry>, symbol: Seq<char>) -> int {
    choose|i: int| 0 <= i < entries.len() && (#[trigger] entries[i]).symbol@ == symbol
}

/// Whether no symbol has two entries.
pub open spec fn distinct_symbols(entries: Seq<StoreEntry>) -> bool {
    forall|i: int, j: int|
        0 <= i < j < entries.len() ==> (#[trigger] entries[i]).symbol@ != (#[trigger] entries[j]).symbol@
}

/// The records of `entries`, by symbol and date.
pub open spec fn store_map(entries: Seq<StoreEntry>) -> Map<Seq<char>, Map<int, PriceRecord>> {
    Map::new(
        |s: Seq<char>| has_symbol(entries, s),
        |s: Seq<char>| entries[place_of_symbol(entries, s)].series@,
    )
}

/// The records held for `symbol`, none where the store has no such symbol.
pub open spec fn series_of(
    store: Map<Seq<char>, Map<int, PriceRecord>>,
    symbol: Seq<char>,
) -> Map<int, PriceRecord> {
    if store.dom().contains(symbol) {
        store[symbol]
    } else {
        Map::empty()
    }
}

/// `records` by symbol and date; of two records of one symbol and date the
/// later wins.
pub open spec fn grouped(records: Seq<PriceRecord>) -> Map<Seq<char>, Map<int, PriceRecord>>
    decreases records.len(),
{
    if records.len() == 0 {
        Map::empty()
    } else {
        let head = grouped(records.drop_last());
        let r = records.last();
        head.insert(r.symbol@, series_of(head, r.symbol@).insert(r.date as int, r))
    }
}

/// Whether some series of the store holds a record dated `date`.
pub open spec fn holds_date(store: Map<Seq<char>, Map<int, PriceRecord>>, date: int) -> bool {
    exists|s: Seq<char>| store.dom().contains(s) && #[trigger] store[s].dom().contains(date)
}

/// Whether `r` is the oldest date of the store: none where it holds no record.
pub open spec fn is_oldest_of_store(
    store: Map<Seq<char>, Map<int, PriceRecord>>,
    r: Option<i32>,
) -> bool {
    match r {
        Some(d) => holds_date(store, d as int) && forall|s: Seq<char>, e: int|
            store.dom().contains(s) && #[trigger] store[s].dom().contains(e) ==> d <= e,
        None => forall|s: Seq<char>, e: int|
            store.dom().contains(s) ==> !#[trigger] store[s].dom().contains(e),
    }
}

/// Whether `r` is the newest date of the store: none where it holds no record.
pub open spec fn is_newest_of_store(
    store: Map<Seq<char>, Map<int, PriceRecord>>,
    r: Option<i32>,
) -> bool {
    match r {
        Some(d) => holds_date(store, d as int) && forall|s: Seq<char>, e: int|
            store.dom().contains(s) && #[trigger] store[s].dom().contains(e) ==> e <= d,
        None => forall|s: Seq<char>, e: int|
            store.dom().contains(s) ==> !#[trigger] store[s].dom().contains(e),
    }
}

/// Number of records in `entries`.
pub open spec fn row_count(entries: Seq<StoreEntry>) -> nat
    decreases entries.len(),
{
    if entries.len() == 0 {
        0
    } else {
        row_count(entries.drop_last()) + entries.last().series.records().len()
    }
}

/// Changing the series at `i` changes the map at its symbol and nowhere else.
proof fn lemma_entry_changed(before: Seq<StoreEntry>, after: Seq<StoreEntry>, i: int)
    requires
        distinct_symbols(before),
        0 <= i < before.len(),
        after.len() == before.len(),
        after[i].symbol@ == before[i].symbol@,
        forall|k: int| 0 <= k < before.len() && k != i ==> after[k] == before[k],
    ensures
        distinct_symbols(after),
        store_map(after) =~= store_map(before).insert(before[i].symbol@, after[i].series@),
{
}

/// A new entry for a new symbol adds its series to the map.
proof fn lemma_entry_added(before: Seq<StoreEntry>, e: StoreEntry)
    requires
        distinct_symbols(before),
        !has_symbol(before, e.symbol@),
    ensures
        distinct_symbols(before.push(e)),
        store_map(before.push(e)) =~= store_map(before).insert(e.symbol@, e.series@),
{
    let after = before.push(e);
    let want = store_map(before).insert(e.symbol@, e.series@);
    assert forall|s: Seq<char>| store_map(after).dom().contains(s) == want.dom().contains(s) by {
        if has_symbol(before, s) {
            let k = place_of_symbol(before, s);
            assert(after[k].symbol@ == s);
        }
        if s == e.symbol@ {
            assert(after[before.len() as int].symbol@ == s);
        }
    }
}

/// The price store: the series of every symbol of the portfolio.
pub struct PriceStore {
    entries: Vec<StoreEntry>,
}

impl View for PriceStore {
    type V = Map<Seq<char>, Map<int, PriceRecord>>;

    /// The records by symbol and date.
    open spec fn view(&self) -> Map<Seq<char>, Map<int, PriceRecord>> {
        store_map(self.entries())
    }
}

impl PriceStore {
    #[verifier::type_invariant]
    spec fn distinct(&self) -> bool {
        distinct_symbols(self.entries@)
    }

    /// The entries in stored order.
    pub closed spec fn entries(&self) -> Seq<StoreEntry> {
        self.entries@
    }

    /// A store without symbols.
    pub fn new() -> (s: PriceStore)
        ensures
            s@ =~= Map::<Seq<char>, Map<int, PriceRecord>>::empty(),
            s.entries().len() == 0,
    {
        PriceStore { entries: Vec::new() }
    }

    /// The entries, in the order in which their symbols came into the store.
    pub fn as_vec(&self) -> (r: &Vec<StoreEntry>)
        ensures
            r@ == self.entries(),
            distinct_symbols(r@),
    {
        proof {
            use_type_invariant(self);
        }
        &self.entries
    }

    fn find(entries: &Vec<StoreEntry>, symbol: &str) -> (r: Option<usize>)
        ensures
            match r {
                Some(i) => i < entries@.len() && entries@[i as int].symbol@ == symbol@,
                None => !has_symbol(entries@, symbol@),
            },
    {
        let mut i: usize = 0;
        while i < entries.len()
            invariant
                i <= entries.len(),
                forall|k: int| 0 <= k < i ==> (#[trigger] entries@[k]).symbol@ != symbol@,
            decreases entries.len() - i,
        {
            if same_text(entries[i].symbol.as_str(), symbol) {
                return Some(i);
            }
            i += 1;
        }
        None
    }

    /// The series of `symbol`, if the store has one.
    pub fn get(&self, symbol: &str) -> (r: Option<&PriceSeries>)
        ensures
            match r {
                Some(series) => self@.dom().contains(symbol@) && series@ == self@[symbol@],
                None => !self@.dom().contains(symbol@),
            },
    {
        proof {
            use_type_invariant(self);
        }
        match Self::find(&self.entries, symbol) {
            Some(i) => {
                Some(&self.entries[i].series)
            },
            None => None,
        }
    }

    /// Merges `records` into the series of `symbol`, which is created where
    /// the store has none.
    pub fn merge_into(&mut self, symbol: &str, records: Vec<PriceRecord>)
        ensures
            final(self)@ == old(self)@.insert(
                symbol@,
                merged(series_of(old(self)@, symbol@), records@),
            ),
    {
        proof {
            use_type_invariant(&*self);
        }
        let mut entries: Vec<StoreEntry> = Vec::new();
        std::mem::swap(&mut self.entries, &mut entries);
        let ghost before = entries@;
        match Self::find(&entries, symbol) {
            Some(i) => {
                let mut entry = entries.remove(i);
                entry.series.merge(records);
                entries.insert(i, entry);
                proof {
                    lemma_entry_changed(before, entries@, i as int);
                }
            },
            None => {
                let mut series = PriceSeries::new();
                series.merge(records);
                let entry = StoreEntry { symbol: symbol.to_owned(), series };
                proof {
                    lemma_entry_added(before, entry);
                }
                entries.push(entry);
            },
        }
        self.entries = entries;
    }

    /// Stores one record in the series of its symbol.
    pub fn insert_record(&mut self, record: PriceRecord)
        ensures
            final(self)@ == old(self)@.insert(
                record.symbol@,
                series_of(old(self)@, record.symbol@).insert(record.date as int, record),
            ),
    {
        proof {
            use_type_invariant(&*self);
        }
        let mut entries: Vec<StoreEntry> = Vec::new();
        std::mem::swap(&mut self.entries, &mut entries);
        let ghost before = entries@;
        match Self::find(&entries, record.symbol.as_str()) {
            Some(i) => {
                let mut entry = entries.remove(i);
                entry.series.upsert(record);
                entries.insert(i, entry);
                proof {
                    lemma_entry_changed(before, entries@, i as int);
                }
            },
            None => {
                let mut series = PriceSeries::new();
                let symbol = record.symbol.clone();
                series.upsert(record);
                let entry = StoreEntry { symbol, series };
                proof {
                    lemma_entry_added(before, entry);
                }
                entries.push(entry);
            },
        }
        self.entries = entries;
    }

    /// The store that holds `records`, each in the series of its symbol.
    pub fn from_records(records: Vec<PriceRecord>) -> (s: PriceStore)
        ensures
            s@ == grouped(records@),
    {
        let mut store = PriceStore::new();
        let ghost all = records@;
        for record in it: records
            invariant
                it.seq() == all,
                store@ == grouped(all.take(it.index() as int)),
        {
            proof {
                assert(all.take(it.index() + 1).drop_last() == all.take(it.index() as int));
            }
            store.insert_record(record);
        }
        assert(all.take(all.len() as int) == all);
        store
    }

    /// Number of records over all symbols.
    pub fn total_rows(&self) -> (n: u128)
        ensures
            n == row_count(self.entries()),
    {
        let mut n: u128 = 0;
        let mut i: usize = 0;
        while i < self.entries.len()
            invariant
                i <= self.entries.len(),
                n == row_count(self.entries@.take(i as int)),
                n <= i * 0x1_0000_0000_0000_0000,
            decreases self.entries.len() - i,
        {
            assert(self.entries@.take(i + 1).drop_last() == self.entries@.take(i as int));
            let len = self.entries[i].series.len();
            n = n + len as u128;
            i += 1;
        }
        assert(self.entries@.take(self.entries.len() as int) == self.entries@);
        n
    }

    /// The oldest date of all records of the store.
    pub fn oldest_date(&self) -> (r: Option<i32>)
        ensures
            is_oldest_of_store(self@, r),
    {
        proof {
            use_type_invariant(self);
        }
        let mut best: Option<i32> = None;
        let mut i: usize = 0;
        while i < self.entries.len()
            invariant
                i <= self.entries.len(),
                distinct_symbols(self.entries@),
                match best {
                    Some(d) => (exists|k: int|
                        0 <= k < i && (#[trigger] self.entries@[k]).series@.dom().contains(d as int))
                        && forall|k: int, e: int|
                        0 <= k < i && #[trigger] self.entries@[k].series@.dom().contains(e) ==> d
                            <= e,
                    None => forall|k: int, e: int|
                        0 <= k < i ==> !#[trigger] self.entries@[k].series@.dom().contains(e),
                },
            decreases self.entries.len() - i,
        {
            let here = self.entries[i].series.earliest_date();
            best = match (best, here) {
                (Some(b), Some(h)) => if h < b {
                    Some(h)
                } else {
                    Some(b)
                },
                (Some(b), None) => Some(b),
                (None, Some(h)) => Some(h),
                (None, None) => None,
            };
            i += 1;
        }
        proof {
            assert forall|k: int| 0 <= k < self.entries@.len() implies self@.dom().contains(
                (#[trigger] self.entries@[k]).symbol@,
            ) && self@[self.entries@[k].symbol@] == self.entries@[k].series@ by {
            }
        }
        best
    }

    /// The newest date of all records of the store.
    pub fn newest_date(&self) -> (r: Option<i32>)
        ensures
            is_newest_of_store(self@, r),
    {
        proof {
            use_type_invariant(self);
        }
        let mut best: Option<i32> = None;
        let mut i: usize = 0;
        while i < self.entries.len()
            invariant
                i <= self.entries.len(),
                distinct_symbols(self.entries@),
                match best {
                    Some(d) => (exists|k: int|
                        0 <= k < i && (#[trigger] self.entries@[k]).series@.dom().contains(d as int))
                        && forall|k: int, e: int|
                        0 <= k < i && #[trigger] self.entries@[k].series@.dom().contains(e) ==> e
                            <= d,
                    None => forall|k: int, e: int|
                        0 <= k < i ==> !#[trigger] self.entries@[k].series@.dom().contains(e),
                },
            decreases self.entries.len() - i,
        {
            let here = self.entries[i].series.latest_date();
            best = match (best, here) {
                (Some(b), Some(h)) => if h > b {
                    Some(h)
                } else {
                    Some(b)
                },
                (Some(b), None) => Some(b),
                (None, Some(h)) => Some(h),
                (None, None) => None,
            };
            i += 1;
        }
        proof {
            assert forall|k: int| 0 <= k < self.entries@.len() implies self@.dom().contains(
                (#[trigger] self.entries@[k]).symbol@,
            ) && self@[self.entries@[k].symbol@] == self.entries@[k].series@ by {
            }
        }
        best
    }
}

} // verus!
