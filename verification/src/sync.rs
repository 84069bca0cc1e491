//! The sync orchestrator: which symbols need history from which date, what
//! to do next, and what a fetch result does to the store. The caller sends
//! the requests; a failure concerns its symbol alone.

use crate::calendar::{parse_date, parsed_iso_date};
use crate::fetch::{chart_window, request_window, FetchError, FetchedHistory, RawDividend};
use crate::position::Transaction;
use crate::price::{merged, reaches_back_to, PriceRecord};
use crate::store::{series_of, PriceStore};
use crate::symbol::{get_exchange_and_symbol, provider_symbol, resolved, yahoo_symbol_for};
use crate::text::{same_text, trim, trimmed};
use vstd::prelude::*;

verus! {

/// A symbol of the portfolio and the date from which it needs history.
#[derive(Clone, Debug, PartialEq, Eq)]
pub struct SymbolPlan {
    pub symbol: String,
    /// The earliest transaction date; none where a transaction of the symbol
    /// has a date that cannot be read.
    pub earliest: Option<i32>,
}

/// What a plan holds, with its symbol as a character sequence.
pub ghost struct PlanRow {
    pub symbol: Seq<char>,
    pub earliest: Option<i32>,
}

impl View for SymbolPlan {
    type V = PlanRow;

    open spec fn view(&self) -> PlanRow {
        PlanRow { symbol: self.symbol@, earliest: self.earliest }
    }
}

/// The rows of a list of plans.
pub open spec fn plan_rows(plans: Seq<SymbolPlan>) -> Seq<PlanRow> {
    plans.map_values(|p: SymbolPlan| p@)
}

/// One request for history.
#[derive(Clone, Debug, PartialEq, Eq)]
pub struct FetchRequest {
    /// The symbol as the portfolio writes it; the records are labelled with it.
    pub symbol: String,
    /// The symbol as the provider wants it.
    pub provider_symbol: String,
    /// First day asked for.
    pub start: i32,
    /// Last day asked for.
    pub end: i32,
    /// Unix timestamp of the first second asked for.
    pub period1: i64,
    /// Unix timestamp of the last second asked for.
    pub period2: i64,
}

/// What a request holds, with its texts as character sequences.
pub ghost struct RequestRow {
    pub symbol: Seq<char>,
    pub provider_symbol: Seq<char>,
    pub start: i32,
    pub end: i32,
    pub period1: i64,
    pub period2: i64,
}

impl View for FetchRequest {
    type V = RequestRow;

    open spec fn view(&self) -> RequestRow {
        RequestRow {
            symbol: self.symbol@,
            provider_symbol: self.provider_symbol@,
            start: self.start,
            end: self.end,
            period1: self.period1,
            period2: self.period2,
        }
    }
}

/// How the sync of one symbol ended.
#[derive(Clone, Debug, PartialEq, Eq)]
pub enum SymbolOutcome {
    /// The store already reached back to the earliest transaction.
    UpToDate,
    /// A transaction of the symbol has a date that cannot be read.
    InvalidDate,
    /// History was fetched: so many records were merged, and these dividends came with them.
    Synced { new_records: usize, dividends: Vec<RawDividend> },
    /// The provider does not serve the symbol.
    Skipped,
    /// The fetch failed.
    Failed(FetchError),
}

/// What the caller is to do next.
#[derive(Clone, Debug, PartialEq, Eq)]
pub enum SyncAction {
    /// Send this request and hand in its result.
    Fetch(FetchRequest),
    /// Every symbol is done: write the store out.
    Flush,
}

/// Place of the first plan for `symbol`, or the number of plans where there is none.
pub open spec fn first_plan(plans: Seq<PlanRow>, symbol: Seq<char>) -> int
    decreases plans.len(),
{
    if plans.len() == 0 || plans[0].symbol == symbol {
        0
    } else {
        1 + first_plan(plans.drop_first(), symbol)
    }
}

/// The earlier of two dates; none where one of them could not be read.
pub open spec fn earlier(a: Option<i32>, b: Option<i32>) -> Option<i32> {
    match (a, b) {
        (Some(x), Some(y)) => if y < x {
            Some(y)
        } else {
            Some(x)
        },
        _ => None,
    }
}

/// The date of a transaction, none where it cannot be read.
pub open spec fn date_of(t: Transaction) -> Option<i32> {
    match parsed_iso_date(trimmed(t.date@)) {
        Some(d) => Some(d as i32),
        None => None,
    }
}

/// The plans after one more transaction. A transaction without stock changes
/// nothing; any other opens the plan of its stock (the stock without
/// surrounding white space) or moves that plan's date.
pub open spec fn plan_step(plans: Seq<PlanRow>, t: Transaction) -> Seq<PlanRow> {
    let symbol = trimmed(t.stock@);
    if symbol.len() == 0 {
        plans
    } else {
        let k = first_plan(plans, symbol);
        if 0 <= k < plans.len() {
            plans.update(k, PlanRow { symbol, earliest: earlier(plans[k].earliest, date_of(t)) })
        } else {
            plans.push(PlanRow { symbol, earliest: date_of(t) })
        }
    }
}

/// The plans for a list of transactions: one per symbol, in the order in
/// which the symbols first occur, each with the earliest date of its
/// transactions.
pub open spec fn plans_of(transactions: Seq<Transaction>) -> Seq<PlanRow>
    decreases transactions.len(),
{
    if transactions.len() == 0 {
        Seq::empty()
    } else {
        plan_step(plans_of(transactions.drop_last()), transactions.last())
    }
}

/// Whether the symbol of `plan` needs a fetch.
pub open spec fn needs_fetch(store: Map<Seq<char>, Map<int, PriceRecord>>, plan: PlanRow) -> bool {
    match plan.earliest {
        Some(earliest) => !reaches_back_to(series_of(store, plan.symbol), earliest as int),
        None => false,
    }
}

/// The outcome for a symbol that needs no fetch.
pub open spec fn settled(plan: PlanRow) -> SymbolOutcome {
    match plan.earliest {
        Some(_) => SymbolOutcome::UpToDate,
        None => SymbolOutcome::InvalidDate,
    }
}

/// Place of the first plan from `from` on that needs a fetch, or the number
/// of plans where none does.
pub open spec fn next_fetch(
    plans: Seq<PlanRow>,
    store: Map<Seq<char>, Map<int, PriceRecord>>,
    from: int,
) -> int
    decreases plans.len() - from,
{
    if 0 <= from < plans.len() && !needs_fetch(store, plans[from]) {
        next_fetch(plans, store, from + 1)
    } else {
        from
    }
}

/// The outcomes of the plans `from..to`, none of which needs a fetch.
pub open spec fn settled_between(plans: Seq<PlanRow>, from: int, to: int) -> Seq<SymbolOutcome> {
    Seq::new((to - from) as nat, |i: int| settled(plans[from + i]))
}

/// The request for the history of `plan` up to `today`.
pub open spec fn request_for(plan: PlanRow, today: i32) -> RequestRow {
    let start = plan.earliest.unwrap();
    RequestRow {
        symbol: plan.symbol,
        provider_symbol: provider_symbol(resolved(plan.symbol).0, resolved(plan.symbol).1),
        start,
        end: today,
        period1: request_window(start as int, today as int).0 as i64,
        period2: request_window(start as int, today as int).1 as i64,
    }
}

proof fn lemma_first_plan(plans: Seq<PlanRow>, symbol: Seq<char>, k: int)
    requires
        0 <= k <= plans.len(),
        forall|j: int| 0 <= j < k ==> (#[trigger] plans[j]).symbol != symbol,
        k == plans.len() || plans[k].symbol == symbol,
    ensures
        first_plan(plans, symbol) == k,
    decreases plans.len(),
{
    if plans.len() == 0 || plans[0].symbol == symbol {
    } else {
        let rest = plans.drop_first();
        lemma_first_plan(rest, symbol, k - 1);
    }
}

/// The plans for a list of transactions.
pub fn plan_symbols(transactions: &Vec<Transaction>) -> (r: Vec<SymbolPlan>)
    ensures
        plan_rows(r@) == plans_of(transactions@),
{
    let mut out: Vec<SymbolPlan> = Vec::new();
    let mut i: usize = 0;
    while i < transactions.len()
        invariant
            i <= transactions.len(),
            plan_rows(out@) == plans_of(transactions@.take(i as int)),
        decreases transactions.len() - i,
    {
        let t = &transactions[i];
        proof {
            assert(transactions@.take(i + 1).drop_last() == transactions@.take(i as int));
        }
        let symbol = trim(t.stock.as_str());
        if symbol.as_str().unicode_len() > 0 {
            let date = parse_date(t.date.as_str());
            let ghost rows = plan_rows(out@);
            let mut k: usize = 0;
            while k < out.len() && !same_text(out[k].symbol.as_str(), symbol.as_str())
                invariant
                    k <= out.len(),
                    rows == plan_rows(out@),
                    forall|j: int| 0 <= j < k ==> (#[trigger] rows[j]).symbol != symbol@,
                decreases out.len() - k,
            {
                k += 1;
            }
            proof {
                lemma_first_plan(rows, symbol@, k as int);
            }
            if k < out.len() {
                let old = out.remove(k);
                let earliest = match (old.earliest, date) {
                    (Some(x), Some(y)) => if y < x {
                        Some(y)
                    } else {
                        Some(x)
                    },
                    _ => None,
                };
                let updated = SymbolPlan { symbol: old.symbol, earliest };
                out.insert(k, updated);
            } else {
                let entry = SymbolPlan { symbol, earliest: date };
                out.push(entry);
            }
        }
        i += 1;
    }
    assert(transactions@.take(transactions.len() as int) == transactions@);
    out
}

/// Whether the store still lacks history of `plan`.
pub fn plan_needs_fetch(store: &PriceStore, plan: &SymbolPlan) -> (r: bool)
    ensures
        r == needs_fetch(store@, plan@),
{
    match plan.earliest {
        None => false,
        Some(earliest) => match store.get(plan.symbol.as_str()) {
            Some(series) => series.needs_fetch(earliest),
            None => {
                true
            },
        },
    }
}

/// The request for the history of a plan that has a date, up to `today`.
pub fn build_request(plan: &SymbolPlan, today: i32) -> (r: Option<FetchRequest>)
    ensures
        match r {
            Some(request) => plan.earliest is Some && request@ == request_for(plan@, today),
            None => plan.earliest is None,
        },
{
    match plan.earliest {
        None => None,
        Some(start) => {
            let (exchange, base) = get_exchange_and_symbol(plan.symbol.as_str());
            let provider = match &exchange {
                Some(e) => yahoo_symbol_for(Some(e.as_str()), base.as_str()),
                None => yahoo_symbol_for(None, base.as_str()),
            };
            let (period1, period2) = chart_window(start, today);
            Some(
                FetchRequest {
                    symbol: plan.symbol.clone(),
                    provider_symbol: provider,
                    start,
                    end: today,
                    period1,
                    period2,
                },
            )
        },
    }
}

/// The outcome of a fetch that failed.
pub open spec fn failure_outcome(e: FetchError) -> SymbolOutcome {
    if e == FetchError::Restricted {
        SymbolOutcome::Skipped
    } else {
        SymbolOutcome::Failed(e)
    }
}

/// A run over the symbols of a portfolio.
pub struct SyncRun {
    /// The symbols, in the order in which they are synced.
    pub plans: Vec<SymbolPlan>,
    /// Number of symbols that are done.
    pub position: usize,
    /// The store, which takes up what is fetched.
    pub store: PriceStore,
    /// The outcome of every symbol that is done.
    pub outcomes: Vec<SymbolOutcome>,
    /// The last day to ask for.
    pub today: i32,
}

impl SyncRun {
    /// A run that has done nothing yet.
    pub fn start(transactions: &Vec<Transaction>, store: PriceStore, today: i32) -> (run: SyncRun)
        ensures
            plan_rows(run.plans@) == plans_of(transactions@),
            run.position == 0,
            run.store == store,
            run.outcomes@.len() == 0,
            run.today == today,
    {
        SyncRun {
            plans: plan_symbols(transactions),
            position: 0,
            store,
            outcomes: Vec::new(),
            today,
        }
    }

    /// Settles every symbol that needs no fetch, up to the first one that
    /// does, and says what to do next: to fetch for that symbol, or, where no
    /// symbol is left, to write the store out.
    pub fn next_action(&mut self) -> (action: SyncAction)
        ensures
            final(self).plans == old(self).plans,
            final(self).store == old(self).store,
            final(self).today == old(self).today,
            final(self).position == next_fetch(
                plan_rows(old(self).plans@),
                old(self).store@,
                old(self).position as int,
            ),
            final(self).outcomes@ == old(self).outcomes@ + settled_between(
                plan_rows(old(self).plans@),
                old(self).position as int,
                final(self).position as int,
            ),
            match action {
                SyncAction::Fetch(request) => final(self).position < final(self).plans@.len()
                    && request@ == request_for(
                    final(self).plans@[final(self).position as int]@,
                    final(self).today,
                ),
                SyncAction::Flush => final(self).position >= final(self).plans@.len(),
            },
    {
        let ghost rows = plan_rows(self.plans@);
        let ghost from = self.position as int;
        while self.position < self.plans.len() && !plan_needs_fetch(
            &self.store,
            &self.plans[self.position],
        )
            invariant
                self.plans == old(self).plans,
                self.store == old(self).store,
                self.today == old(self).today,
                rows == plan_rows(self.plans@),
                from <= self.position,
                next_fetch(rows, self.store@, from) == next_fetch(
                    rows,
                    self.store@,
                    self.position as int,
                ),
                self.outcomes@ == old(self).outcomes@ + settled_between(
                    rows,
                    from,
                    self.position as int,
                ),
            decreases self.plans@.len() - self.position,
        {
            let outcome = match self.plans[self.position].earliest {
                Some(_) => SymbolOutcome::UpToDate,
                None => SymbolOutcome::InvalidDate,
            };
            self.outcomes.push(outcome);
            self.position = self.position + 1;
        }
        if self.position < self.plans.len() {
            match build_request(&self.plans[self.position], self.today) {
                Some(request) => SyncAction::Fetch(request),
                None => SyncAction::Flush,
            }
        } else {
            SyncAction::Flush
        }
    }

    /// Takes the result of the fetch that `next_action` asked for. Fetched
    /// records are merged into the store under the symbol, the outcome is
    /// noted, and the run moves on to the next symbol. A failure leaves the
    /// store as it is. Nothing happens, and `false` is returned, where no
    /// symbol is left.
    pub fn record(&mut self, result: Result<FetchedHistory, FetchError>) -> (accepted: bool)
        ensures
            final(self).plans == old(self).plans,
            final(self).today == old(self).today,
            accepted == (old(self).position < old(self).plans@.len()),
            !accepted ==> final(self).position == old(self).position && final(self).store == old(
                self,
            ).store && final(self).outcomes == old(self).outcomes,
            accepted ==> {
                &&& final(self).position == old(self).position + 1
                &&& final(self).store@ == store_after(
                    old(self).store@,
                    old(self).plans@[old(self).position as int].symbol@,
                    result,
                )
                &&& final(self).outcomes@.len() == old(self).outcomes@.len() + 1
                &&& final(self).outcomes@.drop_last() == old(self).outcomes@
                &&& is_outcome_of(final(self).outcomes@.last(), result)
            },
    {
        if self.position >= self.plans.len() {
            return false;
        }
        let outcome = match result {
            Ok(history) => {
                let count = history.records.len();
                if count > 0 {
                    self.store.merge_into(self.plans[self.position].symbol.as_str(), history.records);
                    SymbolOutcome::Synced { new_records: count, dividends: history.dividends }
                } else {
                    SymbolOutcome::Synced { new_records: 0, dividends: Vec::new() }
                }
            },
            Err(e) => {
                if e == FetchError::Restricted {
                    SymbolOutcome::Skipped
                } else {
                    SymbolOutcome::Failed(e)
                }
            },
        };
        self.outcomes.push(outcome);
        self.position = self.position + 1;
        true
    }
}

/// The store after the result of a fetch for `symbol`: fetched records are
/// merged into the series of the symbol; nothing changes where the fetch
/// failed or brought no record.
pub open spec fn store_after(
    store: Map<Seq<char>, Map<int, PriceRecord>>,
    symbol: Seq<char>,
    result: Result<FetchedHistory, FetchError>,
) -> Map<Seq<char>, Map<int, PriceRecord>> {
    match result {
        Ok(history) => if history.records@.len() > 0 {
            store.insert(symbol, merged(series_of(store, symbol), history.records@))
        } else {
            store
        },
        Err(_) => store,
    }
}

/// Whether `outcome` is the outcome of a fetch with the given result. The
/// dividends count only where records came with them.
pub open spec fn is_outcome_of(
    outcome: SymbolOutcome,
    result: Result<FetchedHistory, FetchError>,
) -> bool {
    match result {
        Ok(history) => match outcome {
            SymbolOutcome::Synced { new_records, dividends } => new_records
                == history.records@.len() && dividends@ == (if history.records@.len() > 0 {
                history.dividends@
            } else {
                Seq::empty()
            }),
            _ => false,
        },
        Err(e) => outcome == failure_outcome(e),
    }
}

} // verus!
