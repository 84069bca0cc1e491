//! The position timeline builder: replays a security's transactions against
//! its price series and yields the shares held on every price date.

use crate::calendar::{parse_date, parsed_iso_date};
use crate::number::{
    as_i64, decimal_value, div_toward_zero, mul_div, numeric_chars, parse_amount_str,
};
use crate::order::{ascending, sort_by_key, sorted, Keyed};
use crate::price::PriceRecord;
use crate::text::{
    contains, lowercase, same_text, starts_with, text_contains, text_starts_with, trim, trimmed,
};
use vstd::prelude::*;

verus! {

/// A transaction as it is imported: every field is text.
#[derive(Clone, Debug, PartialEq, Eq)]
pub struct Transaction {
    pub date: String,
    pub stock: String,
    pub transaction_type: String,
    pub quantity: String,
    pub price: String,
    pub fees: String,
    pub split_ratio: String,
    pub currency: String,
}

/// What a transaction does to the number of shares held.
#[derive(Clone, Copy, Debug, PartialEq, Eq)]
pub enum TransactionKind {
    /// Adds its quantity.
    Buy,
    /// Takes its quantity away, down to zero at most.
    Sell,
    /// Multiplies the shares by its split ratio.
    Split,
    /// Leaves the shares as they are.
    Other,
}

/// A transaction read for replay. Quantity and split ratio are in millionths.
#[derive(Clone, Debug, PartialEq, Eq)]
pub struct ProcessedTransaction {
    pub date: i32,
    pub kind: TransactionKind,
    pub quantity: i64,
    pub split_ratio: i64,
    pub currency: String,
}

impl Keyed for ProcessedTransaction {
    /// Transactions are replayed oldest first.
    open spec fn key(&self) -> int {
        self.date as int
    }

    fn sort_key(&self) -> (k: i64) {
        self.date as i64
    }
}

/// One point of a position timeline. Close and shares are in millionths.
#[derive(Clone, Copy, Debug, PartialEq, Eq)]
pub struct PositionPoint {
    pub date: i32,
    pub close: i64,
    pub shares: i64,
}

/// Why no position could be computed.
#[derive(Clone, Copy, Debug, PartialEq, Eq)]
pub enum PositionError {
    /// The security has no transactions.
    NoTransactions,
    /// A transaction of the security has a date that cannot be read.
    InvalidDate,
    /// No price is dated on or after the first transaction.
    NoPriceHistory,
    /// The number of shares cannot be held.
    Overflow,
}

/// The kind of a transaction whose type, in lower case, is `ty`: buying
/// begins with `buy` or is `purchase`, selling begins with `sell` or is
/// `sale`, and a split has `split` in its type.
pub open spec fn kind_of_lowercase(ty: Seq<char>) -> TransactionKind {
    if starts_with(ty, "buy"@) || ty == "purchase"@ {
        TransactionKind::Buy
    } else if starts_with(ty, "sell"@) || ty == "sale"@ {
        TransactionKind::Sell
    } else if contains(ty, "split"@) {
        TransactionKind::Split
    } else {
        TransactionKind::Other
    }
}

/// The kind of a transaction of the given type, decided on the lower-case
/// form of the type.
pub open spec fn kind_of(transaction_type: Seq<char>) -> TransactionKind {
    kind_of_lowercase(lowercase(transaction_type))
}

/// The quantity that a quantity text denotes: zero where it denotes none.
pub open spec fn quantity_of(text: Seq<char>) -> i64 {
    match as_i64(decimal_value(numeric_chars(text))) {
        Some(q) => q,
        None => 0,
    }
}

/// The split ratio that a ratio text denotes, in millionths: one where the
/// text is blank, denotes no number, or denotes a number that is not positive.
pub open spec fn split_ratio_of(text: Seq<char>) -> i64 {
    if trimmed(text).len() == 0 {
        1_000_000
    } else {
        match as_i64(decimal_value(numeric_chars(text))) {
            Some(r) => if r > 0 {
                r
            } else {
                1_000_000
            },
            None => 1_000_000,
        }
    }
}

/// Whether the date of `t` can be read.
pub open spec fn has_valid_date(t: Transaction) -> bool {
    parsed_iso_date(trimmed(t.date@)) is Some
}

/// `t` read for replay, for a transaction whose date can be read.
pub open spec fn processed(t: Transaction) -> ProcessedTransaction {
    ProcessedTransaction {
        date: parsed_iso_date(trimmed(t.date@)).unwrap() as i32,
        kind: kind_of(t.transaction_type@),
        quantity: quantity_of(t.quantity@),
        split_ratio: split_ratio_of(t.split_ratio@),
        currency: t.currency,
    }
}

/// The transactions of `symbol` among `all`, in their order.
pub open spec fn transactions_of(all: Seq<Transaction>, symbol: Seq<char>) -> Seq<Transaction> {
    all.filter(|t: Transaction| t.stock@ == symbol)
}

/// The number of shares after `t`, starting from `shares`, in exact arithmetic.
pub open spec fn shares_after_one(shares: int, t: ProcessedTransaction) -> int {
    match t.kind {
        TransactionKind::Buy => shares + t.quantity,
        TransactionKind::Sell => if shares - t.quantity < 0 {
            0
        } else {
            shares - t.quantity
        },
        TransactionKind::Split => if t.split_ratio > 0 {
            div_toward_zero(shares * t.split_ratio, 1_000_000)
        } else {
            shares
        },
        TransactionKind::Other => shares,
    }
}

/// The number of shares after the first `k` transactions; `None` once a
/// number of shares has come up that cannot be held.
pub open spec fn shares_after(transactions: Seq<ProcessedTransaction>, k: int) -> Option<i64>
    decreases k,
{
    if k <= 0 {
        Some(0)
    } else {
        match shares_after(transactions, k - 1) {
            Some(s) => as_i64(Some(shares_after_one(s as int, transactions[k - 1]))),
            None => None,
        }
    }
}

/// The number of transactions applied once the pending ones dated `date` or
/// before have been applied, `from` having been applied before.
pub open spec fn applied_through(transactions: Seq<ProcessedTransaction>, from: int, date: int) -> int
    decreases transactions.len() - from,
{
    if 0 <= from < transactions.len() && transactions[from].date <= date {
        applied_through(transactions, from + 1, date)
    } else {
        from
    }
}

/// The number of transactions applied when the first `n` price dates have
/// been walked.
pub open spec fn applied_at(
    prices: Seq<PriceRecord>,
    transactions: Seq<ProcessedTransaction>,
    n: int,
) -> int
    decreases n,
{
    if n <= 0 {
        0
    } else {
        applied_through(transactions, applied_at(prices, transactions, n - 1), prices[n - 1].date as int)
    }
}

/// The point of the timeline for the price at `i`.
pub open spec fn point_at(
    prices: Seq<PriceRecord>,
    transactions: Seq<ProcessedTransaction>,
    i: int,
) -> PositionPoint {
    PositionPoint {
        date: prices[i].date,
        close: prices[i].close,
        shares: shares_after(transactions, applied_at(prices, transactions, i + 1)).unwrap(),
    }
}

/// Whether `point` is the point of the timeline for the price at `i`.
pub open spec fn is_point_at(
    point: PositionPoint,
    prices: Seq<PriceRecord>,
    transactions: Seq<ProcessedTransaction>,
    i: int,
) -> bool {
    shares_after(transactions, applied_at(prices, transactions, i + 1)) is Some && point
        == point_at(prices, transactions, i)
}

/// Applying pending transactions moves forward, and not past the last one.
pub proof fn lemma_applied_through_bounds(
    transactions: Seq<ProcessedTransaction>,
    from: int,
    date: int,
)
    requires
        0 <= from <= transactions.len(),
    ensures
        from <= applied_through(transactions, from, date) <= transactions.len(),
    decreases transactions.len() - from,
{
    if from < transactions.len() && transactions[from].date <= date {
        lemma_applied_through_bounds(transactions, from + 1, date);
    }
}

/// Once the shares cannot be held, they cannot be held later either.
pub proof fn lemma_shares_after_none(transactions: Seq<ProcessedTransaction>, j: int, k: int)
    requires
        j <= k,
        shares_after(transactions, j) is None,
    ensures
        shares_after(transactions, k) is None,
    decreases k - j,
{
    if j < k {
        lemma_shares_after_none(transactions, j, k - 1);
    }
}

/// Decides the kind of a transaction from its type.
pub fn classify(transaction_type: &str) -> (r: TransactionKind)
    ensures
        r == kind_of(transaction_type@),
{
    let lower = transaction_type.to_lowercase();
    classify_lowercase(lower.as_str())
}

/// Decides the kind of a transaction from its type in lower case.
pub fn classify_lowercase(ty: &str) -> (r: TransactionKind)
    ensures
        r == kind_of_lowercase(ty@),
{
    if text_starts_with(ty, "buy") || same_text(ty, "purchase") {
        TransactionKind::Buy
    } else if text_starts_with(ty, "sell") || same_text(ty, "sale") {
        TransactionKind::Sell
    } else if text_contains(ty, "split") {
        TransactionKind::Split
    } else {
        TransactionKind::Other
    }
}

/// Applies one transaction to a number of shares.
pub fn apply_transaction(shares: i64, t: &ProcessedTransaction) -> (r: Option<i64>)
    ensures
        r == as_i64(Some(shares_after_one(shares as int, *t))),
{
    match t.kind {
        TransactionKind::Buy => {
            let sum: i128 = shares as i128 + t.quantity as i128;
            if sum < i64::MIN as i128 || sum > i64::MAX as i128 {
                None
            } else {
                Some(sum as i64)
            }
        },
        TransactionKind::Sell => {
            let rest: i128 = shares as i128 - t.quantity as i128;
            if rest < 0 {
                Some(0)
            } else if rest > i64::MAX as i128 {
                None
            } else {
                Some(rest as i64)
            }
        },
        TransactionKind::Split => {
            if t.split_ratio > 0 {
                mul_div(shares, t.split_ratio, 1_000_000)
            } else {
                Some(shares)
            }
        },
        TransactionKind::Other => Some(shares),
    }
}

/// Walks prices and transactions in step. Before a point is made for a price
/// date, every transaction not yet applied and dated on or before it is
/// applied, in the order given. The result has one point per price, in the
/// order of the prices; `None` when the number of shares cannot be held.
pub fn build_position_timeline(
    prices: &Vec<PriceRecord>,
    transactions: &Vec<ProcessedTransaction>,
) -> (r: Option<Vec<PositionPoint>>)
    ensures
        match r {
            Some(points) => points@.len() == prices@.len() && forall|i: int|
                0 <= i < prices@.len() ==> is_point_at(
                    #[trigger] points@[i],
                    prices@,
                    transactions@,
                    i,
                ),
            None => shares_after(
                transactions@,
                applied_at(prices@, transactions@, prices@.len() as int),
            ) is None,
        },
{
    let mut points: Vec<PositionPoint> = Vec::new();
    let mut idx: usize = 0;
    let mut shares: i64 = 0;
    let mut i: usize = 0;
    while i < prices.len()
        invariant
            i <= prices.len(),
            idx <= transactions.len(),
            idx == applied_at(prices@, transactions@, i as int),
            shares_after(transactions@, idx as int) == Some(shares),
            points@.len() == i,
            forall|k: int|
                0 <= k < i ==> is_point_at(#[trigger] points@[k], prices@, transactions@, k),
        decreases prices.len() - i,
    {
        let date = prices[i].date;
        let ghost from = idx as int;
        while idx < transactions.len() && transactions[idx].date <= date
            invariant
                i < prices.len(),
                date == prices@[i as int].date,
                from == applied_at(prices@, transactions@, i as int),
                0 <= from <= idx <= transactions.len(),
                shares_after(transactions@, idx as int) == Some(shares),
                applied_through(transactions@, from, date as int) == applied_through(
                    transactions@,
                    idx as int,
                    date as int,
                ),
            decreases transactions.len() - idx,
        {
            match apply_transaction(shares, &transactions[idx]) {
                Some(s) => {
                    shares = s;
                },
                None => {
                    proof {
                        let last = applied_at(prices@, transactions@, prices@.len() as int);
                        lemma_applied_through_bounds(transactions@, idx + 1, date as int);
                        lemma_applied_at_grows(prices@, transactions@, i + 1, prices@.len() as int);
                        lemma_shares_after_none(transactions@, idx + 1, last);
                    }
                    return None;
                },
            }
            idx += 1;
        }
        points.push(PositionPoint { date, close: prices[i].close, shares });
        i += 1;
    }
    Some(points)
}

/// Walking more prices never applies fewer transactions.
pub proof fn lemma_applied_at_grows(
    prices: Seq<PriceRecord>,
    transactions: Seq<ProcessedTransaction>,
    m: int,
    n: int,
)
    requires
        0 <= m <= n,
    ensures
        0 <= applied_at(prices, transactions, m) <= applied_at(prices, transactions, n)
            <= transactions.len(),
    decreases n,
{
    if n == 0 {
    } else if m == n {
        lemma_applied_at_grows(prices, transactions, m - 1, n - 1);
        lemma_applied_through_bounds(
            transactions,
            applied_at(prices, transactions, n - 1),
            prices[n - 1].date as int,
        );
    } else {
        lemma_applied_at_grows(prices, transactions, m, n - 1);
        lemma_applied_through_bounds(
            transactions,
            applied_at(prices, transactions, n - 1),
            prices[n - 1].date as int,
        );
    }
}

/// The transactions of `symbol`, read for replay, in their order.
pub open spec fn processed_of(all: Seq<Transaction>, symbol: Seq<char>) -> Seq<
    ProcessedTransaction,
> {
    transactions_of(all, symbol).map_values(|t: Transaction| processed(t))
}

/// Reads one transaction for replay; `None` when its date cannot be read.
pub fn process_transaction(t: &Transaction) -> (r: Option<ProcessedTransaction>)
    ensures
        match r {
            Some(p) => has_valid_date(*t) && p == processed(*t),
            None => !has_valid_date(*t),
        },
{
    let date = match parse_date(t.date.as_str()) {
        Some(d) => d,
        None => {
            return None;
        },
    };
    let quantity = match parse_amount_str(t.quantity.as_str()) {
        Some(q) => q,
        None => 0,
    };
    let blank = trim(t.split_ratio.as_str());
    let split_ratio = if blank.as_str().unicode_len() == 0 {
        1_000_000
    } else {
        match parse_amount_str(t.split_ratio.as_str()) {
            Some(r) => if r > 0 {
                r
            } else {
                1_000_000
            },
            None => 1_000_000,
        }
    };
    Some(
        ProcessedTransaction {
            date,
            kind: classify(t.transaction_type.as_str()),
            quantity,
            split_ratio,
            currency: t.currency.clone(),
        },
    )
}

/// Reads the transactions of `symbol` for replay, oldest first; transactions
/// of one date keep their order. It is an error if there is none, or if one of
/// them has a date that cannot be read.
pub fn load_symbol_transactions(all: &Vec<Transaction>, symbol: &str) -> (r: Result<
    Vec<ProcessedTransaction>,
    PositionError,
>)
    ensures
        match r {
            Ok(list) => {
                &&& transactions_of(all@, symbol@).len() > 0
                &&& forall|i: int|
                    0 <= i < transactions_of(all@, symbol@).len() ==> has_valid_date(
                        #[trigger] transactions_of(all@, symbol@)[i],
                    )
                &&& list@ == sorted(processed_of(all@, symbol@))
                &&& ascending(list@)
            },
            Err(e) => if transactions_of(all@, symbol@).len() == 0 {
                e == PositionError::NoTransactions
            } else {
                e == PositionError::InvalidDate && exists|i: int|
                    0 <= i < transactions_of(all@, symbol@).len() && !has_valid_date(
                        #[trigger] transactions_of(all@, symbol@)[i],
                    )
            },
        },
{
    let mut out: Vec<ProcessedTransaction> = Vec::new();
    let ghost mine = |t: Transaction| t.stock@ == symbol@;
    let mut i: usize = 0;
    while i < all.len()
        invariant
            i <= all.len(),
            mine == (|t: Transaction| t.stock@ == symbol@),
            out@ == all@.take(i as int).filter(mine).map_values(|t: Transaction| processed(t)),
            forall|k: int|
                0 <= k < all@.take(i as int).filter(mine).len() ==> has_valid_date(
                    #[trigger] all@.take(i as int).filter(mine)[k],
                ),
        decreases all.len() - i,
    {
        let ghost next = all@.take(i + 1).filter(mine);
        proof {
            reveal(Seq::filter);
            assert(all@.take(i + 1).drop_last() == all@.take(i as int));
        }
        if same_text(all[i].stock.as_str(), symbol) {
            match process_transaction(&all[i]) {
                Some(p) => {
                    out.push(p);
                },
                None => {
                    proof {
                        lemma_filter_prefix(all@, mine, i + 1);
                        assert(next[next.len() - 1] == all@[i as int]);
                    }
                    return Err(PositionError::InvalidDate);
                },
            }
        }
        i += 1;
    }
    assert(all@.take(all.len() as int) == all@);
    if out.len() == 0 {
        return Err(PositionError::NoTransactions);
    }
    let sorted_list = sort_by_key(out);
    Ok(sorted_list)
}

/// Filtering a prefix yields a prefix of the filtered sequence.
pub proof fn lemma_filter_prefix<T>(s: Seq<T>, pred: spec_fn(T) -> bool, k: int)
    requires
        0 <= k <= s.len(),
    ensures
        s.take(k).filter(pred).len() <= s.filter(pred).len(),
        s.take(k).filter(pred) == s.filter(pred).take(s.take(k).filter(pred).len() as int),
    decreases s.len() - k,
{
    reveal(Seq::filter);
    if k == s.len() {
        assert(s.take(k) == s);
    } else {
        lemma_filter_prefix(s, pred, k + 1);
        assert(s.take(k + 1).drop_last() == s.take(k));
    }
}

/// One row of a position snapshot. All amounts are in millionths.
#[derive(Clone, Copy, Debug, PartialEq, Eq)]
pub struct PositionRow {
    pub date: i32,
    pub close: i64,
    pub shares: i64,
    /// Close times shares, absent where it cannot be held.
    pub position_value: Option<i64>,
}

/// The row for a point of the timeline.
pub open spec fn row_of(p: PositionPoint) -> PositionRow {
    PositionRow {
        date: p.date,
        close: p.close,
        shares: p.shares,
        position_value: as_i64(Some(div_toward_zero(p.close * p.shares, 1_000_000))),
    }
}

/// The test for a price dated `first` or later.
pub open spec fn dated_from(first: i32) -> spec_fn(PriceRecord) -> bool {
    |p: PriceRecord| p.date >= first
}

/// The prices that count for a position: those dated on or after the first
/// transaction, or all of them where there is no transaction.
pub open spec fn prices_for(prices: Seq<PriceRecord>, transactions: Seq<ProcessedTransaction>) -> Seq<
    PriceRecord,
> {
    if transactions.len() == 0 {
        prices
    } else {
        prices.filter(dated_from(transactions[0].date))
    }
}

/// The whole timeline for `prices`.
pub open spec fn timeline_of(prices: Seq<PriceRecord>, transactions: Seq<ProcessedTransaction>) -> Seq<
    PositionPoint,
> {
    Seq::new(prices.len(), |i: int| point_at(prices, transactions, i))
}

/// Whether the shares can be held all along the timeline for `prices`.
pub open spec fn timeline_fits(
    prices: Seq<PriceRecord>,
    transactions: Seq<ProcessedTransaction>,
) -> bool {
    shares_after(transactions, applied_at(prices, transactions, prices.len() as int)) is Some
}

/// The prices dated `first` or later, in their order.
pub fn prices_since(prices: Vec<PriceRecord>, first: i32) -> (r: Vec<PriceRecord>)
    ensures
        r@ == prices@.filter(dated_from(first)),
{
    let mut out: Vec<PriceRecord> = Vec::new();
    let ghost all = prices@;
    let ghost late = dated_from(first);
    for record in it: prices
        invariant
            it.seq() == all,
            late == dated_from(first),
            out@ == all.take(it.index() as int).filter(late),
    {
        proof {
            reveal(Seq::filter);
            assert(all.take(it.index() + 1).drop_last() == all.take(it.index() as int));
        }
        if record.date >= first {
            out.push(record);
        }
    }
    assert(all.take(all.len() as int) == all);
    out
}

/// The rows of a position snapshot: the timeline of the prices dated on or
/// after the first transaction, each point with its value, newest first.
/// `prices` and `transactions` are taken oldest first.
pub fn position_rows(prices: Vec<PriceRecord>, transactions: &Vec<ProcessedTransaction>) -> (r:
    Result<Vec<PositionRow>, PositionError>)
    ensures
        match r {
            Ok(rows) => {
                &&& prices_for(prices@, transactions@).len() > 0
                &&& timeline_fits(prices_for(prices@, transactions@), transactions@)
                &&& rows@ == timeline_of(
                    prices_for(prices@, transactions@),
                    transactions@,
                ).map_values(|p: PositionPoint| row_of(p)).reverse()
            },
            Err(e) => if prices_for(prices@, transactions@).len() == 0 {
                e == PositionError::NoPriceHistory
            } else {
                e == PositionError::Overflow && !timeline_fits(
                    prices_for(prices@, transactions@),
                    transactions@,
                )
            },
        },
{
    let kept = if transactions.len() == 0 {
        prices
    } else {
        prices_since(prices, transactions[0].date)
    };
    if kept.len() == 0 {
        return Err(PositionError::NoPriceHistory);
    }
    let points = match build_position_timeline(&kept, transactions) {
        Some(points) => points,
        None => {
            return Err(PositionError::Overflow);
        },
    };
    let ghost want = timeline_of(kept@, transactions@).map_values(|p: PositionPoint| row_of(p));
    assert(is_point_at(points@[points.len() - 1], kept@, transactions@, points.len() - 1));
    let mut rows: Vec<PositionRow> = Vec::new();
    let mut i: usize = points.len();
    while i > 0
        invariant
            i <= points.len(),
            want == points@.map_values(|p: PositionPoint| row_of(p)),
            rows@ == want.reverse().take(points.len() - i),
        decreases i,
    {
        i -= 1;
        let p = points[i];
        let row = PositionRow {
            date: p.date,
            close: p.close,
            shares: p.shares,
            position_value: mul_div(p.close, p.shares, 1_000_000),
        };
        rows.push(row);
    }
    Ok(rows)
}

} // verus!
