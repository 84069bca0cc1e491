//! The symbol resolver: from portfolio ticker notation to an exchange and a
//! base symbol, and from there to the provider's query symbol; and the names
//! under which a symbol's files are stored.

use crate::text::{chars_of, find_char, index_of, replace_char, replaced, same_text, string_of};
use vstd::prelude::*;
use vstd::string::StringExecFns;

verus! {

/// Whether `code` is one of the exchange codes that ticker notation may carry.
pub open spec fn is_known_exchange(code: Seq<char>) -> bool {
    ||| code == "NASDAQ"@
    ||| code == "NYSE"@
    ||| code == "NYSEARCA"@
    ||| code == "NYSEAMERICAN"@
    ||| code == "OTCMKTS"@
    ||| code == "TWSE"@
    ||| code == "JPX"@
    ||| code == "HKEX"@
}

/// Exchange and base symbol of a ticker. A ticker with a colon is split at
/// its first colon; if the part before it is a known exchange, the other part
/// is the base symbol; else if the part behind it is one, the part before is
/// the base symbol. Every other ticker is its own base symbol, without exchange.
pub open spec fn resolved(stock: Seq<char>) -> (Option<Seq<char>>, Seq<char>) {
    let colon = index_of(stock, ':');
    if colon < stock.len() {
        let first = stock.take(colon);
        let second = stock.skip(colon + 1);
        if is_known_exchange(first) {
            (Some(first), second)
        } else if is_known_exchange(second) {
            (Some(second), first)
        } else {
            (None, stock)
        }
    } else {
        (None, stock)
    }
}

/// What the provider appends to a base symbol of the given exchange.
pub open spec fn provider_suffix(exchange: Seq<char>) -> Seq<char> {
    if exchange == "HKEX"@ {
        ".HK"@
    } else if exchange == "TWSE"@ || exchange == "TPE"@ {
        ".TW"@
    } else if exchange == "JPX"@ || exchange == "TYO"@ {
        ".T"@
    } else if exchange == "LSE"@ {
        ".L"@
    } else if exchange == "ASX"@ {
        ".AX"@
    } else if exchange == "TSX"@ {
        ".TO"@
    } else if exchange == "FRA"@ {
        ".F"@
    } else if exchange == "PAR"@ {
        ".PA"@
    } else if exchange == "AMS"@ {
        ".AS"@
    } else if exchange == "STO"@ {
        ".ST"@
    } else if exchange == "KRX"@ || exchange == "KSE"@ {
        ".KS"@
    } else if exchange == "KOSDAQ"@ {
        ".KQ"@
    } else {
        ""@
    }
}

/// The provider's query symbol for a base symbol on an exchange.
pub open spec fn provider_symbol(exchange: Option<Seq<char>>, base: Seq<char>) -> Seq<char> {
    match exchange {
        Some(e) => base + provider_suffix(e),
        None => base + ""@,
    }
}

/// Whether a character is an ASCII letter or digit.
pub open spec fn is_ascii_alphanumeric(c: char) -> bool {
    ('0' <= c && c <= '9') || ('a' <= c && c <= 'z') || ('A' <= c && c <= 'Z')
}

/// `text` with every character that is no ASCII letter or digit replaced by `_`.
pub open spec fn sanitized(text: Seq<char>) -> Seq<char> {
    text.map_values(|c: char| if is_ascii_alphanumeric(c) { c } else { '_' })
}

/// Decides whether `code` is a known exchange code.
pub fn known_exchange(code: &str) -> (r: bool)
    ensures
        r == is_known_exchange(code@),
{
    same_text(code, "NASDAQ") || same_text(code, "NYSE") || same_text(code, "NYSEARCA")
        || same_text(code, "NYSEAMERICAN") || same_text(code, "OTCMKTS") || same_text(code, "TWSE")
        || same_text(code, "JPX") || same_text(code, "HKEX")
}

/// Splits a ticker into its exchange, if it names a known one, and its base symbol.
pub fn get_exchange_and_symbol(stock: &str) -> (r: (Option<String>, String))
    ensures
        match r.0 {
            Some(e) => resolved(stock@).0 == Some(e@),
            None => resolved(stock@).0 is None,
        },
        r.1@ == resolved(stock@).1,
{
    let v = chars_of(stock);
    let colon = find_char(&v, ':');
    if colon < v.len() {
        let first = string_of(&v, 0, colon);
        let second = string_of(&v, colon + 1, v.len());
        if known_exchange(first.as_str()) {
            (Some(first), second)
        } else if known_exchange(second.as_str()) {
            (Some(second), first)
        } else {
            (None, stock.to_owned())
        }
    } else {
        (None, stock.to_owned())
    }
}

/// The suffix that the provider uses for an exchange; empty for an exchange
/// that needs none.
pub fn suffix_for(exchange: &str) -> (r: &'static str)
    ensures
        r@ == provider_suffix(exchange@),
{
    if same_text(exchange, "HKEX") {
        ".HK"
    } else if same_text(exchange, "TWSE") || same_text(exchange, "TPE") {
        ".TW"
    } else if same_text(exchange, "JPX") || same_text(exchange, "TYO") {
        ".T"
    } else if same_text(exchange, "LSE") {
        ".L"
    } else if same_text(exchange, "ASX") {
        ".AX"
    } else if same_text(exchange, "TSX") {
        ".TO"
    } else if same_text(exchange, "FRA") {
        ".F"
    } else if same_text(exchange, "PAR") {
        ".PA"
    } else if same_text(exchange, "AMS") {
        ".AS"
    } else if same_text(exchange, "STO") {
        ".ST"
    } else if same_text(exchange, "KRX") || same_text(exchange, "KSE") {
        ".KS"
    } else if same_text(exchange, "KOSDAQ") {
        ".KQ"
    } else {
        ""
    }
}

/// The provider's query symbol: the base symbol with the suffix of its
/// exchange; without exchange, or on an exchange without suffix, the base
/// symbol itself.
pub fn yahoo_symbol_for(exchange: Option<&str>, base_symbol: &str) -> (r: String)
    ensures
        r@ == provider_symbol(
            match exchange {
                Some(e) => Some(e@),
                None => None,
            },
            base_symbol@,
        ),
{
    let suffix = match exchange {
        Some(e) => suffix_for(e),
        None => "",
    };
    base_symbol.to_owned().concat(suffix)
}

/// The name under which the files of `symbol` are stored: the symbol with
/// every colon replaced by an underscore.
pub fn storage_name(symbol: &str) -> (r: String)
    ensures
        r@ == replaced(symbol@, ':', '_'),
{
    replace_char(symbol, ':', '_')
}

/// The symbol that a stored name stands for: the name with every underscore
/// replaced by a colon.
pub fn symbol_of_storage_name(name: &str) -> (r: String)
    ensures
        r@ == replaced(name@, '_', ':'),
{
    replace_char(name, '_', ':')
}

/// A timestamp made fit for a file name.
pub fn sanitize_timestamp(value: &str) -> (r: String)
    ensures
        r@ == sanitized(value@),
{
    let v = chars_of(value);
    let mut out = String::new();
    let mut i: usize = 0;
    while i < v.len()
        invariant
            i <= v.len(),
            out@ == sanitized(v@.take(i as int)),
        decreases v.len() - i,
    {
        let c = v[i];
        let kept = if ('0' <= c && c <= '9') || ('a' <= c && c <= 'z') || ('A' <= c && c <= 'Z') {
            c
        } else {
            '_'
        };
        out.push(kept);
        i += 1;
    }
    out
}

} // verus!
