//! A stand-in for the tools that calls name: canned results, picked by the words in a call.

use vstd::prelude::*;
use vstd::string::*;

use crate::text::{contains_text, lowercase, lowercase_text, occurs};

verus! {

broadcast use vstd::string::group_string_axioms;

/// The canned weather report that a request asks for.
pub open spec fn weather_text(lc: Seq<char>) -> Seq<char> {
    if occurs(lc, "london"@) {
        r#"{"temp_f": 60, "sky": "cloudy"}"#@
    } else if occurs(lc, "paris"@) {
        r#"{"temp_f": 59, "sky": "rainy"}"#@
    } else if occurs(lc, "boston"@) {
        r#"{"temp_f": 68, "sky": "clear"}"#@
    } else if occurs(lc, "tokyo"@) {
        r#"{"temp_f": 75, "sky": "humid"}"#@
    } else {
        r#"{"temp_f": 72, "sky": "sunny"}"#@
    }
}

/// The canned weather report that a request asks for.
pub fn weather_result(lc: &str) -> (text: &'static str)
    ensures
        text@ == weather_text(lc@),
{
    if contains_text(lc, "london") {
        r#"{"temp_f": 60, "sky": "cloudy"}"#
    } else if contains_text(lc, "paris") {
        r#"{"temp_f": 59, "sky": "rainy"}"#
    } else if contains_text(lc, "boston") {
        r#"{"temp_f": 68, "sky": "clear"}"#
    } else if contains_text(lc, "tokyo") {
        r#"{"temp_f": 75, "sky": "humid"}"#
    } else {
        r#"{"temp_f": 72, "sky": "sunny"}"#
    }
}

/// The canned share price that a request asks for.
pub open spec fn stock_text(lc: Seq<char>) -> Seq<char> {
    if occurs(lc, "aapl"@) {
        r#"{"ticker": "AAPL", "price_usd": 189.50}"#@
    } else if occurs(lc, "goog"@) {
        r#"{"ticker": "GOOG", "price_usd": 141.20}"#@
    } else if occurs(lc, "tsla"@) {
        r#"{"ticker": "TSLA", "price_usd": 258.30}"#@
    } else {
        r#"{"ticker": "UNKNOWN", "price_usd": 100.00}"#@
    }
}

/// The canned share price that a request asks for.
pub fn stock_result(lc: &str) -> (text: &'static str)
    ensures
        text@ == stock_text(lc@),
{
    if contains_text(lc, "aapl") {
        r#"{"ticker": "AAPL", "price_usd": 189.50}"#
    } else if contains_text(lc, "goog") {
        r#"{"ticker": "GOOG", "price_usd": 141.20}"#
    } else if contains_text(lc, "tsla") {
        r#"{"ticker": "TSLA", "price_usd": 258.30}"#
    } else {
        r#"{"ticker": "UNKNOWN", "price_usd": 100.00}"#
    }
}

/// The canned exchange rate that a request asks for.
pub open spec fn currency_text(lc: Seq<char>) -> Seq<char> {
    if occurs(lc, "eur"@) {
        r#"{"rate": 0.92, "quote": "USD->EUR"}"#@
    } else if occurs(lc, "jpy"@) {
        r#"{"rate": 155.40, "quote": "USD->JPY"}"#@
    } else if occurs(lc, "gbp"@) {
        r#"{"rate": 0.79, "quote": "USD->GBP"}"#@
    } else {
        r#"{"rate": 1.00, "quote": "USD->USD"}"#@
    }
}

/// The canned exchange rate that a request asks for.
pub fn currency_result(lc: &str) -> (text: &'static str)
    ensures
        text@ == currency_text(lc@),
{
    if contains_text(lc, "eur") {
        r#"{"rate": 0.92, "quote": "USD->EUR"}"#
    } else if contains_text(lc, "jpy") {
        r#"{"rate": 155.40, "quote": "USD->JPY"}"#
    } else if contains_text(lc, "gbp") {
        r#"{"rate": 0.79, "quote": "USD->GBP"}"#
    } else {
        r#"{"rate": 1.00, "quote": "USD->USD"}"#
    }
}

/// The canned restaurants that a request asks for.
pub open spec fn restaurants_text(lc: Seq<char>) -> Seq<char> {
    if occurs(lc, "tokyo"@) {
        r#"["Sukiyabashi Jiro", "Ichiran", "Sushi Saito"]"#@
    } else if occurs(lc, "paris"@) {
        r#"["Le Jules Verne", "L'Ami Jean", "Septime"]"#@
    } else {
        r#"["Katz's Deli", "Joe's Pizza", "Lombardi's"]"#@
    }
}

/// The canned restaurants that a request asks for.
pub fn restaurants_result(lc: &str) -> (text: &'static str)
    ensures
        text@ == restaurants_text(lc@),
{
    if contains_text(lc, "tokyo") {
        r#"["Sukiyabashi Jiro", "Ichiran", "Sushi Saito"]"#
    } else if contains_text(lc, "paris") {
        r#"["Le Jules Verne", "L'Ami Jean", "Septime"]"#
    } else {
        r#"["Katz's Deli", "Joe's Pizza", "Lombardi's"]"#
    }
}

/// The canned review that a request asks for.
pub open spec fn reviews_text(lc: Seq<char>) -> Seq<char> {
    if occurs(lc, "katz"@) {
        r#"{"stars": 4.6, "summary": "Iconic pastrami sandwiches"}"#@
    } else if occurs(lc, "jiro"@) {
        r#"{"stars": 4.9, "summary": "Legendary omakase, tiny counter"}"#@
    } else if occurs(lc, "joe"@) {
        r#"{"stars": 4.4, "summary": "Classic NY slice, cheap and fast"}"#@
    } else {
        r#"{"stars": 4.0, "summary": "Solid, well-reviewed spot"}"#@
    }
}

/// The canned review that a request asks for.
pub fn reviews_result(lc: &str) -> (text: &'static str)
    ensures
        text@ == reviews_text(lc@),
{
    if contains_text(lc, "katz") {
        r#"{"stars": 4.6, "summary": "Iconic pastrami sandwiches"}"#
    } else if contains_text(lc, "jiro") {
        r#"{"stars": 4.9, "summary": "Legendary omakase, tiny counter"}"#
    } else if contains_text(lc, "joe") {
        r#"{"stars": 4.4, "summary": "Classic NY slice, cheap and fast"}"#
    } else {
        r#"{"stars": 4.0, "summary": "Solid, well-reviewed spot"}"#
    }
}

/// The canned time that a request asks for.
pub open spec fn time_text(lc: Seq<char>) -> Seq<char> {
    if occurs(lc, "tokyo"@) || occurs(lc, "jst"@) {
        r#"{"time": "2026-04-21T23:32+09:00", "tz": "JST"}"#@
    } else if occurs(lc, "london"@) || occurs(lc, "gmt"@) {
        r#"{"time": "2026-04-21T15:32+01:00", "tz": "BST"}"#@
    } else if occurs(lc, "new_york"@) || occurs(lc, "nyc"@) || occurs(lc, "est"@) {
        r#"{"time": "2026-04-21T10:32-04:00", "tz": "EDT"}"#@
    } else {
        r#"{"time": "2026-04-21T14:32+00:00", "tz": "UTC"}"#@
    }
}

/// The canned time that a request asks for.
pub fn time_result(lc: &str) -> (text: &'static str)
    ensures
        text@ == time_text(lc@),
{
    if contains_text(lc, "tokyo") || contains_text(lc, "jst") {
        r#"{"time": "2026-04-21T23:32+09:00", "tz": "JST"}"#
    } else if contains_text(lc, "london") || contains_text(lc, "gmt") {
        r#"{"time": "2026-04-21T15:32+01:00", "tz": "BST"}"#
    } else if contains_text(lc, "new_york") || contains_text(lc, "nyc") || contains_text(lc, "est") {
        r#"{"time": "2026-04-21T10:32-04:00", "tz": "EDT"}"#
    } else {
        r#"{"time": "2026-04-21T14:32+00:00", "tz": "UTC"}"#
    }
}

/// The canned result for a request in lower case, `None` where it names no tool.
pub open spec fn canned_text(lc: Seq<char>) -> Option<Seq<char>> {
    if occurs(lc, "get_weather"@) || occurs(lc, "weather("@) {
        Some(weather_text(lc))
    } else if occurs(lc, "stock_price"@) || occurs(lc, "get_stock"@) {
        Some(stock_text(lc))
    } else if occurs(lc, "convert_currency"@) || occurs(lc, "exchange_rate"@) {
        Some(currency_text(lc))
    } else if occurs(lc, "search_restaurants"@) || occurs(lc, "find_restaurants"@) {
        Some(restaurants_text(lc))
    } else if occurs(lc, "get_reviews"@) || occurs(lc, "reviews("@) {
        Some(reviews_text(lc))
    } else if occurs(lc, "get_time"@) || occurs(lc, "time_in"@) || occurs(lc, "current_time"@) {
        Some(time_text(lc))
    } else {
        None
    }
}

/// The canned result for a request in lower case, `None` where it names no tool.
pub fn canned_result(lc: &str) -> (text: Option<&'static str>)
    ensures
        text is Some <==> canned_text(lc@) is Some,
        text matches Some(s) ==> canned_text(lc@) == Some(s@),
{
    if contains_text(lc, "get_weather") || contains_text(lc, "weather(") {
        Some(weather_result(lc))
    } else if contains_text(lc, "stock_price") || contains_text(lc, "get_stock") {
        Some(stock_result(lc))
    } else if contains_text(lc, "convert_currency") || contains_text(lc, "exchange_rate") {
        Some(currency_result(lc))
    } else if contains_text(lc, "search_restaurants") || contains_text(lc, "find_restaurants") {
        Some(restaurants_result(lc))
    } else if contains_text(lc, "get_reviews") || contains_text(lc, "reviews(") {
        Some(reviews_result(lc))
    } else if contains_text(lc, "get_time") || contains_text(lc, "time_in") || contains_text(lc, "current_time") {
        Some(time_result(lc))
    } else {
        None
    }
}

/// The result of a call: the canned one for its words, whatever their case, or else the
/// call itself in `result(..)`.
pub open spec fn tool_result(code: Seq<char>) -> Seq<char> {
    match canned_text(lowercase(code)) {
        Some(text) => text,
        None => "result("@ + code + ")"@,
    }
}

/// The result of a call.
pub fn synthesize_result(code: &str) -> (result: String)
    ensures
        result@ == tool_result(code@),
{
    let lc = lowercase_text(code);
    match canned_result(lc.as_str()) {
        Some(text) => text.to_owned(),
        None => {
            let mut result = "result(".to_owned();
            result.append(code);
            result.append(")");
            result
        },
    }
}

/// A call that names no tool comes back in `result(..)`.
pub proof fn unknown_call_echoes(code: Seq<char>)
    requires
        canned_text(lowercase(code)) is None,
    ensures
        tool_result(code) == "result("@ + code + ")"@,
{
}

} // verus!
