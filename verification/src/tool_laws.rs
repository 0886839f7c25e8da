//! What the tools answer, case by case.

use vstd::prelude::*;
use vstd::string::*;

use crate::text::{lowercase, occurs};
use crate::tools::{
    canned_text, currency_text, restaurants_text, reviews_text, stock_text, time_text, tool_result,
    weather_text,
};

verus! {

broadcast use vstd::string::group_string_axioms;

/// The weather report is that of the first city of the list that the call names.
pub proof fn weather_by_city(lc: Seq<char>)
    ensures
        occurs(lc, "london"@) ==> weather_text(lc) == r#"{"temp_f": 60, "sky": "cloudy"}"#@,
        !occurs(lc, "london"@) && occurs(lc, "paris"@)
            ==> weather_text(lc) == r#"{"temp_f": 59, "sky": "rainy"}"#@,
        !occurs(lc, "london"@) && !occurs(lc, "paris"@) && occurs(lc, "boston"@)
            ==> weather_text(lc) == r#"{"temp_f": 68, "sky": "clear"}"#@,
        !occurs(lc, "london"@) && !occurs(lc, "paris"@) && !occurs(lc, "boston"@)
            && occurs(lc, "tokyo"@)
            ==> weather_text(lc) == r#"{"temp_f": 75, "sky": "humid"}"#@,
        !occurs(lc, "london"@) && !occurs(lc, "paris"@) && !occurs(lc, "boston"@)
            && !occurs(lc, "tokyo"@)
            ==> weather_text(lc) == r#"{"temp_f": 72, "sky": "sunny"}"#@,
{
}

/// The share price is that of the first ticker of the list that the call names.
pub proof fn share_price_by_ticker(lc: Seq<char>)
    ensures
        occurs(lc, "aapl"@) ==> stock_text(lc) == r#"{"ticker": "AAPL", "price_usd": 189.50}"#@,
        !occurs(lc, "aapl"@) && occurs(lc, "goog"@)
            ==> stock_text(lc) == r#"{"ticker": "GOOG", "price_usd": 141.20}"#@,
        !occurs(lc, "aapl"@) && !occurs(lc, "goog"@) && occurs(lc, "tsla"@)
            ==> stock_text(lc) == r#"{"ticker": "TSLA", "price_usd": 258.30}"#@,
        !occurs(lc, "aapl"@) && !occurs(lc, "goog"@) && !occurs(lc, "tsla"@)
            ==> stock_text(lc) == r#"{"ticker": "UNKNOWN", "price_usd": 100.00}"#@,
{
}

/// The exchange rate is that of the first currency of the list that the call names.
pub proof fn exchange_rate_by_currency(lc: Seq<char>)
    ensures
        occurs(lc, "eur"@) ==> currency_text(lc) == r#"{"rate": 0.92, "quote": "USD->EUR"}"#@,
        !occurs(lc, "eur"@) && occurs(lc, "jpy"@)
            ==> currency_text(lc) == r#"{"rate": 155.40, "quote": "USD->JPY"}"#@,
        !occurs(lc, "eur"@) && !occurs(lc, "jpy"@) && occurs(lc, "gbp"@)
            ==> currency_text(lc) == r#"{"rate": 0.79, "quote": "USD->GBP"}"#@,
        !occurs(lc, "eur"@) && !occurs(lc, "jpy"@) && !occurs(lc, "gbp"@)
            ==> currency_text(lc) == r#"{"rate": 1.00, "quote": "USD->USD"}"#@,
{
}

/// The restaurants are those of the first city of the list that the call names.
pub proof fn restaurants_by_city(lc: Seq<char>)
    ensures
        occurs(lc, "tokyo"@)
            ==> restaurants_text(lc) == r#"["Sukiyabashi Jiro", "Ichiran", "Sushi Saito"]"#@,
        !occurs(lc, "tokyo"@) && occurs(lc, "paris"@)
            ==> restaurants_text(lc) == r#"["Le Jules Verne", "L'Ami Jean", "Septime"]"#@,
        !occurs(lc, "tokyo"@) && !occurs(lc, "paris"@)
            ==> restaurants_text(lc) == r#"["Katz's Deli", "Joe's Pizza", "Lombardi's"]"#@,
{
}

/// The review is that of the first restaurant of the list that the call names.
pub proof fn reviews_by_name(lc: Seq<char>)
    ensures
        occurs(lc, "katz"@)
            ==> reviews_text(lc) == r#"{"stars": 4.6, "summary": "Iconic pastrami sandwiches"}"#@,
        !occurs(lc, "katz"@) && occurs(lc, "jiro"@)
            ==> reviews_text(lc) ==
            r#"{"stars": 4.9, "summary": "Legendary omakase, tiny counter"}"#@,
        !occurs(lc, "katz"@) && !occurs(lc, "jiro"@) && occurs(lc, "joe"@)
            ==> reviews_text(lc) ==
            r#"{"stars": 4.4, "summary": "Classic NY slice, cheap and fast"}"#@,
        !occurs(lc, "katz"@) && !occurs(lc, "jiro"@) && !occurs(lc, "joe"@)
            ==> reviews_text(lc) == r#"{"stars": 4.0, "summary": "Solid, well-reviewed spot"}"#@,
{
}

/// The time is that of the first place of the list that the call names.
pub proof fn time_by_place(lc: Seq<char>)
    ensures
        occurs(lc, "tokyo"@) || occurs(lc, "jst"@)
            ==> time_text(lc) == r#"{"time": "2026-04-21T23:32+09:00", "tz": "JST"}"#@,
        !occurs(lc, "tokyo"@) && !occurs(lc, "jst"@) && (occurs(lc, "london"@)
            || occurs(lc, "gmt"@))
            ==> time_text(lc) == r#"{"time": "2026-04-21T15:32+01:00", "tz": "BST"}"#@,
        !occurs(lc, "tokyo"@) && !occurs(lc, "jst"@) && !occurs(lc, "london"@)
            && !occurs(lc, "gmt"@) && (occurs(lc, "new_york"@) || occurs(lc, "nyc"@)
            || occurs(lc, "est"@))
            ==> time_text(lc) == r#"{"time": "2026-04-21T10:32-04:00", "tz": "EDT"}"#@,
        !occurs(lc, "tokyo"@) && !occurs(lc, "jst"@) && !occurs(lc, "london"@)
            && !occurs(lc, "gmt"@) && !occurs(lc, "new_york"@) && !occurs(lc, "nyc"@)
            && !occurs(lc, "est"@)
            ==> time_text(lc) == r#"{"time": "2026-04-21T14:32+00:00", "tz": "UTC"}"#@,
{
}

/// Which tool a call names: the first of the list that it names, and none where it names none.
pub proof fn tool_by_name(lc: Seq<char>)
    ensures
        occurs(lc, "get_weather"@) || occurs(lc, "weather("@)
            ==> canned_text(lc) == Some(weather_text(lc)),
        !occurs(lc, "get_weather"@) && !occurs(lc, "weather("@) && (occurs(lc, "stock_price"@)
            || occurs(lc, "get_stock"@))
            ==> canned_text(lc) == Some(stock_text(lc)),
        !occurs(lc, "get_weather"@) && !occurs(lc, "weather("@) && !occurs(lc, "stock_price"@)
            && !occurs(lc, "get_stock"@) && (occurs(lc, "convert_currency"@)
            || occurs(lc, "exchange_rate"@))
            ==> canned_text(lc) == Some(currency_text(lc)),
        !occurs(lc, "get_weather"@) && !occurs(lc, "weather("@) && !occurs(lc, "stock_price"@)
            && !occurs(lc, "get_stock"@) && !occurs(lc, "convert_currency"@)
            && !occurs(lc, "exchange_rate"@) && (occurs(lc, "search_restaurants"@)
            || occurs(lc, "find_restaurants"@))
            ==> canned_text(lc) == Some(restaurants_text(lc)),
        !occurs(lc, "get_weather"@) && !occurs(lc, "weather("@) && !occurs(lc, "stock_price"@)
            && !occurs(lc, "get_stock"@) && !occurs(lc, "convert_currency"@)
            && !occurs(lc, "exchange_rate"@) && !occurs(lc, "search_restaurants"@)
            && !occurs(lc, "find_restaurants"@) && (occurs(lc, "get_reviews"@)
            || occurs(lc, "reviews("@))
            ==> canned_text(lc) == Some(reviews_text(lc)),
        !occurs(lc, "get_weather"@) && !occurs(lc, "weather("@) && !occurs(lc, "stock_price"@)
            && !occurs(lc, "get_stock"@) && !occurs(lc, "convert_currency"@)
            && !occurs(lc, "exchange_rate"@) && !occurs(lc, "search_restaurants"@)
            && !occurs(lc, "find_restaurants"@) && !occurs(lc, "get_reviews"@)
            && !occurs(lc, "reviews("@) && (occurs(lc, "get_time"@) || occurs(lc, "time_in"@)
            || occurs(lc, "current_time"@))
            ==> canned_text(lc) == Some(time_text(lc)),
        !occurs(lc, "get_weather"@) && !occurs(lc, "weather("@) && !occurs(lc, "stock_price"@)
            && !occurs(lc, "get_stock"@) && !occurs(lc, "convert_currency"@)
            && !occurs(lc, "exchange_rate"@) && !occurs(lc, "search_restaurants"@)
            && !occurs(lc, "find_restaurants"@) && !occurs(lc, "get_reviews"@)
            && !occurs(lc, "reviews("@) && !occurs(lc, "get_time"@) && !occurs(lc, "time_in"@)
            && !occurs(lc, "current_time"@)
            ==> canned_text(lc) is None,
{
}

/// A tool answers by the lower-case form of a call alone. A call that names no tool is echoed
/// as it was written.
pub proof fn answers_go_by_the_lower_case_form(a: Seq<char>, b: Seq<char>)
    ensures
        canned_text(lowercase(a)) matches Some(text) ==> tool_result(a) == text,
        canned_text(lowercase(a)) is None ==> tool_result(a) == "result("@ + a + ")"@,
        canned_text(lowercase(a)) is Some && lowercase(a) == lowercase(b) ==> tool_result(a)
            == tool_result(b),
{
}

} // verus!
