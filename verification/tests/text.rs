//! Text helpers and canned tools.

use asynclm::text::{
    chars_of, contains_text, ends_with_open_bracket, is_white_space, same_text, trim_text,
};
use asynclm::tools::{
    canned_result, currency_result, restaurants_result, reviews_result, stock_result,
    synthesize_result, time_result, weather_result,
};

#[test]
fn white_space_is_that_of_std() {
    for c in '\u{0}'..='\u{10ffff}' {
        assert_eq!(is_white_space(c), c.is_whitespace(), "{:?}", c);
    }
}

#[test]
fn trimming_is_that_of_std() {
    for s in ["", " ", "a", " a b ", "\u{3000}x\u{2028}", "\t\nfoo bar\r\n", "\u{200b}a ", "  é "] {
        assert_eq!(trim_text(s), s.trim());
    }
}

#[test]
fn searching_is_that_of_std() {
    let texts = ["", "a", "ab", "abab", "get_weather(\"x\")", "weather", "wéather(", "aaab"];
    for hay in texts {
        for needle in texts {
            assert_eq!(contains_text(hay, needle), hay.contains(needle));
        }
    }
    assert!(contains_text("aaab", "aab"));
}

#[test]
fn open_brackets_are_seen() {
    assert!(ends_with_open_bracket("\n["));
    assert!(ends_with_open_bracket("["));
    assert!(!ends_with_open_bracket("[ "));
    assert!(!ends_with_open_bracket(""));
}

#[test]
fn texts_are_compared_by_their_characters() {
    assert!(same_text("é[", "é["));
    assert!(!same_text("a", "A"));
    assert_eq!(chars_of("é["), vec!['é', '[']);
}

#[test]
fn weather_is_canned() {
    assert_eq!(weather_result("get_weather(\"london\")"), r#"{"temp_f": 60, "sky": "cloudy"}"#);
    assert_eq!(weather_result("paris"), r#"{"temp_f": 59, "sky": "rainy"}"#);
    assert_eq!(weather_result("boston"), r#"{"temp_f": 68, "sky": "clear"}"#);
    assert_eq!(weather_result("tokyo"), r#"{"temp_f": 75, "sky": "humid"}"#);
    assert_eq!(weather_result("68"), r#"{"temp_f": 72, "sky": "sunny"}"#);
    assert_eq!(weather_result("tokyo and london"), r#"{"temp_f": 60, "sky": "cloudy"}"#);
}

#[test]
fn stocks_are_canned() {
    assert_eq!(stock_result("aapl"), r#"{"ticker": "AAPL", "price_usd": 189.50}"#);
    assert_eq!(stock_result("goog"), r#"{"ticker": "GOOG", "price_usd": 141.20}"#);
    assert_eq!(stock_result("tsla"), r#"{"ticker": "TSLA", "price_usd": 258.30}"#);
    assert_eq!(stock_result("msft"), r#"{"ticker": "UNKNOWN", "price_usd": 100.00}"#);
}

#[test]
fn currencies_are_canned() {
    assert_eq!(currency_result("eur"), r#"{"rate": 0.92, "quote": "USD->EUR"}"#);
    assert_eq!(currency_result("jpy"), r#"{"rate": 155.40, "quote": "USD->JPY"}"#);
    assert_eq!(currency_result("gbp"), r#"{"rate": 0.79, "quote": "USD->GBP"}"#);
    assert_eq!(currency_result("chf"), r#"{"rate": 1.00, "quote": "USD->USD"}"#);
}

#[test]
fn restaurants_and_reviews_are_canned() {
    assert_eq!(restaurants_result("tokyo"), r#"["Sukiyabashi Jiro", "Ichiran", "Sushi Saito"]"#);
    assert_eq!(restaurants_result("paris"), r#"["Le Jules Verne", "L'Ami Jean", "Septime"]"#);
    assert_eq!(restaurants_result("nyc"), r#"["Katz's Deli", "Joe's Pizza", "Lombardi's"]"#);
    assert_eq!(
        reviews_result("katz"),
        r#"{"stars": 4.6, "summary": "Iconic pastrami sandwiches"}"#
    );
    assert_eq!(
        reviews_result("jiro"),
        r#"{"stars": 4.9, "summary": "Legendary omakase, tiny counter"}"#
    );
    assert_eq!(
        reviews_result("joe"),
        r#"{"stars": 4.4, "summary": "Classic NY slice, cheap and fast"}"#
    );
    assert_eq!(
        reviews_result("other"),
        r#"{"stars": 4.0, "summary": "Solid, well-reviewed spot"}"#
    );
}

#[test]
fn times_are_canned() {
    assert_eq!(time_result("jst"), r#"{"time": "2026-04-21T23:32+09:00", "tz": "JST"}"#);
    assert_eq!(time_result("gmt"), r#"{"time": "2026-04-21T15:32+01:00", "tz": "BST"}"#);
    assert_eq!(time_result("nyc"), r#"{"time": "2026-04-21T10:32-04:00", "tz": "EDT"}"#);
    assert_eq!(time_result("utc"), r#"{"time": "2026-04-21T14:32+00:00", "tz": "UTC"}"#);
}

#[test]
fn a_call_names_its_tool() {
    assert_eq!(canned_result("weather(paris)"), Some(r#"{"temp_f": 59, "sky": "rainy"}"#));
    assert_eq!(
        canned_result("get_stock(aapl)"),
        Some(r#"{"ticker": "AAPL", "price_usd": 189.50}"#)
    );
    assert_eq!(
        canned_result("exchange_rate(eur)"),
        Some(r#"{"rate": 0.92, "quote": "USD->EUR"}"#)
    );
    assert_eq!(
        canned_result("find_restaurants(paris)"),
        Some(r#"["Le Jules Verne", "L'Ami Jean", "Septime"]"#)
    );
    assert_eq!(
        canned_result("reviews(joe)"),
        Some(r#"{"stars": 4.4, "summary": "Classic NY slice, cheap and fast"}"#)
    );
    assert_eq!(
        canned_result("current_time(x)"),
        Some(r#"{"time": "2026-04-21T14:32+00:00", "tz": "UTC"}"#)
    );
    assert_eq!(canned_result("frobnicate()"), None);
}

#[test]
fn the_case_of_a_call_does_not_matter() {
    assert_eq!(
        synthesize_result("GET_WEATHER(\"LoNdOn\")"),
        r#"{"temp_f": 60, "sky": "cloudy"}"#
    );
}

#[test]
fn an_unknown_call_echoes() {
    assert_eq!(synthesize_result("Foo(1)"), "result(Foo(1))");
    assert_eq!(synthesize_result(""), "result()");
}
