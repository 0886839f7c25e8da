//! The call-markup parser on a small hand-written tokenizer.

use asynclm::blocks::{BlockParser, HintParser};
use asynclm::codec::{CodecTable, TokenCodec};
use asynclm::machine::{Event, State};
use asynclm::parser::Parser;
use asynclm::pattern::Delim;
use asynclm::registry::CmlRegistry;

const OPEN: u32 = 58;
const CLOSE: u32 = 60;
const CLOSE_NL: u32 = 61;
const CALL: u32 = 100;
const END: u32 = 101;
const HEAD: u32 = 102;
const TRAP: u32 = 103;
const INTR: u32 = 104;
const NL_OPEN: u32 = 498;
const MERGED: u32 = 1404;
const W1: u32 = 200;
const WEATHER: u32 = 201;
const HELLO: u32 = 202;
const WORLD: u32 = 203;
const THINK: u32 = 300;
const UNTHINK: u32 = 301;

fn table() -> CodecTable {
    let pieces: Vec<(u32, &str)> = vec![
        (OPEN, "["),
        (CLOSE, "]"),
        (CLOSE_NL, "]\n"),
        (CALL, "CALL"),
        (END, "END"),
        (HEAD, "HEAD"),
        (TRAP, "TRAP"),
        (INTR, "INTR"),
        (NL_OPEN, "\n["),
        (MERGED, "]["),
        (W1, " w1 "),
        (WEATHER, " get_weather(\"London\") "),
        (HELLO, "Hello"),
        (WORLD, " world"),
    ];
    let encodings: Vec<(&str, Vec<u32>)> = vec![
        ("[CALL]", vec![OPEN, CALL, CLOSE]),
        ("[END]", vec![OPEN, END, CLOSE]),
        ("[HEAD]", vec![OPEN, HEAD, CLOSE]),
        ("[TRAP]", vec![OPEN, TRAP, CLOSE]),
        ("[INTR]", vec![OPEN, INTR, CLOSE]),
        ("][", vec![MERGED]),
    ];
    CodecTable {
        pieces: pieces.into_iter().map(|(t, s)| (t, s.to_string())).collect(),
        encodings: encodings.into_iter().map(|(s, v)| (s.to_string(), v)).collect(),
        special_ids: vec![THINK, UNTHINK],
        special_bytes: vec![b"<think>".to_vec(), b"</think>".to_vec()],
        vocab_ids: vec![OPEN, CLOSE, CLOSE_NL, MERGED, HELLO],
        vocab_bytes: vec![
            b"[".to_vec(),
            b"]".to_vec(),
            b"]\n".to_vec(),
            b"][".to_vec(),
            b"Hello".to_vec(),
        ],
    }
}

fn show(events: &[Event]) -> Vec<String> {
    events
        .iter()
        .map(|e| match e {
            Event::Passthrough(t) => format!("{}", t),
            Event::Call { id, code } => format!("call {}: {}", id, code),
            Event::Trap => "trap".to_string(),
            Event::EnterCriticalSection => "enter".to_string(),
            Event::ExitCriticalSection => "exit".to_string(),
            Event::EnteringBlockHint => "hint".to_string(),
        })
        .collect()
}

fn feed(parser: &mut Parser, codec: &TokenCodec, tokens: &[u32]) -> Vec<String> {
    let mut out = Vec::new();
    for t in tokens {
        out.extend(show(&parser.feed(*t, codec)));
    }
    out
}

fn with_parser(tokens: &[u32]) -> (Vec<String>, bool) {
    let table = table();
    let codec = TokenCodec::Table(&table);
    let reg = CmlRegistry::new(&codec);
    let mut parser = Parser::new(&reg);
    let out = feed(&mut parser, &codec, tokens);
    (out, parser.is_clean())
}

#[test]
fn a_call_block_gives_one_call() {
    let (out, clean) = with_parser(&[
        OPEN, CALL, CLOSE, W1, OPEN, HEAD, CLOSE, WEATHER, OPEN, END, CLOSE,
    ]);
    assert_eq!(out, vec!["call w1: get_weather(\"London\")"]);
    assert!(clean);
}

#[test]
fn a_call_without_body_has_no_code() {
    let (out, clean) = with_parser(&[OPEN, CALL, CLOSE, W1, OPEN, END, CLOSE]);
    assert_eq!(out, vec!["call w1: "]);
    assert!(clean);
}

#[test]
fn text_around_a_call_comes_through() {
    let (out, clean) = with_parser(&[
        HELLO, OPEN, CALL, CLOSE, W1, OPEN, HEAD, CLOSE, WEATHER, OPEN, END, CLOSE, WORLD,
    ]);
    assert_eq!(out, vec!["202", "call w1: get_weather(\"London\")", "203"]);
    assert!(clean);
}

#[test]
fn fused_brackets_are_dropped() {
    let (out, clean) = with_parser(&[
        HELLO, NL_OPEN, CALL, CLOSE, W1, NL_OPEN, HEAD, CLOSE, WEATHER, NL_OPEN, END, CLOSE,
    ]);
    assert_eq!(out, vec!["202", "call w1: get_weather(\"London\")"]);
    assert!(clean);
}

#[test]
fn fused_closing_brackets_close() {
    let (out, clean) = with_parser(&[
        OPEN, CALL, CLOSE_NL, W1, OPEN, HEAD, CLOSE_NL, WEATHER, OPEN, END, CLOSE_NL,
    ]);
    assert_eq!(out, vec!["call w1: get_weather(\"London\")"]);
    assert!(clean);
}

#[test]
fn a_trap_gives_one_trap() {
    let (out, clean) = with_parser(&[OPEN, TRAP, CLOSE, OPEN, END, CLOSE]);
    assert_eq!(out, vec!["trap"]);
    assert!(clean);
}

#[test]
fn a_trap_with_a_merged_bracket_gives_one_trap() {
    let (out, clean) = with_parser(&[OPEN, TRAP, MERGED, END, CLOSE]);
    assert_eq!(out, vec!["trap"]);
    assert!(clean);
}

#[test]
fn an_interrupt_gives_nothing() {
    let (out, clean) = with_parser(&[
        OPEN, INTR, CLOSE, W1, OPEN, HEAD, CLOSE, WORLD, OPEN, END, CLOSE,
    ]);
    assert!(out.is_empty());
    assert!(clean);
}

#[test]
fn an_interrupt_needs_its_bracket() {
    let (out, clean) = with_parser(&[INTR, CLOSE, HELLO]);
    assert_eq!(out, vec!["104", "60", "202"]);
    assert!(clean);
}

#[test]
fn a_stray_end_is_text_without_its_bracket() {
    let (out, clean) = with_parser(&[HELLO, OPEN, END, CLOSE, WORLD]);
    assert_eq!(out, vec!["202", "101", "60", "203"]);
    assert!(clean);
}

#[test]
fn an_aborted_delimiter_drops_its_bracket() {
    let (out, clean) = with_parser(&[OPEN, HELLO]);
    assert_eq!(out, vec!["202"]);
    assert!(clean);
}

#[test]
fn reasoning_passes_verbatim() {
    let (out, clean) = with_parser(&[
        THINK, OPEN, CALL, CLOSE, W1, OPEN, END, CLOSE, UNTHINK, OPEN, TRAP, CLOSE, OPEN, END, CLOSE,
    ]);
    assert_eq!(
        out,
        vec!["300", "58", "100", "60", "200", "58", "101", "60", "301", "trap"]
    );
    assert!(clean);
}

#[test]
fn a_flush_hands_on_what_is_held_back() {
    let table = table();
    let codec = TokenCodec::Table(&table);
    let reg = CmlRegistry::new(&codec);
    let mut parser = Parser::new(&reg);
    assert_eq!(feed(&mut parser, &codec, &[HELLO, OPEN, CALL]), vec!["202"]);
    assert!(!parser.is_clean());
    assert_eq!(show(&parser.flush(&codec)), vec!["100"]);
    assert!(parser.is_clean());
}

#[test]
fn boundaries_of_reasoning_are_reported() {
    let table = table();
    let codec = TokenCodec::Table(&table);
    let reg = CmlRegistry::new(&codec);
    let mut parser = Parser::new(&reg);
    assert!(!parser.observe_think_boundary(HELLO));
    assert!(parser.observe_think_boundary(THINK));
    assert!(!parser.observe_think_boundary(HELLO));
    assert!(parser.observe_think_boundary(UNTHINK));
}

#[test]
fn boundaries_of_several_tokens_are_found() {
    let mut table = table();
    table.special_ids = Vec::new();
    table.special_bytes = Vec::new();
    table.encodings.push(("<think>".to_string(), vec![7, 8]));
    table.encodings.push(("</think>".to_string(), vec![7, 9, 8]));
    let codec = TokenCodec::Table(&table);
    let reg = CmlRegistry::new(&codec);
    let mut parser = Parser::new(&reg);
    let out = feed(
        &mut parser,
        &codec,
        &[HELLO, 7, 8, OPEN, CALL, CLOSE, 7, 9, 8, OPEN, TRAP, CLOSE, OPEN, END, CLOSE],
    );
    assert_eq!(
        out,
        vec!["202", "7", "8", "58", "100", "60", "7", "9", "8", "trap"]
    );
}

#[test]
fn delimiters_are_matched_in_their_order() {
    let table = table();
    let codec = TokenCodec::Table(&table);
    let reg = CmlRegistry::new(&codec);
    let parser = Parser::new(&reg);
    assert_eq!(parser.match_full(&vec![HELLO, OPEN, CALL, CLOSE]), (Delim::Call, 3));
    assert_eq!(parser.match_full(&vec![OPEN, TRAP, CLOSE, OPEN, END, CLOSE]), (Delim::End, 3));
    assert_eq!(parser.match_full(&vec![OPEN, TRAP, CLOSE]), (Delim::Trap, 3));
    assert_eq!(parser.match_full(&vec![OPEN, HEAD, CLOSE_NL]), (Delim::Head, 3));
    assert_eq!(parser.match_full(&vec![OPEN, INTR, CLOSE]), (Delim::Intr, 3));
    assert_eq!(parser.match_full(&vec![OPEN, CALL]), (Delim::Nothing, 0));
    assert_eq!(parser.match_inner(&vec![HEAD, CLOSE]), (Delim::Head, 2));
    assert_eq!(parser.match_normal_inner(&vec![HEAD, CLOSE]), (Delim::Nothing, 0));
    assert_eq!(parser.match_normal_inner(&vec![INTR, CLOSE]), (Delim::Nothing, 0));
    assert_eq!(parser.match_inner(&vec![INTR, CLOSE]), (Delim::Intr, 2));
    assert_eq!(parser.match_normal_inner(&vec![TRAP, CLOSE]), (Delim::Trap, 2));
    assert_eq!(
        parser.match_normal_inner(&vec![TRAP, CLOSE, OPEN, END, CLOSE]),
        (Delim::TrapEnd, 5)
    );
    assert_eq!(parser.match_full_or_inner(&vec![END, CLOSE]), (Delim::End, 2));
    assert_eq!(parser.match_full_or_normal_inner(&vec![CALL, CLOSE]), (Delim::Call, 2));
    assert_eq!(parser.match_full_or_normal_inner(&vec![END, CLOSE]), (Delim::Nothing, 0));
}

#[test]
fn closing_tokens_stand_for_one_another() {
    let table = table();
    let codec = TokenCodec::Table(&table);
    let reg = CmlRegistry::new(&codec);
    let parser = Parser::new(&reg);
    assert!(parser.pos_eq(CLOSE_NL, CLOSE));
    assert!(parser.pos_eq(CLOSE, MERGED));
    assert!(parser.pos_eq(HELLO, HELLO));
    assert!(!parser.pos_eq(OPEN, CLOSE));
    assert!(parser.ends_with(&vec![HELLO, END, CLOSE_NL], &vec![END, CLOSE]));
    assert!(!parser.ends_with(&vec![HELLO], &vec![]));
    assert!(!parser.ends_with(&vec![CLOSE], &vec![END, CLOSE]));
    assert!(parser.is_prefix(&vec![END], &vec![END, CLOSE]));
    assert!(parser.is_prefix(&vec![], &vec![END]));
    assert!(!parser.is_prefix(&vec![], &vec![]));
    assert!(!parser.is_prefix(&vec![END, CLOSE, HELLO], &vec![END, CLOSE]));
    assert!(parser.is_prefix_of_any(&vec![OPEN, TRAP, CLOSE, OPEN]));
    assert!(!parser.is_prefix_of_any(&vec![HELLO]));
}

#[test]
fn every_pattern_is_listed() {
    let table = table();
    let codec = TokenCodec::Table(&table);
    let reg = CmlRegistry::new(&codec);
    let parser = Parser::new(&reg);
    let all = parser.all_delim_patterns();
    let rows: Vec<Vec<u32>> = all.iter().map(|v| v.to_vec()).collect();
    let names = [CALL, END, TRAP, INTR, HEAD];
    let mut expected: Vec<Vec<u32>> = names.iter().map(|n| vec![OPEN, *n, CLOSE]).collect();
    expected.extend(names.iter().map(|n| vec![*n, CLOSE]));
    expected.push(vec![OPEN, TRAP, CLOSE, OPEN, END, CLOSE]);
    expected.push(vec![OPEN, TRAP, MERGED, END, CLOSE]);
    expected.push(vec![TRAP, CLOSE, OPEN, END, CLOSE]);
    expected.push(vec![TRAP, MERGED, END, CLOSE]);
    assert_eq!(rows, expected);
}

#[test]
fn a_plain_parser_takes_an_interrupt_for_text() {
    let table = table();
    let codec = TokenCodec::Table(&table);
    let reg = CmlRegistry::new_plain(&codec);
    let mut parser = Parser::new_plain(&reg);
    let out = feed(&mut parser, &codec, &[OPEN, INTR, CLOSE, HELLO]);
    assert_eq!(out, vec!["104", "60", "202"]);
    let out = feed(&mut parser, &codec, &[OPEN, END, CLOSE_NL, HELLO]);
    assert_eq!(out, vec!["101", "61", "202"]);
    assert_eq!(parser.state(), State::Normal);
}

#[test]
fn states_follow_the_markup() {
    let table = table();
    let codec = TokenCodec::Table(&table);
    let reg = CmlRegistry::new(&codec);
    let mut parser = Parser::new(&reg);
    feed(&mut parser, &codec, &[OPEN, CALL, CLOSE]);
    assert_eq!(parser.state(), State::InCallId);
    feed(&mut parser, &codec, &[W1, OPEN, HEAD, CLOSE]);
    assert_eq!(parser.state(), State::InCallBody);
    feed(&mut parser, &codec, &[OPEN, END, CLOSE]);
    assert_eq!(parser.state(), State::Normal);
    feed(&mut parser, &codec, &[OPEN, TRAP, CLOSE]);
    assert_eq!(parser.state(), State::InTrap);
    let mut events: Vec<Event> = Vec::new();
    parser.feed_in_trap(HELLO, &mut events);
    parser.feed_in_trap(OPEN, &mut events);
    parser.feed_in_trap(END, &mut events);
    parser.feed_in_trap(CLOSE, &mut events);
    assert_eq!(show(&events), vec!["trap"]);
    feed(&mut parser, &codec, &[OPEN, INTR, CLOSE]);
    assert_eq!(parser.state(), State::InIntrId);
    for t in [W1, OPEN, HEAD, CLOSE] {
        parser.feed_in_intr_id(t);
    }
    assert_eq!(parser.state(), State::InIntrBody);
    for t in [HELLO, OPEN, END, CLOSE] {
        parser.feed_in_intr_body(t);
    }
    assert_eq!(parser.state(), State::Normal);
}

#[test]
fn a_block_parser_announces_blocks() {
    let table = table();
    let codec = TokenCodec::Table(&table);
    let reg = CmlRegistry::new_plain(&codec);
    let mut parser = BlockParser::new(&reg);
    let mut out = Vec::new();
    for t in [
        HELLO, OPEN, CALL, CLOSE, W1, OPEN, HEAD, CLOSE, WEATHER, OPEN, END, CLOSE, OPEN, TRAP,
        CLOSE, OPEN, END, CLOSE, WORLD, OPEN,
    ] {
        out.extend(show(&parser.feed(t, &codec)));
    }
    assert_eq!(
        out,
        vec![
            "202",
            "enter",
            "call w1: get_weather(\"London\")",
            "exit",
            "enter",
            "trap",
            "exit",
            "203"
        ]
    );
    assert!(!parser.is_clean());
    assert!(show(&parser.flush(&codec)).is_empty());
    assert!(parser.is_clean());
}

#[test]
fn a_hint_comes_before_a_block() {
    let table = table();
    let codec = TokenCodec::Table(&table);
    let reg = CmlRegistry::new_plain(&codec);
    let mut parser = HintParser::new(&reg);
    assert!(show(&parser.feed(HELLO, &codec)).len() == 1);
    assert_eq!(show(&parser.feed(OPEN, &codec)), vec!["hint"]);
    assert!(parser.feed(CALL, &codec).is_empty());
    assert_eq!(show(&parser.feed(CLOSE, &codec)), vec!["enter"]);
    assert!(parser.feed(W1, &codec).is_empty());
    for t in [OPEN, HEAD, CLOSE, WEATHER, OPEN, END] {
        assert!(parser.feed(t, &codec).is_empty());
    }
    assert_eq!(
        show(&parser.feed(CLOSE, &codec)),
        vec!["call w1: get_weather(\"London\")", "exit"]
    );
    assert!(parser.is_clean());
    assert_eq!(show(&parser.feed(OPEN, &codec)), vec!["hint"]);
    assert_eq!(show(&parser.feed(HELLO, &codec)), vec!["202"]);
    assert_eq!(show(&parser.feed(OPEN, &codec)), vec!["hint"]);
    assert!(parser.feed(END, &codec).is_empty());
    assert!(show(&parser.flush(&codec)).len() == 1);
}

#[test]
fn single_token_delimiters_work() {
    let mut table = table();
    table.special_ids = vec![1, 2, 3, 4, 5];
    table.special_bytes = vec![
        b"[CALL]".to_vec(),
        b"[END]".to_vec(),
        b"[HEAD]".to_vec(),
        b"[TRAP]".to_vec(),
        b"[INTR]".to_vec(),
    ];
    let codec = TokenCodec::Table(&table);
    let reg = CmlRegistry::new(&codec);
    let mut parser = Parser::new(&reg);
    let out = feed(&mut parser, &codec, &[1, W1, 3, WEATHER, 2, 4, 2, 5, HELLO, 3, WORLD, 2, WORLD]);
    assert_eq!(out, vec!["call w1: get_weather(\"London\")", "trap", "203"]);
}
