//! Registries, masks and the parser for several spellings.

use std::collections::HashSet;

use asynclm::cml::CmlParser;
use asynclm::codec::{copy_row, copy_rows, CodecTable, TokenCodec};
use asynclm::machine::Event;
use asynclm::mask::{full_mask_size, mask_size, vocab_size, SuppressMask};
use asynclm::pattern::Delim;
use asynclm::registry::{
    build_special_map, build_trap_end_variants, collect_close_bracket_alts,
    compute_intr_suppression, resolve_token, CmlRegistry,
};
use asynclm::variants::{concat_text, same_row, CmlTokenRegistry};

fn table(encodings: &[(&str, &[u32])], pieces: &[(u32, &str)]) -> CodecTable {
    CodecTable {
        pieces: pieces.iter().map(|(t, s)| (*t, s.to_string())).collect(),
        encodings: encodings.iter().map(|(s, v)| (s.to_string(), v.to_vec())).collect(),
        special_ids: Vec::new(),
        special_bytes: Vec::new(),
        vocab_ids: Vec::new(),
        vocab_bytes: Vec::new(),
    }
}

fn brackets() -> CodecTable {
    table(
        &[
            ("[CALL]", &[58, 100, 60]),
            ("[END]", &[58, 101, 60]),
            ("[HEAD]", &[58, 102, 60]),
            ("[TRAP]", &[58, 103, 60]),
            ("[INTR]", &[58, 104, 105, 60]),
            ("\n[CALL]", &[498, 100, 60]),
            (" [CALL]", &[499, 100, 60]),
            ("\n[END]", &[58, 101, 60]),
            (" [END]", &[]),
            ("\n[TRAP]", &[10, 58, 103, 60]),
            (" [TRAP]", &[10, 58, 103, 60]),
        ],
        &[
            (58, "["),
            (60, "]"),
            (100, "CALL"),
            (101, "END"),
            (102, "HEAD"),
            (103, "TRAP"),
            (498, "\n["),
            (499, " ["),
            (500, "\t["),
            (200, " id "),
            (201, " f(x) "),
            (202, "text"),
        ],
    )
}

fn show(events: &[Event]) -> Vec<String> {
    events
        .iter()
        .map(|e| match e {
            Event::Passthrough(t) => format!("{}", t),
            Event::Call { id, code } => format!("call {}: {}", id, code),
            Event::Trap => "trap".to_string(),
            Event::EnterCriticalSection => "enter".to_string(),
            Event::ExitCriticalSection => "exit".to_string(),
            Event::EnteringBlockHint => "hint".to_string(),
        })
        .collect()
}

fn sorted(set: &HashSet<u32>) -> Vec<u32> {
    let mut v: Vec<u32> = set.iter().copied().collect();
    v.sort();
    v
}

#[test]
fn only_the_tokens_of_intr_alone_are_suppressed() {
    let table = brackets();
    let reg = CmlRegistry::new(&TokenCodec::Table(&table));
    assert_eq!(sorted(&reg.suppressed), vec![104, 105]);
    let s = compute_intr_suppression(&vec![1], &vec![2], &vec![3], &vec![4], &vec![1, 2, 3, 4, 5, 5]);
    assert_eq!(sorted(&s), vec![5]);
}

#[test]
fn the_last_special_token_of_a_name_counts() {
    let mut table = brackets();
    table.special_ids = vec![1, 2, 3];
    table.special_bytes = vec![b"[CALL]".to_vec(), b"[CALL]".to_vec(), b"x".to_vec(), b"y".to_vec()];
    let codec = TokenCodec::Table(&table);
    let map = build_special_map(&codec);
    assert_eq!(map.get(b"[CALL]"), Some(2));
    assert_eq!(map.get(b"x"), Some(3));
    assert_eq!(map.get(b"y"), None);
    assert_eq!(resolve_token("[CALL]", &map, &codec), vec![2]);
    assert_eq!(resolve_token("[END]", &map, &codec), vec![58, 101, 60]);
}

#[test]
fn a_merged_bracket_gives_a_second_trap_unit() {
    let mut table = brackets();
    {
        let codec = TokenCodec::Table(&table);
        assert_eq!(build_trap_end_variants(&vec![1, 2], &vec![3, 4], &codec), vec![vec![1, 2, 3, 4]]);
    }
    table.encodings.push(("][".to_string(), vec![9]));
    let codec = TokenCodec::Table(&table);
    assert_eq!(
        build_trap_end_variants(&vec![1, 2], &vec![3, 4], &codec),
        vec![vec![1, 2, 3, 4], vec![1, 9, 4]]
    );
}

#[test]
fn closing_tokens_are_collected_in_order() {
    let mut table = brackets();
    table.vocab_ids = vec![5, 6, 7, 8];
    table.vocab_bytes = vec![b"]".to_vec(), b"".to_vec(), b"x]".to_vec(), b"]\n".to_vec(), b"]]".to_vec()];
    assert_eq!(collect_close_bracket_alts(&TokenCodec::Table(&table)), vec![5, 8]);
}

#[test]
fn a_registry_needs_every_delimiter() {
    let mut table = brackets();
    assert!(CmlRegistry::try_new(&TokenCodec::Table(&table)).is_some());
    assert!(CmlRegistry::try_new_plain(&TokenCodec::Table(&table)).is_some());
    assert!(CmlTokenRegistry::try_new(&TokenCodec::Table(&table)).is_some());
    assert!(CmlTokenRegistry::try_new_fused(&TokenCodec::Table(&table)).is_some());
    assert!(CmlTokenRegistry::try_new_sentinel(&TokenCodec::Table(&table)).is_none());
    table.encodings.retain(|(s, _)| s != "[HEAD]");
    assert!(CmlRegistry::try_new(&TokenCodec::Table(&table)).is_none());
    assert!(CmlRegistry::try_new_plain(&TokenCodec::Table(&table)).is_none());
    assert!(CmlTokenRegistry::try_new(&TokenCodec::Table(&table)).is_none());
    assert!(CmlTokenRegistry::try_new_fused(&TokenCodec::Table(&table)).is_none());
}

#[test]
fn spellings_are_probed_after_a_break_and_a_space() {
    let table = brackets();
    let reg = CmlTokenRegistry::new(&TokenCodec::Table(&table));
    assert_eq!(reg.call_ids, vec![vec![58, 100, 60], vec![498, 100, 60], vec![499, 100, 60]]);
    assert_eq!(reg.end_ids, vec![vec![58, 101, 60]]);
    assert_eq!(reg.trap_ids, vec![vec![58, 103, 60], vec![10, 58, 103, 60]]);
    assert_eq!(reg.trap_end_ids, vec![vec![58, 103, 60, 58, 101, 60]]);
    assert_eq!(sorted(&reg.suppressed_ids), vec![104, 105]);
    assert!(reg.bracketed);
    assert!(!reg.all_single_token());
}

#[test]
fn a_fused_break_gives_a_second_spelling() {
    let table = brackets();
    let reg = CmlTokenRegistry::new_fused(&TokenCodec::Table(&table));
    assert_eq!(reg.call_ids, vec![vec![58, 100, 60], vec![498, 100, 60]]);
    assert_eq!(reg.end_ids, vec![vec![58, 101, 60]]);
    assert_eq!(reg.trap_ids, vec![vec![58, 103, 60]]);
}

#[test]
fn a_parser_reads_every_spelling() {
    let table = brackets();
    let codec = TokenCodec::Table(&table);
    let reg = CmlTokenRegistry::new(&codec);
    for open in [58u32, 498, 499] {
        let mut parser = CmlParser::new(&reg);
        let mut out = Vec::new();
        for t in [202, open, 100, 60, 200, 58, 102, 60, 201, 58, 101, 60, 202] {
            out.extend(show(&parser.feed(t, &codec)));
        }
        assert_eq!(out, vec!["202", "enter", "call id: f(x)", "exit", "202"]);
        assert!(!parser.in_critical_section());
        assert!(!parser.has_pending());
    }
}

#[test]
fn a_parser_strips_brackets_inside_a_block() {
    let table = brackets();
    let codec = TokenCodec::Table(&table);
    let reg = CmlTokenRegistry::new(&codec);
    let mut parser = CmlParser::new(&reg);
    let mut out = Vec::new();
    for t in [58, 100, 60, 200, 500, 102, 60, 201, 500, 101, 60] {
        out.extend(show(&parser.feed(t, &codec)));
    }
    assert_eq!(out, vec!["enter", "call id: f(x)", "exit"]);
}

#[test]
fn a_bracket_that_starts_another_spelling_hides_a_delimiter() {
    let table = brackets();
    let codec = TokenCodec::Table(&table);
    let reg = CmlTokenRegistry::new(&codec);
    let mut parser = CmlParser::new(&reg);
    let mut out = Vec::new();
    for t in [58, 100, 60, 200, 498, 102, 60] {
        out.extend(show(&parser.feed(t, &codec)));
    }
    assert_eq!(out, vec!["enter"]);
    for t in [58, 101, 60] {
        out.extend(show(&parser.feed(t, &codec)));
    }
    assert_eq!(out, vec!["enter", "call id \n[HEAD]: ", "exit"]);
}

#[test]
fn a_second_call_starts_anew() {
    let table = brackets();
    let codec = TokenCodec::Table(&table);
    let reg = CmlTokenRegistry::new(&codec);
    let mut parser = CmlParser::new(&reg);
    let mut out = Vec::new();
    for t in [58, 100, 60, 202, 58, 100, 60, 200, 58, 101, 60] {
        out.extend(show(&parser.feed(t, &codec)));
    }
    assert_eq!(out, vec!["enter", "call id: ", "exit"]);
}

#[test]
fn a_trap_is_announced() {
    let mut table = brackets();
    table.encodings.push(("][".to_string(), vec![9]));
    let codec = TokenCodec::Table(&table);
    let reg = CmlTokenRegistry::new_fused(&codec);
    let mut parser = CmlParser::new(&reg);
    let mut out = Vec::new();
    for t in [58, 103, 60, 202, 58, 101, 60, 58, 103, 9, 101, 60] {
        out.extend(show(&parser.feed(t, &codec)));
    }
    assert_eq!(out, vec!["enter", "trap", "exit", "enter", "trap", "exit"]);
}

#[test]
fn an_end_after_a_stray_trap_still_closes_its_block() {
    let table = brackets();
    let codec = TokenCodec::Table(&table);
    let reg = CmlTokenRegistry::new_fused(&codec);
    let mut parser = CmlParser::new(&reg);
    for t in [58, 100, 60, 202, 58, 102, 60, 203, 58, 103, 60, 58, 101, 60] {
        parser.feed(t, &codec);
    }
    assert!(!parser.in_critical_section());
}

#[test]
fn stray_delimiters_are_text_and_keep_their_brackets() {
    let table = brackets();
    let codec = TokenCodec::Table(&table);
    let reg = CmlTokenRegistry::new(&codec);
    let mut parser = CmlParser::new(&reg);
    let mut out = Vec::new();
    for t in [58, 101, 60, 58, 202, 58] {
        out.extend(show(&parser.feed(t, &codec)));
    }
    assert_eq!(out, vec!["58", "101", "60", "58", "202"]);
    assert!(parser.has_pending());
    assert_eq!(show(&parser.flush_pending()), vec!["58"]);
    assert!(!parser.has_pending());
}

#[test]
fn matching_goes_by_suffix_and_prefix() {
    let table = brackets();
    let codec = TokenCodec::Table(&table);
    let reg = CmlTokenRegistry::new(&codec);
    let parser = CmlParser::new(&reg);
    assert!(CmlParser::buf_ends_with(&vec![1, 2, 3], &vec![2, 3]));
    assert!(!CmlParser::buf_ends_with(&vec![1, 2, 3], &vec![]));
    assert!(!CmlParser::buf_ends_with(&vec![3], &vec![2, 3]));
    assert_eq!(parser.match_delimiter(&vec![498, 100, 60]), (Delim::Call, 3));
    assert_eq!(parser.match_delimiter(&vec![100, 60]), (Delim::Nothing, 0));
    assert_eq!(parser.match_delimiter(&vec![58, 101, 60]), (Delim::End, 3));
    assert_eq!(
        parser.match_delimiter(&vec![58, 103, 60, 58, 101, 60]),
        (Delim::TrapEnd, 6)
    );
    assert_eq!(parser.match_in_block(&vec![58, 103, 60, 58, 101, 60]), (Delim::End, 3));
    assert_eq!(parser.match_inner_delimiter(&vec![100, 60]), (Delim::Call, 2));
    assert_eq!(parser.match_in_block(&vec![7, 102, 60]), (Delim::Head, 2));
    assert!(parser.is_prefix_of_any_delimiter(&vec![58, 103, 60, 58]));
    assert!(!parser.is_prefix_of_any_delimiter(&vec![100]));
    assert!(parser.is_prefix_of_any_inner(&vec![100]));
    assert!(parser.is_entry_delimiter_start(58));
    assert!(parser.is_entry_delimiter_start(498));
    assert!(parser.is_entry_delimiter_start(100));
    assert!(parser.is_entry_delimiter_start(103));
    assert!(!parser.is_entry_delimiter_start(101));
    assert!(!parser.is_entry_delimiter_start(60));
}

#[test]
fn sentinels_are_read_as_they_are() {
    let table = table(
        &[
            ("<|call|>", &[1]),
            ("<|end|>", &[2]),
            ("<|intr|>", &[3, 4]),
            ("<|trap|>", &[5]),
            ("<|head|>", &[6]),
        ],
        &[(58, "["), (200, " id ["), (201, " f(x) ")],
    );
    let codec = TokenCodec::Table(&table);
    let reg = CmlTokenRegistry::new_sentinel(&codec);
    assert_eq!(sorted(&reg.suppressed_ids), vec![3, 4]);
    assert!(!reg.all_single_token());
    let mut parser = CmlParser::new(&reg);
    let mut out = Vec::new();
    for t in [58, 1, 200, 6, 201, 2, 5, 2] {
        out.extend(show(&parser.feed(t, &codec)));
    }
    assert_eq!(out, vec!["58", "enter", "call id [: f(x)", "exit", "enter", "trap", "exit"]);
}

#[test]
fn single_token_sentinels_are_recognised() {
    let table = table(
        &[
            ("<|call|>", &[1]),
            ("<|end|>", &[2]),
            ("<|intr|>", &[3]),
            ("<|trap|>", &[5]),
            ("<|head|>", &[6]),
        ],
        &[],
    );
    let reg = CmlTokenRegistry::new_sentinel(&TokenCodec::Table(&table));
    assert!(reg.all_single_token());
}

fn unpack(runs: &[u32]) -> Vec<bool> {
    let mut bits = Vec::new();
    let mut value = false;
    for r in runs {
        for _ in 0..*r {
            bits.push(value);
        }
        value = !value;
    }
    bits
}

#[test]
fn a_mask_bars_exactly_the_suppressed() {
    let suppressed: HashSet<u32> = [2u32, 3, 7].into_iter().collect();
    let mask = SuppressMask::new(9, &suppressed);
    assert_eq!(mask.mask, vec![0, 2, 2, 3, 1, 1]);
    let bits = unpack(&mask.mask);
    assert_eq!(bits.len(), 9);
    for i in 0..9u32 {
        assert_eq!(bits[i as usize], !suppressed.contains(&i));
    }
    assert_eq!(mask.step(&[1, 2]), &vec![0, 2, 2, 3, 1, 1]);
}

#[test]
fn a_mask_that_bars_the_first_id_starts_with_its_run() {
    let suppressed: HashSet<u32> = [0u32].into_iter().collect();
    assert_eq!(SuppressMask::new(3, &suppressed).mask, vec![1, 2]);
    assert_eq!(SuppressMask::new(0, &suppressed).mask, vec![0]);
    assert_eq!(SuppressMask::new(2, &HashSet::new()).mask, vec![0, 2]);
}

#[test]
fn a_mask_covers_special_tokens_above_the_vocabulary() {
    assert_eq!(mask_size(&vec![], 10), 10);
    assert_eq!(mask_size(&vec![3, 12, 5], 10), 13);
    assert_eq!(mask_size(&vec![3, 9], 10), 10);
}

#[test]
fn a_codec_tells_the_width_of_its_mask() {
    let mut table = table(&[], &[]);
    table.vocab_ids = vec![0, 1, 2];
    assert_eq!(vocab_size(&TokenCodec::Table(&table)), 3);
    assert_eq!(full_mask_size(&TokenCodec::Table(&table)), Some(3));
    table.special_ids = vec![1, 7];
    assert_eq!(full_mask_size(&TokenCodec::Table(&table)), Some(8));
    table.special_ids.push(u32::MAX);
    assert_eq!(full_mask_size(&TokenCodec::Table(&table)), None);
}

#[test]
fn rows_are_copied_and_compared() {
    assert_eq!(copy_row(&vec![1u32, 2]), vec![1, 2]);
    assert_eq!(copy_rows(&vec![vec![1u8], vec![]]), vec![vec![1], vec![]]);
    assert!(same_row(&vec![1, 2], &vec![1, 2]));
    assert!(!same_row(&vec![1, 2], &vec![1, 3]));
    assert_eq!(concat_text("\n", "[CALL]"), "\n[CALL]");
}

#[test]
fn a_table_decodes_piece_by_piece() {
    let table = brackets();
    let codec = TokenCodec::Table(&table);
    assert_eq!(codec.decode(&[58, 100, 60]), Some("[CALL]".to_string()));
    assert_eq!(codec.decode(&[]), Some(String::new()));
    assert_eq!(codec.decode(&[58, 7777]), None);
    assert_eq!(codec.decode_or_default(&[7777]), "");
    assert_eq!(codec.encode("[CALL]"), vec![58, 100, 60]);
    assert_eq!(codec.encode("unknown"), Vec::<u32>::new());
    assert_eq!(codec.detokenize_one(498), "\n[");
    assert!(codec.is_partial_delim_start(498));
    assert!(!codec.is_partial_delim_start(60));
    assert_eq!(codec.special_tokens(), (Vec::new(), Vec::new()));
    assert_eq!(codec.vocabs(), (Vec::new(), Vec::new()));
}
