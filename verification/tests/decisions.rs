//! Interrupts, calls by message, traps, checkpoints and sampling.

use std::collections::{HashSet, VecDeque};

use asynclm::checkpoint::{cut_committed, cut_grown, shorten, CheckpointManager, CutBack};
use asynclm::executor::{parse_result, FunctionCall, MessageExecutor};
use asynclm::interrupts::{intr_frame, styled_frame, ExecutionResult, FrameStyle, InterruptManager};
use asynclm::sampler::{AsyncLmSampler, SuppressingSampler};
use asynclm::trap::{
    classify_trap, decide_trap, tokens_since_checkpoint, CostComparison, Pressure, TrapConfig,
    TrapHandler, TrapStrategy,
};

fn result(id: &str, output: &str, is_error: bool) -> ExecutionResult {
    ExecutionResult { id: id.to_string(), output: output.to_string(), is_error }
}

#[test]
fn frames_have_their_styles() {
    assert_eq!(intr_frame("w1", "{}"), " [INTR] w1 [HEAD] {} [END] ");
    assert_eq!(styled_frame(FrameStyle::Spaced, "a", "b"), " [INTR] a [HEAD] b [END] ");
    assert_eq!(styled_frame(FrameStyle::Bracket, "a", "b"), "[INTR] a [HEAD] b [END]");
    assert_eq!(styled_frame(FrameStyle::Sentinel, "a", "b"), "<|intr|> a <|head|> b <|end|>");
}

#[test]
fn interrupts_come_out_in_order() {
    let mut m = InterruptManager::new(FrameStyle::Spaced);
    assert!(m.is_empty());
    m.enqueue("a", "1");
    m.enqueue_result(result("b", "bad", true));
    assert_eq!(m.pending_count(), 2);
    assert_eq!(
        m.drain(),
        vec![" [INTR] a [HEAD] 1 [END] ", " [INTR] b [HEAD] ERROR: bad [END] "]
    );
    assert!(m.is_empty());
    assert!(m.drain().is_empty());
}

#[test]
fn interrupts_wait_for_the_end_of_a_block() {
    let mut m = InterruptManager::new(FrameStyle::Bracket);
    m.set_critical(true);
    assert!(m.in_critical_section());
    m.enqueue("a", "1");
    assert!(m.drain().is_empty());
    m.enqueue_all(vec![result("a", "2", false), result("c", "3", false)]);
    assert!(m.drain().is_empty());
    assert_eq!(m.pending_count(), 3);
    m.set_critical_section(false);
    assert_eq!(
        m.drain(),
        vec!["[INTR] a [HEAD] 1 [END]", "[INTR] a [HEAD] 2 [END]", "[INTR] c [HEAD] 3 [END]"]
    );
}

#[test]
fn replies_are_split_at_the_first_two_bars() {
    let r = parse_result("w1|false|a|b||c");
    assert_eq!((r.id.as_str(), r.is_error, r.output.as_str()), ("w1", false, "a|b||c"));
    let r = parse_result("w1|true|oops");
    assert_eq!((r.id.as_str(), r.is_error, r.output.as_str()), ("w1", true, "oops"));
    let r = parse_result("w1|TRUE|oops");
    assert!(!r.is_error);
    let r = parse_result("w1|true");
    assert_eq!((r.id.as_str(), r.is_error, r.output.as_str()), ("w1", true, ""));
    let r = parse_result("w1");
    assert_eq!((r.id.as_str(), r.is_error, r.output.as_str()), ("w1", false, ""));
    let r = parse_result("");
    assert_eq!((r.id.as_str(), r.is_error, r.output.as_str()), ("", false, ""));
    let r = parse_result("|true|");
    assert_eq!((r.id.as_str(), r.is_error, r.output.as_str()), ("", true, ""));
}

fn call(id: &str, code: &str) -> FunctionCall {
    FunctionCall { id: id.to_string(), code: code.to_string(), dispatch_token_count: 7 }
}

#[test]
fn calls_are_out_until_their_reply() {
    let mut e = MessageExecutor::new();
    assert!(!e.has_pending());
    assert_eq!(e.dispatch(call("a", "f(x|y)")), "a|f(x|y)");
    assert_eq!(e.dispatch(call("b", "g()")), "b|g()");
    assert_eq!(e.pending_count(), 2);
    assert_eq!(e.dispatch(call("a", "h()")), "a|h()");
    assert_eq!(e.pending_count(), 2);
    let r = e.absorb("a|false|1");
    assert_eq!(r.output, "1");
    assert_eq!(e.pending_count(), 1);
    let r = e.absorb("zzz|false|1");
    assert_eq!(r.id, "zzz");
    assert_eq!(e.pending_count(), 1);
    assert!(e.has_pending());
    e.absorb("b|true|x");
    assert!(!e.has_pending());
}

#[test]
fn early_results_come_before_replies() {
    let mut e = MessageExecutor::new();
    e.dispatch(call("a", "f()"));
    e.complete_early(result("early", "0", false));
    let rs = e.poll_completed(&vec!["a|false|1".to_string(), "q|true|2".to_string()]);
    let ids: Vec<&str> = rs.iter().map(|r| r.id.as_str()).collect();
    assert_eq!(ids, vec!["early", "a", "q"]);
    assert!(!e.has_pending());
    assert!(e.poll_completed(&Vec::new()).is_empty());
    assert!(e.take_completed().is_empty());
}

#[test]
fn waiting_stops_once_no_call_is_out() {
    let mut e = MessageExecutor::new();
    e.dispatch(call("a", "f()"));
    e.dispatch(call("b", "g()"));
    e.complete_early(result("early", "0", false));
    let rs = e.wait_all(&vec!["q|false|1".to_string(), "b|false|2".to_string()]);
    let ids: Vec<&str> = rs.iter().map(|r| r.id.as_str()).collect();
    assert_eq!(ids, vec!["early", "q", "b"]);
    assert_eq!(e.pending_count(), 1);
    let rs = e.wait_all(&vec!["a|true|3".to_string(), "c|false|4".to_string()]);
    let ids: Vec<&str> = rs.iter().map(|r| r.id.as_str()).collect();
    assert_eq!(ids, vec!["a"]);
    assert!(!e.has_pending());
}

#[test]
fn without_a_checkpoint_the_context_is_kept() {
    let h = TrapHandler::new(TrapConfig::default());
    for p in [Pressure::Below, Pressure::AtOrAbove, Pressure::Unordered] {
        assert_eq!(h.decide(false, 5, p, 4000, Some(1)), TrapStrategy::Keep);
    }
}

#[test]
fn pressure_decides_between_swap_and_recompute() {
    let h = TrapHandler::new(TrapConfig::default());
    assert_eq!(h.config.max_context_length, 4096);
    assert_eq!(h.decide(true, 1, Pressure::Below, 100, Some(50)), TrapStrategy::Keep);
    assert_eq!(h.decide(true, 9, Pressure::Below, 100, Some(50)), TrapStrategy::Keep);
    assert_eq!(h.decide(true, 9, Pressure::Unordered, 100, Some(50)), TrapStrategy::Keep);
    assert_eq!(h.decide(true, 1, Pressure::AtOrAbove, 4000, Some(3936)), TrapStrategy::Swap);
    assert_eq!(h.decide(true, 1, Pressure::AtOrAbove, 4000, Some(3935)), TrapStrategy::Recompute);
    assert_eq!(h.decide(true, 1, Pressure::AtOrAbove, 4000, Some(9000)), TrapStrategy::Swap);
    assert_eq!(h.decide(true, 1, Pressure::AtOrAbove, 4000, None), TrapStrategy::Swap);
}

fn compare(recompute: f64, swap: f64, wait: f64) -> CostComparison {
    CostComparison {
        recompute_exceeds_wait: recompute > wait,
        swap_exceeds_wait: swap > wait,
        recompute_at_most_swap: recompute <= swap,
    }
}

#[test]
fn the_cheapest_way_is_taken() {
    assert_eq!(classify_trap(compare(10.0, 10.0, 5.0)), TrapStrategy::Keep);
    assert_eq!(classify_trap(compare(4.0, 10.0, 5.0)), TrapStrategy::Recompute);
    assert_eq!(classify_trap(compare(4.0, 4.0, 5.0)), TrapStrategy::Recompute);
    assert_eq!(classify_trap(compare(10.0, 4.0, 5.0)), TrapStrategy::Swap);
    assert_eq!(classify_trap(compare(5.0, 10.0, 5.0)), TrapStrategy::Recompute);
    assert_eq!(classify_trap(compare(f64::NAN, 4.0, 5.0)), TrapStrategy::Swap);
    assert_eq!(decide_trap(true, compare(10.0, 4.0, 5.0)), TrapStrategy::Swap);
    assert_eq!(decide_trap(false, compare(10.0, 4.0, 5.0)), TrapStrategy::Keep);
}

#[test]
fn costs_go_by_the_tokens_since_the_checkpoint() {
    assert_eq!(tokens_since_checkpoint(Some(30), 100), 70);
    assert_eq!(tokens_since_checkpoint(Some(300), 100), 0);
    assert_eq!(tokens_since_checkpoint(None, 100), 100);
}

#[test]
fn a_checkpoint_is_taken_once() {
    let mut m: CheckpointManager<&str> = CheckpointManager::new();
    assert!(!m.has_checkpoint());
    assert_eq!(m.checkpoint_token_count(), None);
    m.save("first", 10, 2, 3);
    m.save("second", 20, 1, 4);
    assert_eq!(m.checkpoint_token_count(), Some(21));
    assert_eq!(m.committed_len(), Some(20));
    let c = m.take().unwrap();
    assert_eq!((c.ctx, c.generated_len_at_save), ("second", 4));
    assert!(m.take().is_none());
    m.save("third", 1, 1, 1);
    m.discard();
    assert!(!m.has_checkpoint());
    assert_eq!(m.committed_len(), None);
}

#[test]
fn a_context_is_cut_back() {
    assert_eq!(cut_committed(50, 30), CutBack { target: 30, removed: 20, mask_end: 51 });
    assert_eq!(cut_committed(30, 30), CutBack { target: 30, removed: 0, mask_end: 31 });
    assert_eq!(cut_committed(10, 30), CutBack { target: 30, removed: 0, mask_end: 31 });
    assert_eq!(cut_grown(50, 52, 40), CutBack { target: 38, removed: 12, mask_end: 50 });
    assert_eq!(cut_grown(5, 52, 40), CutBack { target: 0, removed: 12, mask_end: 12 });
    assert_eq!(cut_grown(50, 52, 60), CutBack { target: 50, removed: 0, mask_end: 50 });
    let mut v = vec![1, 2, 3];
    shorten(&mut v, 5);
    assert_eq!(v, vec![1, 2, 3]);
    shorten(&mut v, 1);
    assert_eq!(v, vec![1]);
}

#[test]
fn the_first_of_the_most_likely_tokens_is_taken() {
    let s = AsyncLmSampler::new([9u32].into_iter().collect(), true);
    assert_eq!(s.sample(&vec![9, 1, 2, 3], &vec![100, 5, 7, 7]), 2);
    assert_eq!(s.sample(&vec![9, 9], &vec![1, 2]), 9);
    assert_eq!(s.sample(&vec![4, 9, 5], &vec![0]), 4);
    assert_eq!(s.sample(&vec![4, 5], &vec![]), 4);
    let recent: VecDeque<u32> = [1u32, 2].into_iter().collect();
    assert!(s.is_penalized(&recent, 2));
    assert!(!s.is_penalized(&recent, 3));
    assert!(!AsyncLmSampler::new(HashSet::new(), false).is_penalized(&recent, 2));
}

#[test]
fn where_all_are_suppressed_the_most_likely_token_is_taken() {
    let all: HashSet<u32> = [1u32, 2, 3].into_iter().collect();
    let s = AsyncLmSampler::new(all.clone(), false);
    assert_eq!(s.sample(&vec![1, 2], &vec![1, 9]), 2);
    assert_eq!(s.sample(&vec![3, 1, 2], &vec![4, 9, 9]), 1);
    assert_eq!(s.sample(&vec![3, 1], &vec![]), 3);
    assert_eq!(s.sample(&vec![1, 7, 2], &vec![8, 0, 9]), 7);
    assert_eq!(AsyncLmSampler::new(all, true).sample(&vec![1, 2], &vec![1, 9]), 1);
}

#[test]
fn the_last_of_the_most_likely_tokens_in_the_nucleus_is_taken() {
    let s = SuppressingSampler { suppressed: [9u32].into_iter().collect() };
    let ids = vec![9, 1, 2, 3];
    let weights = vec![100, 7, 5, 7];
    assert_eq!(s.masked_weights(&ids, &weights), vec![0, 7, 5, 7]);
    assert_eq!(s.ranked(&ids, &weights), vec![1, 3, 2, 0]);
    assert_eq!(s.sample(&ids, &weights, 1), 1);
    assert_eq!(s.sample(&ids, &weights, 2), 3);
    assert_eq!(s.sample(&ids, &weights, 4), 3);
    assert_eq!(s.sample(&vec![9, 8], &vec![5, 0], 2), 8);
    assert_eq!(s.sample(&vec![9, 8], &vec![5, 0], 1), 9);
}

#[test]
fn a_suppressed_token_needs_an_empty_choice() {
    let s = SuppressingSampler { suppressed: [9u32].into_iter().collect() };
    assert_eq!(s.sample(&vec![9, 8, 7], &vec![50, 1, 0], 3), 8);
    assert_eq!(s.sample(&vec![8, 9], &vec![0, 50], 2), 9);
}
