//! Whole sessions on a small hand-written tokenizer.

use asynclm::broadcast::{BroadcastSession, Request};
use asynclm::checkpoint::Resumption;
use asynclm::checkpointing::CheckpointingSession;
use asynclm::codec::{CodecTable, TokenCodec};
use asynclm::completion::{Told, Transcript};
use asynclm::coordinator::{AsyncLmCoordinator, CheckpointRule, Order};
use asynclm::flow::Flow;
use asynclm::interrupts::FrameStyle;
use asynclm::interruptible::{default_max_steps, InterruptibleSession};
use asynclm::machine::Event;
use asynclm::overlap::OverlapSession;
use asynclm::parallel::{drain_pending_on_trap, ParallelSession, QueuedCall};
use asynclm::registry::CmlRegistry;
use asynclm::session::{
    encode_frames, max_remaining_ms, poll_all, poll_once, should_stop, stage, Action, Pending,
    Staging,
};
use asynclm::trap::{Pressure, TrapConfig, TrapStrategy};
use asynclm::variants::CmlTokenRegistry;

const OPEN: u32 = 58;
const CLOSE: u32 = 60;
const CALL: u32 = 100;
const END: u32 = 101;
const HEAD: u32 = 102;
const TRAP: u32 = 103;
const INTR: u32 = 104;
const W1: u32 = 200;
const W2: u32 = 201;
const LONDON: u32 = 202;
const PARIS: u32 = 203;
const HELLO: u32 = 204;
const WORLD: u32 = 205;

const LONDON_FRAME: &str = " [INTR] w1 [HEAD] {\"temp_f\": 60, \"sky\": \"cloudy\"} [END] ";
const PARIS_FRAME: &str = " [INTR] w2 [HEAD] {\"temp_f\": 59, \"sky\": \"rainy\"} [END] ";

fn table() -> CodecTable {
    let pieces: Vec<(u32, &str)> = vec![
        (OPEN, "["),
        (CLOSE, "]"),
        (CALL, "CALL"),
        (END, "END"),
        (HEAD, "HEAD"),
        (TRAP, "TRAP"),
        (INTR, "INTR"),
        (W1, " w1 "),
        (W2, " w2 "),
        (LONDON, " get_weather(\"London\") "),
        (PARIS, " get_weather(\"Paris\") "),
        (HELLO, "Hello"),
        (WORLD, " world"),
    ];
    let both = format!("{}{}", LONDON_FRAME, PARIS_FRAME);
    let encodings: Vec<(&str, Vec<u32>)> = vec![
        ("[CALL]", vec![OPEN, CALL, CLOSE]),
        ("[END]", vec![OPEN, END, CLOSE]),
        ("[HEAD]", vec![OPEN, HEAD, CLOSE]),
        ("[TRAP]", vec![OPEN, TRAP, CLOSE]),
        ("[INTR]", vec![OPEN, INTR, CLOSE]),
        (LONDON_FRAME, vec![900, 901]),
        (PARIS_FRAME, vec![902]),
        (both.as_str(), vec![910, 911, 912]),
    ];
    CodecTable {
        pieces: pieces.into_iter().map(|(t, s)| (t, s.to_string())).collect(),
        encodings: encodings.into_iter().map(|(s, v)| (s.to_string(), v)).collect(),
        special_ids: Vec::new(),
        special_bytes: Vec::new(),
        vocab_ids: Vec::new(),
        vocab_bytes: Vec::new(),
    }
}

fn call(id: u32, code: u32) -> Vec<u32> {
    vec![OPEN, CALL, CLOSE, id, OPEN, HEAD, CLOSE, code, OPEN, END, CLOSE]
}

fn trap() -> Vec<u32> {
    vec![OPEN, TRAP, CLOSE, OPEN, END, CLOSE]
}

#[test]
fn a_batch_runs_at_the_trap() {
    let table = table();
    let codec = TokenCodec::Table(&table);
    let reg = CmlRegistry::new(&codec);
    let mut s = ParallelSession::new(&reg);
    assert!(!s.begin_step());
    let mut step = vec![HELLO];
    step.extend(trap());
    step.extend(call(W1, LONDON));
    assert!(s.take_tokens(&step, &codec).is_none());
    let mut step = call(W2, PARIS);
    step.extend(trap());
    step.push(WORLD);
    let batch = s.take_tokens(&step, &codec).unwrap();
    let ids: Vec<&str> = batch.iter().map(|c| c.id.as_str()).collect();
    assert_eq!(ids, vec!["w1", "w2"]);
    let frames = drain_pending_on_trap(&batch);
    assert_eq!(frames, format!("{}{}", LONDON_FRAME, PARIS_FRAME));
    match s.stage_injection(&frames, &codec) {
        Staging::Split { prefix, tail } => {
            assert_eq!(prefix, vec![910, 911]);
            assert_eq!(tail, 912);
            s.note_accepted(2, 2, tail);
        }
        _ => panic!("three tokens are split"),
    }
    assert!(s.begin_step());
    assert_eq!(s.take_tail(), Some(912));
    assert_eq!(s.take_tail(), None);
    assert!(!s.begin_step());
    assert!(s.take_tokens(&trap(), &codec).is_none());
    assert!(s.take_tokens(&vec![WORLD, OPEN], &codec).is_none());
    assert_eq!(s.finish(&codec), "Hello world");
}

#[test]
fn a_partly_accepted_injection_is_not_flushed() {
    let table = table();
    let codec = TokenCodec::Table(&table);
    let reg = CmlRegistry::new(&codec);
    let mut s = ParallelSession::new(&reg);
    s.note_accepted(3, 2, 7);
    assert!(!s.begin_step());
    assert_eq!(s.take_tail(), None);
}

#[test]
fn a_batch_of_one_call() {
    let batch = vec![QueuedCall { id: "w1".to_string(), code: "get_weather(\"London\")".to_string() }];
    assert_eq!(drain_pending_on_trap(&batch), LONDON_FRAME);
    assert_eq!(drain_pending_on_trap(&Vec::new()), "");
}

#[test]
fn injections_are_staged_by_their_length() {
    assert!(matches!(stage(vec![]), Staging::Nothing));
    match stage(vec![4]) {
        Staging::Whole(all) => assert_eq!(all, vec![4]),
        _ => panic!("one token is whole"),
    }
    match stage(vec![4, 5]) {
        Staging::Split { prefix, tail } => assert_eq!((prefix, tail), (vec![4], 5)),
        _ => panic!("two tokens are split"),
    }
}

fn drive(s: &mut OverlapSession, codec: &TokenCodec, tokens: &[u32]) -> Vec<Action> {
    let mut actions = Vec::new();
    for t in tokens {
        for e in s.feed(*t, codec) {
            let a = s.on_event(e);
            if a != Action::Continue {
                actions.push(a);
            }
        }
    }
    actions
}

#[test]
fn calls_run_while_text_is_written() {
    let table = table();
    let codec = TokenCodec::Table(&table);
    let reg = CmlRegistry::new(&codec);
    let mut s = OverlapSession::new(&reg, 500);
    let mut tokens = call(W1, LONDON);
    tokens.extend(call(W2, PARIS));
    tokens.push(HELLO);
    assert_eq!(drive(&mut s, &codec, &tokens), vec![Action::Started, Action::Started]);
    assert_eq!(s.pending().len(), 2);
    assert_eq!(s.pending()[0].wait_ms, 500);
    s.poll(&vec![false, true]);
    assert_eq!(s.pending().len(), 1);
    assert_eq!(drive(&mut s, &codec, &trap()), vec![Action::Trap]);
    s.poll(&vec![true]);
    assert!(s.pending().is_empty());
    match s.stage_injection(&codec) {
        Staging::Split { prefix, tail } => assert_eq!((prefix, tail), (vec![902, 900], 901)),
        _ => panic!("three tokens are split"),
    }
    assert!(s.begin_step());
    assert_eq!(s.take_tail(), Some(901));
    assert!(!s.begin_step());
    assert!(matches!(s.stage_injection(&codec), Staging::Nothing));
    assert_eq!(s.generated(), &vec![HELLO]);
    assert_eq!(s.finish(&codec), "Hello");
}

#[test]
fn frames_are_taken_as_text_where_the_session_samples() {
    let table = table();
    let codec = TokenCodec::Table(&table);
    let reg = CmlRegistry::new_plain(&codec);
    let mut s = OverlapSession::new_plain(&reg, 1);
    drive(&mut s, &codec, &call(W1, LONDON));
    s.poll(&vec![true]);
    assert_eq!(s.take_frames(), vec![LONDON_FRAME]);
    assert!(s.take_frames().is_empty());
}

#[test]
fn generation_stops_at_a_length_or_a_sequence() {
    assert!(should_stop(&vec![1, 2, 3], 3, &vec![]));
    assert!(!should_stop(&vec![1, 2], 3, &vec![vec![1], vec![1, 2, 3]]));
    assert!(should_stop(&vec![1, 2], 3, &vec![vec![9], vec![1, 2]]));
    assert!(should_stop(&vec![1], 3, &vec![vec![]]));
    assert!(should_stop(&vec![], 0, &vec![]));
}

#[test]
fn calls_are_polled_in_order() {
    let make = |id: &str| Pending { id: id.to_string(), code: "x()".to_string(), wait_ms: 100 };
    let mut calls = vec![make("a"), make("b"), make("c")];
    assert_eq!(max_remaining_ms(&calls, &vec![90, 20, 300]), 80);
    assert_eq!(max_remaining_ms(&calls, &vec![190, 200, 300]), 0);
    assert_eq!(calls[0].remaining_ms(40), 60);
    assert_eq!(calls[0].remaining_ms(140), 0);
    assert_eq!(poll_once(&calls[0], false), None);
    assert_eq!(poll_once(&calls[0], true), Some("result(x())".to_string()));
    let done = poll_all(&mut calls, &vec![true, false, true]);
    assert_eq!(done.len(), 2);
    assert_eq!((done[0].0.as_str(), done[1].0.as_str()), ("a", "c"));
    assert_eq!(calls.len(), 1);
    assert_eq!(calls[0].id, "b");
}

#[test]
fn frames_are_encoded_one_after_another() {
    let table = table();
    let codec = TokenCodec::Table(&table);
    let frames = vec![PARIS_FRAME.to_string(), LONDON_FRAME.to_string()];
    assert_eq!(encode_frames(&codec, &frames), vec![902, 900, 901]);
    assert!(encode_frames(&codec, &Vec::new()).is_empty());
}

#[test]
fn steps_are_bounded_by_four_times_the_tokens() {
    assert_eq!(default_max_steps(512), 2048);
    assert_eq!(default_max_steps(0), 0);
    assert_eq!(default_max_steps(1 << 30), 0);
    assert_eq!(default_max_steps(usize::MAX), u32::MAX);
}

#[test]
fn an_interruptible_session_injects_at_seams() {
    let table = table();
    let codec = TokenCodec::Table(&table);
    let reg = CmlRegistry::new_plain(&codec);
    let mut s = InterruptibleSession::new(&reg, 10, 40);
    let mut started = 0;
    for t in call(W1, LONDON) {
        for e in s.feed(t, &codec) {
            if s.on_event(e) == Action::Started {
                started += 1;
            }
        }
    }
    assert_eq!(started, 1);
    s.count_tokens(11);
    assert!(!s.out_of_steps());
    s.poll(&vec![true]);
    assert!(s.midstream_injection(false, &codec).is_empty());
    // Inside a block nothing comes in.
    for t in [OPEN, CALL, CLOSE] {
        for e in s.feed(t, &codec) {
            s.on_event(e);
        }
    }
    assert!(s.midstream_injection(true, &codec).is_empty());
    for t in [OPEN, END, CLOSE, OPEN] {
        for e in s.feed(t, &codec) {
            s.on_event(e);
        }
    }
    // Nor while a token is held back.
    assert!(s.midstream_injection(true, &codec).is_empty());
    for e in s.feed(HELLO, &codec) {
        s.on_event(e);
    }
    assert_eq!(s.midstream_injection(true, &codec), vec![900, 901]);
    s.absorb_accepted(&vec![900, 901], &codec);
    assert_eq!(s.generated(), &vec![HELLO, 900, 901]);
    assert!(s.trap_due());
    let n = s.pending().len();
    s.poll(&vec![true; n]);
    assert!(s.trap_injection(&codec).is_empty());
    assert!(!s.trap_due());
    s.count_tokens(29);
    assert!(s.out_of_steps());
    assert_eq!(s.finish(&codec), "");
}

#[test]
fn a_flow_queues_results_and_releases_them() {
    let mut f = Flow::new(5);
    assert!(!f.trap_due());
    f.on_event(Event::Call { id: "w1".to_string(), code: "get_weather(\"London\")".to_string() });
    f.on_event(Event::EnterCriticalSection);
    f.poll(&vec![true]);
    assert!(f.trap_due());
    assert!(f.interrupts.drain().is_empty());
    assert_eq!(f.release(), vec![LONDON_FRAME]);
    assert_eq!(f.on_event(Event::EnteringBlockHint), Action::Checkpoint);
    assert_eq!(f.on_event(Event::Trap), Action::Trap);
    assert_eq!(f.on_event(Event::ExitCriticalSection), Action::Continue);
}

fn run_checkpointing(
    s: &mut CheckpointingSession<&'static str>,
    codec: &TokenCodec,
    tokens: &[u32],
) -> Vec<Action> {
    let mut actions = Vec::new();
    for t in tokens {
        s.count_token();
        for e in s.feed(*t, codec) {
            let a = s.on_event(e);
            if a != Action::Continue {
                actions.push(a);
                if a == Action::Checkpoint {
                    s.save_checkpoint("fork", 30, 2);
                }
            }
        }
    }
    actions
}

#[test]
fn a_trap_goes_back_to_its_checkpoint() {
    let table = table();
    let codec = TokenCodec::Table(&table);
    let reg = CmlRegistry::new_plain(&codec);
    let strategies = [TrapStrategy::Keep, TrapStrategy::Swap, TrapStrategy::Recompute];
    for strategy in strategies {
        let mut s: CheckpointingSession<&'static str> =
            CheckpointingSession::new(&reg, 10, true, 1000);
        let mut tokens = vec![HELLO];
        tokens.extend(call(W1, LONDON));
        tokens.push(WORLD);
        tokens.extend(trap());
        let actions = run_checkpointing(&mut s, &codec, &tokens);
        assert_eq!(actions, vec![Action::Checkpoint, Action::Started, Action::Trap]);
        assert!(s.trap_due());
        assert!(s.has_checkpoint());
        assert_eq!(s.trap_tokens(50), 20);
        s.poll(&vec![true]);
        let text = match (strategy, s.finish_trap(strategy, 45)) {
            (TrapStrategy::Keep, Resumption::Fill { frames }) => {
                assert_eq!(frames, vec![LONDON_FRAME]);
                "Hello world"
            }
            (TrapStrategy::Swap, Resumption::Restore { ctx, frames }) => {
                assert_eq!(ctx, "fork");
                assert_eq!(frames, vec![LONDON_FRAME]);
                "Hello"
            }
            (TrapStrategy::Recompute, Resumption::Shorten { cut, frames }) => {
                assert_eq!((cut.target, cut.removed, cut.mask_end), (30, 15, 46));
                assert_eq!(frames, vec![LONDON_FRAME]);
                "Hello"
            }
            _ => panic!("a strategy has its resumption"),
        };
        assert!(!s.has_checkpoint());
        assert!(!s.trap_due());
        assert_eq!(s.finish(&codec), text);
    }
}

#[test]
fn without_checkpoints_nothing_is_given_up() {
    let table = table();
    let codec = TokenCodec::Table(&table);
    let reg = CmlRegistry::new_plain(&codec);
    let mut s: CheckpointingSession<&'static str> = CheckpointingSession::new(&reg, 10, false, 3);
    let actions = run_checkpointing(&mut s, &codec, &[HELLO, OPEN, CALL]);
    assert!(actions.is_empty());
    assert_eq!(s.trap_tokens(50), 50);
    assert!(matches!(s.finish_trap(TrapStrategy::Swap, 1), Resumption::Unchanged));
    assert!(matches!(s.finish_trap(TrapStrategy::Recompute, 1), Resumption::Unchanged));
    assert!(s.is_over(100, &vec![]));
    assert!(s.midstream_frames(true).is_empty());
}

#[test]
fn a_broadcast_session_waits_for_replies() {
    let table = table();
    let codec = TokenCodec::Table(&table);
    let reg = CmlTokenRegistry::new(&codec);
    let mut s = BroadcastSession::new(&reg);
    let mut sent = Vec::new();
    let mut traps = 0;
    let mut tokens = call(W1, LONDON);
    tokens.extend(call(W2, PARIS));
    tokens.push(HELLO);
    for t in tokens {
        for e in s.feed(t, &codec) {
            match s.on_event(e) {
                Request::Send(m) => sent.push(m),
                Request::Trap => traps += 1,
                Request::Continue => {}
            }
        }
    }
    assert_eq!(sent, vec!["w1|get_weather(\"London\")", "w2|get_weather(\"Paris\")"]);
    assert_eq!(s.pending_count(), 2);
    s.poll(&vec!["w2|false|{\"temp_f\": 59, \"sky\": \"rainy\"}".to_string()]);
    assert_eq!(s.pending_count(), 1);
    assert_eq!(s.midstream_injection(&codec), vec![902]);
    s.absorb_accepted(&vec![902], &codec);
    for t in trap() {
        for e in s.feed(t, &codec) {
            match s.on_event(e) {
                Request::Trap => {
                    traps += 1;
                    assert!(s.trap_due());
                    assert!(s.midstream_injection(&codec).is_empty());
                    s.wait_all(&Vec::new());
                    assert!(s.has_pending());
                    s.wait_all(&vec![
                        "w1|false|{\"temp_f\": 60, \"sky\": \"cloudy\"}".to_string(),
                        "w9|false|late".to_string(),
                    ]);
                    assert!(!s.has_pending());
                    assert_eq!(s.trap_injection(&codec), vec![900, 901]);
                    assert!(!s.trap_due());
                }
                _ => {}
            }
        }
    }
    assert_eq!(traps, 1);
    assert!(!s.in_critical_section());
    for t in [WORLD, OPEN, CALL] {
        for e in s.feed(t, &codec) {
            s.on_event(e);
        }
    }
    assert_eq!(s.finish(&codec), "");
}

#[test]
fn a_broadcast_answer_keeps_what_was_held_back() {
    let table = table();
    let codec = TokenCodec::Table(&table);
    let reg = CmlTokenRegistry::new(&codec);
    let mut s = BroadcastSession::new(&reg);
    for t in [HELLO, OPEN, CALL] {
        for e in s.feed(t, &codec) {
            s.on_event(e);
        }
    }
    assert_eq!(s.finish(&codec), "Hello[CALL");
}

fn coordinator(
    codec: &TokenCodec,
    style: FrameStyle,
    rule: CheckpointRule,
) -> AsyncLmCoordinator<&'static str> {
    let reg = CmlTokenRegistry::new_fused(codec);
    AsyncLmCoordinator::new(&reg, style, rule, TrapConfig::default(), 2)
}

#[test]
fn a_coordinator_checkpoints_before_the_delimiter() {
    let table = table();
    let codec = TokenCodec::Table(&table);
    let mut s = coordinator(&codec, FrameStyle::Bracket, CheckpointRule::BeforeDelimiter);
    assert!(!s.note_token(HELLO));
    for e in s.feed(HELLO, &codec) {
        s.on_event(e, 1);
    }
    let mut sent = Vec::new();
    let mut tokens = call(W1, LONDON);
    tokens.extend(trap());
    let mut resumed = false;
    for (i, t) in tokens.iter().enumerate() {
        let due = s.note_token(*t);
        assert_eq!(due, i == 0);
        if due {
            s.save_checkpoint("fork", 1, 0);
        }
        for e in s.feed(*t, &codec) {
            match s.on_event(e, 20) {
                Order::Send(m) => sent.push(m),
                Order::Trap => {
                    assert!(s.trap_due());
                    assert_eq!(s.decide(Pressure::Below, 20), TrapStrategy::Keep);
                    assert_eq!(s.decide(Pressure::AtOrAbove, 20), TrapStrategy::Swap);
                    assert_eq!(s.decide(Pressure::AtOrAbove, 80), TrapStrategy::Recompute);
                    s.poll_completed();
                    while s.has_pending() {
                        s.wait_all(&vec!["w1|false|ok".to_string()]);
                    }
                    match s.finish_trap(TrapStrategy::Recompute, 12, 20) {
                        Resumption::Shorten { cut, frames } => {
                            assert_eq!((cut.target, cut.removed, cut.mask_end), (1, 11, 13));
                            assert_eq!(frames, vec!["[INTR] w1 [HEAD] ok [END]"]);
                            resumed = true;
                        }
                        _ => panic!("the context is cut back"),
                    }
                }
                Order::Checkpoint => panic!("the checkpoint is there already"),
                Order::Continue => {}
            }
        }
    }
    assert!(resumed);
    assert_eq!(sent, vec!["w1|get_weather(\"London\")"]);
    assert!(s.drain_interrupts().is_empty());
    let recent: Vec<u32> = s.recent().iter().copied().collect();
    assert_eq!(recent, vec![END, CLOSE]);
    assert!(s.is_over(1, &vec![]));
    assert!(!s.is_over(5, &vec![vec![WORLD]]));
    assert!(!s.in_critical_section());
    assert_eq!(s.finish(&codec), "Hello");
}

#[test]
fn a_coordinator_checkpoints_at_the_block() {
    let table = table();
    let codec = TokenCodec::Table(&table);
    let mut s = coordinator(&codec, FrameStyle::Sentinel, CheckpointRule::AtBlock);
    let mut saved = 0;
    let mut tokens = vec![HELLO];
    tokens.extend(call(W1, LONDON));
    tokens.push(WORLD);
    tokens.extend(trap());
    for t in tokens {
        assert!(!s.note_token(t));
        for e in s.feed(t, &codec) {
            match s.on_event(e, 30) {
                Order::Checkpoint => {
                    saved += 1;
                    s.save_checkpoint("fork", 10, 3);
                }
                Order::Trap => {
                    while s.has_pending() {
                        s.wait_all(&vec!["w1|true|bad".to_string()]);
                    }
                    match s.finish_trap(TrapStrategy::Swap, 28, 30) {
                        Resumption::Restore { ctx, frames } => {
                            assert_eq!(ctx, "fork");
                            assert_eq!(
                                frames,
                                vec!["<|intr|> w1 <|head|> ERROR: bad <|end|>"]
                            );
                        }
                        _ => panic!("the context is restored"),
                    }
                    assert!(matches!(
                        s.finish_trap(TrapStrategy::Swap, 28, 30),
                        Resumption::Unchanged
                    ));
                }
                _ => {}
            }
        }
    }
    assert_eq!(saved, 1);
    assert!(s.drain_interrupts().is_empty());
    assert_eq!(s.finish(&codec), "Hello");
}

#[test]
fn a_trap_that_keeps_the_context_injects_all_results_in_order() {
    let table = table();
    let codec = TokenCodec::Table(&table);
    let mut s = coordinator(&codec, FrameStyle::Sentinel, CheckpointRule::AtBlock);
    let mut tokens = call(W1, LONDON);
    tokens.extend(call(W2, PARIS));
    tokens.extend(trap());
    let mut kept = false;
    for t in tokens {
        for e in s.feed(t, &codec) {
            if let Order::Trap = s.on_event(e, 30) {
                s.wait_all(&vec!["w2|false|rainy".to_string()]);
                assert!(s.has_pending());
                assert!(s.drain_interrupts().is_empty());
                s.wait_all(&vec!["w1|false|cloudy".to_string()]);
                match s.finish_trap(TrapStrategy::Keep, 28, 30) {
                    Resumption::Fill { frames } => {
                        assert_eq!(
                            frames,
                            vec![
                                "<|intr|> w2 <|head|> rainy <|end|>",
                                "<|intr|> w1 <|head|> cloudy <|end|>",
                            ]
                        );
                        kept = true;
                    }
                    _ => panic!("the context is kept"),
                }
                assert!(!s.trap_due());
            }
        }
    }
    assert!(kept);
}

#[test]
fn a_transcript_is_put_together() {
    let mut t = Transcript::new();
    assert!(!t.take(Told::Delta("Hel".to_string())));
    assert!(!t.take(Told::Idle));
    assert!(!t.take(Told::Delta("lo".to_string())));
    assert_eq!(t.into_text(), "Hello");
    let mut t = Transcript::new();
    t.take(Told::Delta("x".to_string()));
    assert!(t.take(Told::Done("whole".to_string())));
    assert_eq!(t.into_text(), "whole");
}

#[test]
fn defaults_are_as_documented() {
    assert_eq!(asynclm::parallel::default_max_tokens(), 2048);
    assert_eq!(asynclm::parallel::default_fake_wait_ms(), 500);
    assert_eq!(asynclm::overlap::default_max_tokens(), 2048);
    assert_eq!(asynclm::overlap::default_sampled_max_tokens(), 512);
    assert_eq!(asynclm::overlap::default_fake_wait_ms(), 500);
    assert_eq!(asynclm::interruptible::default_max_tokens(), 512);
    assert_eq!(asynclm::interruptible::default_fake_wait_ms(), 500);
    assert_eq!(asynclm::checkpointing::default_max_tokens(), 512);
    assert_eq!(asynclm::checkpointing::default_fake_wait_ms(), 500);
    assert_eq!(asynclm::broadcast::default_max_tokens(), 512);
    assert_eq!(asynclm::broadcast::default_max_context(), 4096);
    assert_eq!(asynclm::broadcast::default_dispatch_topic(), "asynclm/call");
    assert_eq!(asynclm::broadcast::default_result_topic(), "asynclm/result");
    assert_eq!(asynclm::coordinator::default_max_tokens(), 512);
    assert_eq!(asynclm::coordinator::default_max_context(), 4096);
    assert_eq!(asynclm::coordinator::default_repetition_window(), 64);
    assert_eq!(asynclm::completion::default_max_tokens(), 1024);
}

#[test]
fn prompts_name_the_markup() {
    for text in [
        asynclm::parallel::default_system(),
        asynclm::overlap::default_system(),
        asynclm::overlap::default_sampled_system(),
        asynclm::interruptible::default_system(),
        asynclm::checkpointing::default_system(),
        asynclm::completion::default_system(),
    ] {
        assert!(text.contains("[CALL] <id> [HEAD] <code> [END]"));
        assert!(text.contains("[TRAP][END]"));
    }
    assert!(asynclm::parallel::default_system().ends_with("The capital of Japan is Tokyo."));
    assert!(asynclm::broadcast::default_system().ends_with("\n[TRAP][END]"));
    assert!(asynclm::coordinator::default_system().contains("            [TRAP][END]\n"));
    assert_eq!(
        asynclm::coordinator::default_sentinel_system(),
        "You are a helpful assistant with async function calling. Use <|call|> id <|head|> code \
         <|end|> blocks for functions and <|trap|><|end|> to wait for all pending results."
    );
}
