//! Asynchronous function calling for language models.
//!
//! A model writes calls into its answer, `[CALL] id [HEAD] code [END]`, and goes on writing
//! while they run. Each result comes back as an interrupt, `[INTR] id [HEAD] result [END]`,
//! and `[TRAP][END]` waits for the results that are still out.
//!
//! The library holds what such a session decides, proved against its contracts:
//!
//! * the markup as tokens: `registry`, `variants`, `pattern`, `mask`;
//! * the parsers and the state machines that they run: `machine`, `parser`, `blocks`, `cml`;
//! * calls, results, interrupts, checkpoints and traps: `tools`, `executor`, `interrupts`,
//!   `checkpoint`, `trap`, `sampler`;
//! * the sessions, which take events and say what their driver is to do: `parallel`,
//!   `overlap`, `interruptible`, `checkpointing`, `broadcast`, `coordinator`, `completion`;
//! * what holds of all of them together: `laws`, `shapes`, `cml_laws`, `cml_shapes`,
//!   `seam_laws`;
//! * what each operation is for, over its inputs and results alone: `text_laws`,
//!   `token_laws`, `step_laws`, `call_laws`, `decision_laws`, `session_laws`, `tool_laws`,
//!   `view_laws`.
//!
//! Tokens are turned into text and back by `codec`, through the host's tokenizer or a table.

pub mod blocks;
pub mod broadcast;
pub mod call_laws;
pub mod checkpoint;
pub mod checkpointing;
pub mod cml;
pub mod cml_laws;
pub mod cml_shapes;
pub mod codec;
pub mod completion;
pub mod coordinator;
pub mod decision_laws;
pub mod executor;
pub mod flow;
pub mod interruptible;
pub mod interrupts;
pub mod laws;
pub mod machine;
pub mod mask;
pub mod overlap;
pub mod parallel;
pub mod parser;
pub mod pattern;
pub mod prompts;
pub mod registry;
pub mod sampler;
pub mod seam_laws;
pub mod session;
pub mod session_laws;
pub mod shapes;
pub mod step_laws;
pub mod text;
pub mod text_laws;
pub mod token_laws;
pub mod tool_laws;
pub mod tools;
pub mod trap;
pub mod variants;
pub mod view_laws;
