//! A small stack-based, thunk-oriented language: a continuation-passing
//! transform, a block-flattening step, and a trampoline runtime that
//! together run deeply nested, mutually recursive closures in bounded
//! control-stack space.
//!
//! A source program (`parser`) is rewritten into continuation-passing form
//! (`cps`), flattened into a table of named instruction blocks and
//! optionally emitted as a stand-alone program (`compiler`), and executed
//! by a dispatch loop that replaces one live frame instead of recursing
//! (`runtime`). A direct-style evaluator (`eval`) serves as a semantic
//! oracle for the compiled pipeline.

pub mod compiler;
pub mod cps;
pub mod eval;
pub mod parser;
pub mod runtime;
pub mod util;
