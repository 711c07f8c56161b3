//! A terminal block editor core: the template grammar, the block graph and its
//! mutation engine, the layout pass with its hit-test indexes, and the
//! interaction state machine that drives them.

pub mod util;

pub mod table;
pub mod block;
pub mod spec;
pub mod result;
pub mod bridge;
pub mod ui;
pub mod runtime;
pub mod opcodes;
pub mod grammar;
pub mod input;
pub mod graph;
pub mod frames;
pub mod copies;
pub mod soundness;
pub mod totality;
pub mod tops;
pub mod reach;
pub mod cycles;
pub mod apart;
