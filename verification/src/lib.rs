//! Garbled circuits for Boolean circuits in the Bristol format, with the free-XOR optimisation.
//!
//! A circuit is processed in passes over its text. The analyzer counts how often each wire is
//! read and finds the primary inputs and outputs. The garbler gives every wire a label and every
//! `AND` gate a table. The selector picks one label for each input bit. The evaluator computes
//! the output labels and bits from the picked labels and the tables. The plain evaluator runs
//! the circuit on bits. Each pass can be fed line by line, or be given the whole text.
//!
//! Every pass has a mathematical description; `laws` proves what the descriptions have in
//! common, above all that the garbled path computes what the circuit computes.

pub mod text;
pub mod bristol;
pub mod decimal;
pub mod constants;

pub mod label;
pub mod hash;
pub mod keystream;
pub mod wires;
pub mod liveness;

pub mod wire_analyzer;
pub mod garbler;
pub mod ot_simulation;
pub mod evaluator;
pub mod plain_evaluator;
pub mod laws;

pub mod counter;
pub mod single_use_analyzer;
pub mod memory_simulation;
pub mod bin;
