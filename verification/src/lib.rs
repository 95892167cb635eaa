//! A single-tape Turing machine whose transition table is given as a compact
//! textual encoding.
//!
//! An encoding is a string of whitespace-separated rule tokens such as
//! `"1Rb 0Ra"`. The library finds the highest symbol and the highest state
//! that the encoding names ([`max_symbol`], [`max_state`]), checks that the
//! encoding is in lexical normal form ([`is_lexical_normal_form`]), decodes the
//! transition table ([`populate_transition_function`]) and runs the machine on
//! a tape that grows at both ends ([`TuringMachine::run`]).
//! [`run_encoding`] does all of it in one call.
//!
//! An encoding is read as bytes; the contracts speak of `rep.spec_bytes()`.

pub mod alphabet;
pub mod decode;
pub mod engine;
pub mod normal_form;
pub mod table;
pub mod tape;
pub mod tokens;

pub use alphabet::{max_state, max_symbol, num_to_state, state_to_num};
pub use engine::{run_encoding, RunOutcome, RunReport, STEP_BUDGET};
pub use normal_form::is_lexical_normal_form;
pub use decode::{populate_transition_function, MachineError};
pub use table::{Direction, Rule, TuringMachine};
pub use tape::{Configuration, Snapshot};
