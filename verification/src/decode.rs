//! How the transition table is decoded from an encoding.
//!
//! A rule token is written in three bytes: the digit of the symbol to write,
//! the letter of the tape move, and the lowercase letter of the next state. The
//! tokens fill the table state by state, and within a state symbol by symbol.

use crate::alphabet::{
    is_state_byte, is_symbol_byte, lemma_max_state_is_maximum, lemma_max_symbol_is_maximum,
    max_state, max_state_of, max_symbol, max_symbol_of, state_of_byte, state_value,
    symbol_of_byte, symbol_value, STATE_LIMIT, SYMBOL_LIMIT,
};
use crate::normal_form::{in_lexical_normal_form, is_lexical_normal_form, SHIFT_RIGHT};
use crate::table::{cell_count, cell_number, Direction, MachineView, Rule, TuringMachine};
use crate::tokens::{
    is_space_byte, lemma_token_is_maximal_run, nth_token, nth_token_from, skip_spaces,
    skip_token, token_end, token_start,
};
use vstd::prelude::*;
use vstd::string::StringSliceAdditionalSpecFns;

verus! {

/// Why an encoding gives no machine.
#[derive(Clone, Copy, Debug, PartialEq, Eq, Structural)]
pub enum MachineError {
    /// The encoding is not in lexical normal form.
    InvalidEncoding,
    /// The bounds exceed `SYMBOL_LIMIT` or `STATE_LIMIT`.
    UnsupportedBounds,
    /// The token with this number, counting from 0, is needed for the table
    /// and does not decode to a rule within the bounds.
    MalformedRule { index: usize },
}

/// The rule of a cell for which the encoding holds no token: write the blank,
/// move left, go to the initial state.
pub open spec fn unassigned_rule() -> Rule {
    Rule { write: 0, direction: Direction::Left, next_state: 0 }
}

/// The rule that `token` stands for in a machine with the halt state
/// `max_state` and the highest symbol `max_sym`. The first byte is the digit of
/// the symbol to write, the second is `R` for a move to the right and anything
/// else for a move to the left, the third is the letter of the next state;
/// bytes after the third are not read. `None` where the token is shorter than
/// that, where its first byte is no digit or its third no lowercase letter, and
/// where the symbol or the state lies beyond the bounds.
pub open spec fn decode_rule(token: Seq<u8>, max_state: u8, max_sym: u8) -> Option<Rule> {
    if token.len() >= 3 && is_symbol_byte(token[0]) && symbol_value(token[0]) <= max_sym
        && is_state_byte(token[2]) && state_value(token[2]) <= max_state {
        Some(
            Rule {
                write: symbol_value(token[0]),
                direction: if token[1] == SHIFT_RIGHT {
                    Direction::Right
                } else {
                    Direction::Left
                },
                next_state: state_value(token[2]),
            },
        )
    } else {
        None
    }
}

/// The rule of the cell number `n` of the table that `s` encodes: the one that
/// the token number `n` stands for, and `unassigned_rule()` where `s` has no
/// such token. `None` where that token does not decode.
pub open spec fn rule_of_cell(s: Seq<u8>, max_state: u8, max_sym: u8, n: nat) -> Option<Rule> {
    match nth_token(s, n) {
        Some(token) => decode_rule(token, max_state, max_sym),
        None => Some(unassigned_rule()),
    }
}

/// The least cell number from `from` up, below `cell_count(max_state,
/// max_sym)`, whose token does not decode, if there is one.
pub open spec fn first_malformed_from(s: Seq<u8>, max_state: u8, max_sym: u8, from: nat) -> Option<
    nat,
>
    decreases cell_count(max_state, max_sym) - from,
{
    if from >= cell_count(max_state, max_sym) {
        None
    } else if rule_of_cell(s, max_state, max_sym, from) is None {
        Some(from)
    } else {
        first_malformed_from(s, max_state, max_sym, from + 1)
    }
}

/// The machine that `s` encodes within the bounds, where every token that the
/// table needs decodes.
pub open spec fn decoded_machine(s: Seq<u8>, max_state: u8, max_sym: u8) -> MachineView {
    MachineView {
        max_symbol: max_sym,
        halt_state: max_state,
        rules: Map::new(
            |key: (u8, u8)| key.0 <= max_sym && key.1 < max_state,
            |key: (u8, u8)|
                rule_of_cell(s, max_state, max_sym, cell_number(max_sym, key.0, key.1))->0,
        ),
    }
}

/// What decoding `s` within the bounds gives: the machine, or the reason why
/// there is none.
pub open spec fn populate_result(s: Seq<u8>, max_state: u8, max_sym: u8) -> Result<
    MachineView,
    MachineError,
> {
    if max_state > STATE_LIMIT || max_sym > SYMBOL_LIMIT {
        Err(MachineError::UnsupportedBounds)
    } else {
        match first_malformed_from(s, max_state, max_sym, 0) {
            Some(index) => Err(MachineError::MalformedRule { index: index as usize }),
            None => Ok(decoded_machine(s, max_state, max_sym)),
        }
    }
}

/// The outcome of a decoding as the contracts see it: the view of the machine,
/// or the error as it is.
pub open spec fn outcome_view(outcome: Result<TuringMachine, MachineError>) -> Result<
    MachineView,
    MachineError,
> {
    match outcome {
        Ok(machine) => Ok(machine@),
        Err(error) => Err(error),
    }
}

/// What reading `s` as the encoding of a machine gives: the bounds are the
/// highest state and the highest symbol that `s` names, and `s` has to be in
/// lexical normal form before any of its tokens is decoded.
pub open spec fn encoding_result(s: Seq<u8>) -> Result<MachineView, MachineError> {
    if !in_lexical_normal_form(s) {
        Err(MachineError::InvalidEncoding)
    } else {
        populate_result(s, max_state_of(s), max_symbol_of(s))
    }
}

/// The tokens from `end` on are those that follow the token which starts at or
/// after `from` and ends at `end`.
proof fn lemma_tokens_after(s: Seq<u8>, from: int, n: nat)
    requires
        token_start(s, from) < s.len(),
        forall|k: nat| nth_token_from(s, from, k) == nth_token(s, n + k),
    ensures
        nth_token(s, n) == Some(
            s.subrange(token_start(s, from), token_end(s, token_start(s, from))),
        ),
        forall|k: nat|
            nth_token_from(s, token_end(s, token_start(s, from)), k) == nth_token(s, n + 1 + k),
{
    let end = token_end(s, token_start(s, from));
    assert(nth_token_from(s, from, 0) == nth_token(s, n + 0));
    assert forall|k: nat| nth_token_from(s, end, k) == nth_token(s, n + 1 + k) by {
        assert(nth_token_from(s, from, k + 1) == nth_token(s, n + (k + 1)));
    }
}

/// Where only whitespace is left from `from` on, `s` has no token from number
/// `n` on.
proof fn lemma_tokens_exhausted(s: Seq<u8>, from: int, n: nat)
    requires
        token_start(s, from) >= s.len(),
        forall|k: nat| nth_token_from(s, from, k) == nth_token(s, n + k),
    ensures
        forall|m: nat| m >= n ==> nth_token(s, m) is None,
{
    assert forall|m: nat| m >= n implies nth_token(s, m) is None by {
        let k = (m - n) as nat;
        assert(nth_token_from(s, from, k) == nth_token(s, n + k));
    }
}

/// The cells of a state below the halt state lie within the table, which has
/// no more than 250 cells, and the first cell of the next state follows the
/// last cell of this one.
proof fn lemma_cell_numbers(max_state: u8, max_sym: u8, symbol: u8, state: u8)
    requires
        max_state <= STATE_LIMIT,
        max_sym <= SYMBOL_LIMIT,
        symbol <= max_sym,
        state < max_state,
    ensures
        cell_number(max_sym, symbol, state) < cell_count(max_state, max_sym),
        (state + 1) * (max_sym + 1) == state * (max_sym + 1) + (max_sym + 1),
        (state + 1) * (max_sym + 1) <= cell_count(max_state, max_sym) <= 250,
{
    let width = max_sym + 1;
    assert((state + 1) * width == state * width + width) by (nonlinear_arith);
    assert((state + 1) * width <= max_state * width) by (nonlinear_arith)
        requires
            state + 1 <= max_state,
            width >= 0,
    ;
    assert(max_state * width <= 250) by (nonlinear_arith)
        requires
            0 <= max_state <= 25,
            0 <= width <= 10,
    ;
}

/// The rule that the token `bytes[start..end]` stands for within the bounds.
fn decode(bytes: &[u8], start: usize, end: usize, max_state: u8, max_sym: u8) -> (rule: Option<
    Rule,
>)
    requires
        start <= end <= bytes.len(),
    ensures
        rule == decode_rule(bytes@.subrange(start as int, end as int), max_state, max_sym),
{
    if end - start < 3 {
        return None;
    }
    let ghost token = bytes@.subrange(start as int, end as int);
    assert(token[0] == bytes@[start as int]);
    assert(token[1] == bytes@[start + 1]);
    assert(token[2] == bytes@[start + 2]);
    let write = match symbol_of_byte(bytes[start]) {
        Some(symbol) => symbol,
        None => {
            return None;
        },
    };
    let next_state = match state_of_byte(bytes[start + 2]) {
        Some(state) => state,
        None => {
            return None;
        },
    };
    if write > max_sym || next_state > max_state {
        return None;
    }
    let direction = if bytes[start + 1] == SHIFT_RIGHT {
        Direction::Right
    } else {
        Direction::Left
    };
    Some(Rule { write, direction, next_state })
}

/// Decodes the transition table of the machine with the halt state
/// `max_state` and the highest symbol `max_sym` from the tokens of `rep`.
///
/// The tokens fill the cells in order: for each state from 0 up, the cell of
/// each symbol from 0 up. The halt state gets no cells, and tokens beyond the
/// last cell are not read. A cell for which no token is left holds
/// `unassigned_rule()`.
pub fn populate_transition_function(rep: &str, max_state: u8, max_sym: u8) -> (machine: Result<
    TuringMachine,
    MachineError,
>)
    ensures
        outcome_view(machine) == populate_result(rep.spec_bytes(), max_state, max_sym),
        machine matches Ok(m) ==> m@.wf(),
{
    if max_state > STATE_LIMIT || max_sym > SYMBOL_LIMIT {
        return Err(MachineError::UnsupportedBounds);
    }
    let bytes = rep.as_bytes();
    let ghost s = bytes@;
    let mut rows: Vec<Vec<Rule>> = Vec::new();
    let mut cursor: usize = 0;
    let mut index: usize = 0;
    let mut state: u8 = 0;
    while state < max_state
        invariant
            s == bytes@,
            s == rep.spec_bytes(),
            max_state <= STATE_LIMIT,
            max_sym <= SYMBOL_LIMIT,
            state <= max_state,
            cursor <= bytes.len(),
            index == state * (max_sym + 1),
            rows.len() == state,
            forall|k: nat| nth_token_from(s, cursor as int, k) == nth_token(s, index as nat + k),
            first_malformed_from(s, max_state, max_sym, 0) == first_malformed_from(
                s,
                max_state,
                max_sym,
                index as nat,
            ),
            forall|st: int| 0 <= st < state ==> (#[trigger] rows[st]).len() == max_sym + 1,
            forall|st: int, sy: int|
                0 <= st < state && 0 <= sy <= max_sym ==> Some(#[trigger] rows[st][sy])
                    == rule_of_cell(s, max_state, max_sym, (st * (max_sym + 1) + sy) as nat),
        decreases max_state - state,
    {
        let mut row: Vec<Rule> = Vec::new();
        let mut symbol: u8 = 0;
        proof {
            lemma_cell_numbers(max_state, max_sym, 0, state);
        }
        while symbol <= max_sym
            invariant
                s == bytes@,
                s == rep.spec_bytes(),
                max_state <= STATE_LIMIT,
                max_sym <= SYMBOL_LIMIT,
                state < max_state,
                symbol <= max_sym + 1,
                cursor <= bytes.len(),
                index == state * (max_sym + 1) + symbol,
                index <= (state + 1) * (max_sym + 1) <= 250,
                row.len() == symbol,
                forall|k: nat|
                    nth_token_from(s, cursor as int, k) == nth_token(s, index as nat + k),
                first_malformed_from(s, max_state, max_sym, 0) == first_malformed_from(
                    s,
                    max_state,
                    max_sym,
                    index as nat,
                ),
                forall|sy: int|
                    0 <= sy < symbol ==> Some(#[trigger] row[sy]) == rule_of_cell(
                        s,
                        max_state,
                        max_sym,
                        (state * (max_sym + 1) + sy) as nat,
                    ),
            decreases max_sym + 1 - symbol,
        {
            proof {
                lemma_cell_numbers(max_state, max_sym, symbol, state);
            }
            let start = skip_spaces(bytes, cursor);
            let rule = if start < bytes.len() {
                let end = skip_token(bytes, start);
                proof {
                    lemma_tokens_after(s, cursor as int, index as nat);
                }
                cursor = end;
                match decode(bytes, start, end, max_state, max_sym) {
                    Some(rule) => rule,
                    None => {
                        return Err(MachineError::MalformedRule { index });
                    },
                }
            } else {
                proof {
                    lemma_tokens_exhausted(s, cursor as int, index as nat);
                    assert(nth_token(s, index as nat) is None);
                    assert forall|k: nat|
                        nth_token_from(s, cursor as int, k) == nth_token(
                            s,
                            (index + 1) as nat + k,
                        ) by {
                        assert(nth_token(s, (index + 1) as nat + k) is None);
                        assert(nth_token_from(s, cursor as int, k) is None);
                    }
                }
                Rule { write: 0, direction: Direction::Left, next_state: 0 }
            };
            proof {
                assert(rule_of_cell(s, max_state, max_sym, index as nat) == Some(rule));
            }
            row.push(rule);
            symbol += 1;
            index += 1;
        }
        rows.push(row);
        state += 1;
    }
    proof {
        assert forall|st: int, sy: int|
            0 <= st < max_state && 0 <= sy <= max_sym implies (#[trigger] rows[st][sy]).write
            <= max_sym && rows[st][sy].next_state <= max_state by {
            assert(Some(rows[st][sy]) == rule_of_cell(
                s,
                max_state,
                max_sym,
                (st * (max_sym + 1) + sy) as nat,
            ));
        }
    }
    let ghost cells = rows@;
    let machine = TuringMachine::from_rows(max_sym, max_state, rows);
    proof {
        let decoded = decoded_machine(s, max_state, max_sym);
        assert forall|key: (u8, u8)|
            machine@.rules.dom().contains(key) <==> decoded.rules.dom().contains(key) by {
            assert(key == (key.0, key.1));
            assert(machine@.rules.dom().contains((key.0, key.1)) <==> machine@.has_rule_for(
                key.0,
                key.1,
            ));
        }
        assert(machine@.rules.dom() =~= decoded.rules.dom());
        assert forall|key: (u8, u8)| machine@.rules.dom().contains(key) implies machine@.rules[key]
            == decoded.rules[key] by {
            assert(key == (key.0, key.1));
            assert(machine@.rules[(key.0, key.1)] == cells[key.1 as int][key.0 as int]);
            assert(Some(cells[key.1 as int][key.0 as int]) == rule_of_cell(
                s,
                max_state,
                max_sym,
                cell_number(max_sym, key.0, key.1),
            ));
        }
        assert(machine@.rules =~= decoded.rules);
        assert(machine@ == decoded);
    }
    Ok(machine)
}

impl TuringMachine {
    /// Reads `rep` as the encoding of a machine: finds the bounds, checks that
    /// `rep` is in lexical normal form, and decodes the table.
    pub fn from_encoding(rep: &str) -> (machine: Result<TuringMachine, MachineError>)
        ensures
            outcome_view(machine) == encoding_result(rep.spec_bytes()),
            machine matches Ok(m) ==> m@.wf(),
    {
        let halt_state = max_state(rep);
        let highest_symbol = max_symbol(rep);
        if !is_lexical_normal_form(rep) {
            return Err(MachineError::InvalidEncoding);
        }
        populate_transition_function(rep, halt_state, highest_symbol)
    }
}

/// Within the bounds that `s` itself gives, a token of `s` fails to decode
/// only by its shape: every symbol and every state that a token names lies
/// within them.
pub proof fn lemma_own_bounds_hold_every_token(s: Seq<u8>, n: nat)
    ensures
        nth_token(s, n) matches Some(token) ==> (decode_rule(
            token,
            max_state_of(s),
            max_symbol_of(s),
        ) is Some <==> token.len() >= 3 && is_symbol_byte(token[0]) && is_state_byte(token[2])),
{
    if nth_token(s, n) is Some {
        let token = nth_token(s, n)->0;
        lemma_token_is_maximal_run(s, 0, n);
        let (start, end) = choose|start: int, end: int|
            {
                &&& 0 <= start < end <= s.len()
                &&& token == #[trigger] s.subrange(start, end)
                &&& forall|k: int| start <= k < end ==> !is_space_byte(#[trigger] s[k])
                &&& start == 0 || is_space_byte(s[start - 1])
                &&& end == s.len() || is_space_byte(s[end])
            };
        lemma_max_state_is_maximum(s);
        lemma_max_symbol_is_maximum(s);
        if token.len() >= 3 {
            assert(token[0] == s[start]);
            assert(token[2] == s[start + 2]);
        }
    }
}

/// Where every token that the table needs decodes, every cell has a rule.
proof fn lemma_no_malformed(s: Seq<u8>, max_state: u8, max_sym: u8, from: nat, n: nat)
    requires
        first_malformed_from(s, max_state, max_sym, from) is None,
        from <= n < cell_count(max_state, max_sym),
    ensures
        rule_of_cell(s, max_state, max_sym, n) is Some,
    decreases cell_count(max_state, max_sym) - from,
{
    if from < n {
        lemma_no_malformed(s, max_state, max_sym, from + 1, n);
    }
}

/// The token that is reported as malformed is the first of those which the
/// table needs that does not decode.
pub proof fn lemma_first_malformed_is_first(s: Seq<u8>, max_state: u8, max_sym: u8, from: nat)
    ensures
        match first_malformed_from(s, max_state, max_sym, from) {
            Some(index) => from <= index < cell_count(max_state, max_sym) && rule_of_cell(
                s,
                max_state,
                max_sym,
                index,
            ) is None && forall|n: nat|
                from <= n < index ==> (#[trigger] rule_of_cell(s, max_state, max_sym, n)) is Some,
            None => forall|n: nat|
                from <= n < cell_count(max_state, max_sym) ==> (#[trigger] rule_of_cell(
                    s,
                    max_state,
                    max_sym,
                    n,
                )) is Some,
        },
    decreases cell_count(max_state, max_sym) - from,
{
    if from < cell_count(max_state, max_sym) && rule_of_cell(s, max_state, max_sym, from) is Some {
        lemma_first_malformed_is_first(s, max_state, max_sym, from + 1);
    }
}

/// A table that was decoded has no missing entry: it holds one rule for every
/// symbol within the bounds in every state but the halt state, and every rule
/// stays within the bounds.
pub proof fn lemma_decoded_table_is_total(s: Seq<u8>, max_state: u8, max_sym: u8)
    requires
        populate_result(s, max_state, max_sym) is Ok,
    ensures
        populate_result(s, max_state, max_sym)->Ok_0.wf(),
        populate_result(s, max_state, max_sym)->Ok_0.max_symbol == max_sym,
        populate_result(s, max_state, max_sym)->Ok_0.halt_state == max_state,
        forall|symbol: u8, state: u8|
            symbol <= max_sym && state < max_state ==> populate_result(
                s,
                max_state,
                max_sym,
            )->Ok_0.rules.dom().contains((symbol, state)),
{
    let m = decoded_machine(s, max_state, max_sym);
    assert forall|symbol: u8, state: u8| #[trigger]
        m.rules.dom().contains((symbol, state)) implies m.rules[(symbol, state)].write <= max_sym
        && m.rules[(symbol, state)].next_state <= max_state by {
        lemma_cell_numbers(max_state, max_sym, symbol, state);
        lemma_no_malformed(s, max_state, max_sym, 0, cell_number(max_sym, symbol, state));
    }
}

/// An encoding in lexical normal form whose tokens, as far as the table needs
/// them, have the shape of a rule gives a machine, and the table of that
/// machine has no missing entry for any symbol that the encoding names in any
/// state that it names but the halt state.
pub proof fn lemma_accepted_encoding_has_total_table(s: Seq<u8>)
    requires
        in_lexical_normal_form(s),
        forall|n: nat|
            n < cell_count(max_state_of(s), max_symbol_of(s)) ==> (#[trigger] nth_token(
                s,
                n,
            ) matches Some(token) ==> token.len() >= 3 && is_symbol_byte(token[0])
                && is_state_byte(token[2])),
    ensures
        encoding_result(s) is Ok,
        encoding_result(s)->Ok_0.wf(),
        forall|symbol: u8, state: u8|
            symbol <= max_symbol_of(s) && state < max_state_of(s) ==> encoding_result(
                s,
            )->Ok_0.rules.dom().contains((symbol, state)),
{
    let max_state = max_state_of(s);
    let max_sym = max_symbol_of(s);
    lemma_max_state_is_maximum(s);
    lemma_max_symbol_is_maximum(s);
    lemma_first_malformed_is_first(s, max_state, max_sym, 0);
    if first_malformed_from(s, max_state, max_sym, 0) is Some {
        let index = first_malformed_from(s, max_state, max_sym, 0)->0;
        lemma_own_bounds_hold_every_token(s, index);
        assert(nth_token(s, index) is Some);
    }
    lemma_decoded_table_is_total(s, max_state, max_sym);
}

/// The bounds that an encoding itself gives are never beyond the limits.
pub proof fn lemma_encoding_bounds_are_supported(s: Seq<u8>)
    ensures
        encoding_result(s) != Err::<MachineView, MachineError>(MachineError::UnsupportedBounds),
{
    lemma_max_state_is_maximum(s);
    lemma_max_symbol_is_maximum(s);
}

} // verus!
