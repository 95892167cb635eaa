//! The transition table of a machine.
//!
//! The table holds one rule for each symbol in each state but the highest
//! one, which is the halt state and has no rules.

use crate::alphabet::{STATE_LIMIT, SYMBOL_LIMIT};
use vstd::prelude::*;

verus! {

/// The way the head moves after it has written.
#[derive(Clone, Copy, Debug, PartialEq, Eq, Structural)]
pub enum Direction {
    Left,
    Right,
}

/// What a machine does in one state on one symbol.
#[derive(Clone, Copy, Debug, PartialEq, Eq, Structural)]
pub struct Rule {
    /// The symbol written over the one that was read.
    pub write: u8,
    /// The move of the head after writing.
    pub direction: Direction,
    /// The state the machine is in afterwards.
    pub next_state: u8,
}

/// The number of cells of the table: one for each symbol in each state but the
/// halt state.
pub open spec fn cell_count(max_state: u8, max_sym: u8) -> nat {
    (max_state * (max_sym + 1)) as nat
}

/// The place of the cell for `symbol` in `state` in the order in which the
/// tokens fill the table.
pub open spec fn cell_number(max_sym: u8, symbol: u8, state: u8) -> nat {
    (state * (max_sym + 1) + symbol) as nat
}

/// A machine as the contracts see it.
pub ghost struct MachineView {
    /// The highest symbol; the symbols are `0 ..= max_symbol`.
    pub max_symbol: u8,
    /// The highest state, in which the machine halts; the states are
    /// `0 ..= halt_state`.
    pub halt_state: u8,
    /// The rule for each pair of a symbol and a state.
    pub rules: Map<(u8, u8), Rule>,
}

impl MachineView {
    /// `(symbol, state)` is a pair for which a machine with these bounds has a
    /// rule: the symbol is within the bounds and the state is below the halt
    /// state.
    pub open spec fn has_rule_for(self, symbol: u8, state: u8) -> bool {
        symbol <= self.max_symbol && state < self.halt_state
    }

    /// The table is total and closed: it holds exactly one rule for every
    /// symbol in every state but the halt state, none for the halt state, and
    /// every rule writes a symbol and leads to a state within the bounds.
    pub open spec fn wf(self) -> bool {
        &&& self.max_symbol <= SYMBOL_LIMIT
        &&& self.halt_state <= STATE_LIMIT
        &&& forall|symbol: u8, state: u8|
            self.rules.dom().contains((symbol, state)) <==> self.has_rule_for(symbol, state)
        &&& forall|symbol: u8, state: u8| #[trigger]
            self.rules.dom().contains((symbol, state)) ==> self.rules[(symbol, state)].write
                <= self.max_symbol && self.rules[(symbol, state)].next_state <= self.halt_state
    }
}

/// A machine: its bounds and its transition table.
#[derive(Debug)]
pub struct TuringMachine {
    max_symbol: u8,
    halt_state: u8,
    /// One row for each state below the halt state, which holds one rule for
    /// each symbol.
    transition_function: Vec<Vec<Rule>>,
}

impl View for TuringMachine {
    type V = MachineView;

    closed spec fn view(&self) -> MachineView {
        MachineView {
            max_symbol: self.max_symbol,
            halt_state: self.halt_state,
            rules: Map::new(
                |key: (u8, u8)| key.0 <= self.max_symbol && key.1 < self.halt_state,
                |key: (u8, u8)| self.transition_function[key.1 as int][key.0 as int],
            ),
        }
    }
}

impl TuringMachine {
    #[verifier::type_invariant]
    spec fn table_is_dense(&self) -> bool {
        &&& self.max_symbol <= SYMBOL_LIMIT
        &&& self.halt_state <= STATE_LIMIT
        &&& self.transition_function.len() == self.halt_state
        &&& forall|state: int|
            0 <= state < self.halt_state ==> (#[trigger] self.transition_function[state]).len()
                == self.max_symbol + 1
        &&& forall|state: int, symbol: int|
            0 <= state < self.halt_state && 0 <= symbol <= self.max_symbol ==> {
                let rule = #[trigger] self.transition_function[state][symbol];
                rule.write <= self.max_symbol && rule.next_state <= self.halt_state
            }
    }

    /// The machine with these bounds whose row for each state below the halt
    /// state is the row of `rows` with that state's number.
    pub(crate) fn from_rows(max_symbol: u8, halt_state: u8, rows: Vec<Vec<Rule>>) -> (machine:
        TuringMachine)
        requires
            max_symbol <= SYMBOL_LIMIT,
            halt_state <= STATE_LIMIT,
            rows.len() == halt_state,
            forall|state: int|
                0 <= state < halt_state ==> (#[trigger] rows[state]).len() == max_symbol + 1,
            forall|state: int, symbol: int|
                0 <= state < halt_state && 0 <= symbol <= max_symbol ==> (
                #[trigger] rows[state][symbol]).write <= max_symbol
                    && rows[state][symbol].next_state <= halt_state,
        ensures
            machine@.wf(),
            machine@.max_symbol == max_symbol,
            machine@.halt_state == halt_state,
            forall|symbol: u8, state: u8|
                symbol <= max_symbol && state < halt_state ==> #[trigger] machine@.rules[(
                    symbol,
                    state,
                )] == rows[state as int][symbol as int],
    {
        TuringMachine { max_symbol, halt_state, transition_function: rows }
    }

    /// The highest symbol of the machine.
    pub fn max_symbol(&self) -> (max: u8)
        ensures
            max == self@.max_symbol,
            self@.wf(),
    {
        proof {
            use_type_invariant(self);
        }
        self.max_symbol
    }

    /// The halt state of the machine, which is its highest state.
    pub fn halt_state(&self) -> (halt: u8)
        ensures
            halt == self@.halt_state,
            self@.wf(),
    {
        proof {
            use_type_invariant(self);
        }
        self.halt_state
    }

    /// The rule for `symbol` in `state`; `None` for the halt state, whose row
    /// is empty, and beyond the bounds.
    pub fn rule(&self, symbol: u8, state: u8) -> (rule: Option<Rule>)
        ensures
            rule == if self@.has_rule_for(symbol, state) {
                Some(self@.rules[(symbol, state)])
            } else {
                None
            },
            self@.wf(),
    {
        proof {
            use_type_invariant(self);
        }
        if symbol <= self.max_symbol && state < self.halt_state {
            Some(self.transition_function[state as usize][symbol as usize])
        } else {
            None
        }
    }
}

/// The pairs of a symbol below `width` and the state `state`.
spec fn cells_of_state(state: u8, width: int) -> Set<(u8, u8)> {
    Set::new(|key: (u8, u8)| key.0 < width && key.1 == state)
}

/// The pairs of a symbol below `width` and a state below `states`.
spec fn cells_below(states: int, width: int) -> Set<(u8, u8)> {
    Set::new(|key: (u8, u8)| key.0 < width && key.1 < states)
}

/// One state has as many cells as there are symbols.
proof fn lemma_cells_of_state_len(state: u8, width: int)
    requires
        0 <= width <= 256,
    ensures
        cells_of_state(state, width).finite(),
        cells_of_state(state, width).len() == width,
    decreases width,
{
    if width == 0 {
        assert(cells_of_state(state, width) =~= Set::<(u8, u8)>::empty());
    } else {
        lemma_cells_of_state_len(state, width - 1);
        assert(cells_of_state(state, width) =~= cells_of_state(state, width - 1).insert(
            ((width - 1) as u8, state),
        ));
    }
}

/// The states below `states` have `states * width` cells together.
proof fn lemma_cells_below_len(states: int, width: int)
    requires
        0 <= states <= 256,
        0 <= width <= 256,
    ensures
        cells_below(states, width).finite(),
        cells_below(states, width).len() == states * width,
    decreases states,
{
    if states == 0 {
        assert(cells_below(states, width) =~= Set::<(u8, u8)>::empty());
    } else {
        let row = cells_of_state((states - 1) as u8, width);
        let before = cells_below(states - 1, width);
        lemma_cells_below_len(states - 1, width);
        lemma_cells_of_state_len((states - 1) as u8, width);
        assert(cells_below(states, width) =~= before + row);
        assert(before.disjoint(row));
        vstd::set_lib::lemma_set_disjoint_lens(before, row);
        assert(states * width == (states - 1) * width + width) by (nonlinear_arith);
    }
}

/// A table holds exactly `(max_symbol + 1) * halt_state` rules: the row of the
/// halt state is left out.
pub proof fn lemma_table_has_one_rule_per_cell(m: MachineView)
    requires
        m.wf(),
    ensures
        m.rules.dom().finite(),
        m.rules.dom().len() == (m.max_symbol + 1) * m.halt_state,
        m.rules.dom().len() == cell_count(m.halt_state, m.max_symbol),
{
    let cells = cells_below(m.halt_state as int, m.max_symbol + 1);
    lemma_cells_below_len(m.halt_state as int, m.max_symbol + 1);
    assert forall|key: (u8, u8)| m.rules.dom().contains(key) <==> cells.contains(key) by {
        assert(m.rules.dom().contains((key.0, key.1)) <==> m.has_rule_for(key.0, key.1));
    }
    assert(m.rules.dom() =~= cells);
    assert((m.max_symbol + 1) * m.halt_state == m.halt_state * (m.max_symbol + 1))
        by (nonlinear_arith);
}

} // verus!
