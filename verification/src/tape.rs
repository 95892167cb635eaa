//! The tape of a machine, the head on it, and the state the machine is in.
//!
//! The tape starts as one blank cell and grows by one blank cell whenever the
//! head would leave it, at either end, and at no other time.

use crate::table::{Direction, Rule};
use vstd::prelude::*;

verus! {

/// The blank symbol, which a new cell of the tape holds.
pub const BLANK: u8 = 0;

/// The state in which a machine starts.
pub const INITIAL_STATE: u8 = 0;

/// A configuration as the contracts see it.
pub ghost struct ConfigurationView {
    /// The cells of the tape, from the leftmost one that exists.
    pub tape: Seq<u8>,
    /// The index in `tape` of the cell under the head.
    pub pointer: int,
    /// The state of the machine.
    pub state: u8,
}

impl ConfigurationView {
    /// The head is on the tape.
    pub open spec fn wf(self) -> bool {
        0 <= self.pointer < self.tape.len()
    }

    /// The symbol under the head.
    pub open spec fn current_symbol(self) -> u8
        recommends
            self.wf(),
    {
        self.tape[self.pointer]
    }

    /// The configuration after one step by `rule`: the symbol is written under
    /// the head, the head moves, and the state changes. A head that moves
    /// right off the last cell finds a new blank cell appended there. A head
    /// that moves left off the first cell finds a new blank cell put in front,
    /// which is then the cell 0.
    pub open spec fn apply(self, rule: Rule) -> ConfigurationView
        recommends
            self.wf(),
    {
        let written = self.tape.update(self.pointer, rule.write);
        match rule.direction {
            Direction::Right => ConfigurationView {
                tape: if self.pointer + 1 == written.len() {
                    written.push(BLANK)
                } else {
                    written
                },
                pointer: self.pointer + 1,
                state: rule.next_state,
            },
            Direction::Left => ConfigurationView {
                tape: if self.pointer == 0 {
                    seq![BLANK] + written
                } else {
                    written
                },
                pointer: if self.pointer == 0 {
                    0
                } else {
                    self.pointer - 1
                },
                state: rule.next_state,
            },
        }
    }
}

/// The configuration in which every machine starts: one blank cell, the head
/// on it, the initial state.
pub open spec fn initial_configuration() -> ConfigurationView {
    ConfigurationView { tape: seq![BLANK], pointer: 0, state: INITIAL_STATE }
}

/// A step keeps the head on the tape, and the tape grows by one cell at most.
pub proof fn lemma_apply_keeps_head_on_tape(c: ConfigurationView, rule: Rule)
    requires
        c.wf(),
    ensures
        c.apply(rule).wf(),
        c.tape.len() <= c.apply(rule).tape.len() <= c.tape.len() + 1,
{
}

/// The tape grows exactly when the head would leave it: at the right end on a
/// move to the right from the last cell, at the left end on a move to the left
/// from the first cell.
pub proof fn lemma_apply_grows_at_the_ends(c: ConfigurationView, rule: Rule)
    requires
        c.wf(),
    ensures
        c.apply(rule).tape.len() == c.tape.len() + 1 <==> (rule.direction == Direction::Right
            && c.pointer == c.tape.len() - 1) || (rule.direction == Direction::Left && c.pointer
            == 0),
        c.apply(rule).current_symbol() == (if c.apply(rule).tape.len() == c.tape.len() + 1 {
            BLANK
        } else if rule.direction == Direction::Right {
            c.tape[c.pointer + 1]
        } else {
            c.tape[c.pointer - 1]
        }),
{
}

/// The tape, the head and the state of a machine at one moment.
///
/// The cells left of the head and those right of it are kept apart, each with
/// the cell nearest to the head last, so that a step costs the same wherever
/// the head stands.
#[derive(Debug)]
pub struct Configuration {
    left: Vec<u8>,
    head: u8,
    right: Vec<u8>,
    state: u8,
}

impl View for Configuration {
    type V = ConfigurationView;

    closed spec fn view(&self) -> ConfigurationView {
        ConfigurationView {
            tape: self.left@ + seq![self.head] + self.right@.reverse(),
            pointer: self.left@.len() as int,
            state: self.state,
        }
    }
}

/// A configuration laid out for reading: the whole tape in one vector.
#[derive(Clone, Debug, PartialEq, Eq)]
pub struct Snapshot {
    /// The cells of the tape, from the leftmost one that exists.
    pub tape: Vec<u8>,
    /// The index in `tape` of the cell under the head.
    pub pointer: usize,
    /// The state of the machine.
    pub state: u8,
}

impl View for Snapshot {
    type V = ConfigurationView;

    open spec fn view(&self) -> ConfigurationView {
        ConfigurationView { tape: self.tape@, pointer: self.pointer as int, state: self.state }
    }
}

impl Configuration {
    /// The configuration in which every machine starts.
    pub fn new() -> (config: Configuration)
        ensures
            config@ == initial_configuration(),
    {
        let config = Configuration {
            left: Vec::new(),
            head: BLANK,
            right: Vec::new(),
            state: INITIAL_STATE,
        };
        assert(config@.tape =~= seq![BLANK]);
        config
    }

    /// The state of the machine.
    pub fn state(&self) -> (state: u8)
        ensures
            state == self@.state,
    {
        self.state
    }

    /// The symbol under the head.
    pub fn current_symbol(&self) -> (symbol: u8)
        ensures
            symbol == self@.current_symbol(),
            self@.wf(),
    {
        self.head
    }

    /// The index of the cell under the head, counted from the leftmost cell
    /// of the tape.
    pub fn pointer(&self) -> (pointer: usize)
        ensures
            pointer == self@.pointer,
            self@.wf(),
    {
        self.left.len()
    }

    /// The cells of the tape, from the leftmost one.
    pub fn tape(&self) -> (tape: Vec<u8>)
        ensures
            tape@ == self@.tape,
    {
        let mut tape: Vec<u8> = Vec::new();
        let mut i: usize = 0;
        while i < self.left.len()
            invariant
                i <= self.left.len(),
                tape@ == self.left@.take(i as int),
            decreases self.left.len() - i,
        {
            tape.push(self.left[i]);
            assert(tape@ =~= self.left@.take(i + 1));
            i += 1;
        }
        assert(self.left@.take(i as int) =~= self.left@);
        tape.push(self.head);
        let mut j: usize = self.right.len();
        while j > 0
            invariant
                j <= self.right.len(),
                tape@ == self.left@ + seq![self.head] + self.right@.reverse().take(
                    self.right.len() - j,
                ),
            decreases j,
        {
            j -= 1;
            tape.push(self.right[j]);
            assert(tape@ =~= self.left@ + seq![self.head] + self.right@.reverse().take(
                self.right.len() - j,
            ));
        }
        assert(self.right@.reverse().take(self.right.len() as int) =~= self.right@.reverse());
        tape
    }

    /// The configuration laid out for reading.
    pub fn snapshot(&self) -> (snapshot: Snapshot)
        ensures
            snapshot@ == self@,
            self@.wf(),
    {
        Snapshot { tape: self.tape(), pointer: self.left.len(), state: self.state }
    }

    /// Makes one step by `rule`: writes, moves the head, changes the state.
    pub fn apply(&mut self, rule: Rule)
        ensures
            final(self)@ == old(self)@.apply(rule),
            final(self)@.wf(),
    {
        let ghost before = self@;
        match rule.direction {
            Direction::Right => {
                self.left.push(rule.write);
                self.head = match self.right.pop() {
                    Some(symbol) => symbol,
                    None => BLANK,
                };
            },
            Direction::Left => {
                self.right.push(rule.write);
                self.head = match self.left.pop() {
                    Some(symbol) => symbol,
                    None => BLANK,
                };
            },
        }
        self.state = rule.next_state;
        assert(self@.tape =~= before.apply(rule).tape);
    }
}

} // verus!
