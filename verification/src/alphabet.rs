//! Symbols and states as they are written in an encoding.
//!
//! A symbol is written as an ASCII digit (`'0'` is symbol 0, the blank), a state
//! as an ASCII lowercase letter (`'a'` is state 0, the initial state), and a
//! tape move as an ASCII uppercase letter. Every other byte of an encoding
//! names nothing.

use vstd::prelude::*;
use vstd::string::StringSliceAdditionalSpecFns;

verus! {

/// The digit `'0'`, which names the blank symbol.
pub const DIGIT_ZERO: u8 = 0x30;

/// The digit `'9'`, which names the largest symbol.
pub const DIGIT_NINE: u8 = 0x39;

/// The letter `'a'`, which names the initial state.
pub const LETTER_A: u8 = 0x61;

/// The letter `'z'`, which names the largest state.
pub const LETTER_Z: u8 = 0x7a;

/// The first uppercase letter, `'A'`.
pub const CAPITAL_A: u8 = 0x41;

/// The last uppercase letter, `'Z'`.
pub const CAPITAL_Z: u8 = 0x5a;

/// The largest symbol that an encoding can name.
pub const SYMBOL_LIMIT: u8 = 9;

/// The largest state that an encoding can name.
pub const STATE_LIMIT: u8 = 25;

/// `b` is an ASCII digit: it names a symbol.
pub open spec fn is_symbol_byte(b: u8) -> bool {
    DIGIT_ZERO <= b <= DIGIT_NINE
}

/// `b` is an ASCII lowercase letter: it names a state.
pub open spec fn is_state_byte(b: u8) -> bool {
    LETTER_A <= b <= LETTER_Z
}

/// `b` is an ASCII uppercase letter: it stands where a tape move is written.
pub open spec fn is_shift_byte(b: u8) -> bool {
    CAPITAL_A <= b <= CAPITAL_Z
}

/// The symbol that the digit `b` names.
pub open spec fn symbol_value(b: u8) -> u8
    recommends
        is_symbol_byte(b),
{
    (b - DIGIT_ZERO) as u8
}

/// The state that the lowercase letter `b` names.
pub open spec fn state_value(b: u8) -> u8
    recommends
        is_state_byte(b),
{
    (b - LETTER_A) as u8
}

/// The highest symbol named anywhere in `s`, and 0 where `s` holds no digit.
pub open spec fn max_symbol_of(s: Seq<u8>) -> u8
    decreases s.len(),
{
    if s.len() == 0 {
        0
    } else {
        let before = max_symbol_of(s.drop_last());
        if is_symbol_byte(s.last()) && symbol_value(s.last()) > before {
            symbol_value(s.last())
        } else {
            before
        }
    }
}

/// The highest state named anywhere in `s`, and 0 where `s` holds no lowercase
/// letter.
pub open spec fn max_state_of(s: Seq<u8>) -> u8
    decreases s.len(),
{
    if s.len() == 0 {
        0
    } else {
        let before = max_state_of(s.drop_last());
        if is_state_byte(s.last()) && state_value(s.last()) > before {
            state_value(s.last())
        } else {
            before
        }
    }
}

/// `max_symbol_of(s)` is an upper bound of the symbols named in `s`, it is
/// itself named in `s` unless it is the blank, and it never exceeds
/// `SYMBOL_LIMIT`.
pub proof fn lemma_max_symbol_is_maximum(s: Seq<u8>)
    ensures
        max_symbol_of(s) <= SYMBOL_LIMIT,
        forall|i: int|
            0 <= i < s.len() && is_symbol_byte(#[trigger] s[i]) ==> symbol_value(s[i])
                <= max_symbol_of(s),
        max_symbol_of(s) == 0 || exists|i: int|
            0 <= i < s.len() && is_symbol_byte(#[trigger] s[i]) && symbol_value(s[i])
                == max_symbol_of(s),
    decreases s.len(),
{
    if s.len() > 0 {
        let init = s.drop_last();
        lemma_max_symbol_is_maximum(init);
        assert forall|i: int| 0 <= i < s.len() && is_symbol_byte(#[trigger] s[i]) implies symbol_value(
            s[i],
        ) <= max_symbol_of(s) by {
            if i < init.len() {
                assert(init[i] == s[i]);
            }
        }
        if max_symbol_of(s) != 0 {
            if max_symbol_of(s) == max_symbol_of(init) {
                let i = choose|i: int|
                    0 <= i < init.len() && is_symbol_byte(#[trigger] init[i]) && symbol_value(
                        init[i],
                    ) == max_symbol_of(init);
                assert(s[i] == init[i]);
            } else {
                assert(s[s.len() - 1] == s.last());
            }
        }
    }
}

/// `max_state_of(s)` is an upper bound of the states named in `s`, it is
/// itself named in `s` unless it is the initial state, and it never exceeds
/// `STATE_LIMIT`.
pub proof fn lemma_max_state_is_maximum(s: Seq<u8>)
    ensures
        max_state_of(s) <= STATE_LIMIT,
        forall|i: int|
            0 <= i < s.len() && is_state_byte(#[trigger] s[i]) ==> state_value(s[i])
                <= max_state_of(s),
        max_state_of(s) == 0 || exists|i: int|
            0 <= i < s.len() && is_state_byte(#[trigger] s[i]) && state_value(s[i])
                == max_state_of(s),
    decreases s.len(),
{
    if s.len() > 0 {
        let init = s.drop_last();
        lemma_max_state_is_maximum(init);
        assert forall|i: int| 0 <= i < s.len() && is_state_byte(#[trigger] s[i]) implies state_value(
            s[i],
        ) <= max_state_of(s) by {
            if i < init.len() {
                assert(init[i] == s[i]);
            }
        }
        if max_state_of(s) != 0 {
            if max_state_of(s) == max_state_of(init) {
                let i = choose|i: int|
                    0 <= i < init.len() && is_state_byte(#[trigger] init[i]) && state_value(
                        init[i],
                    ) == max_state_of(init);
                assert(s[i] == init[i]);
            } else {
                assert(s[s.len() - 1] == s.last());
            }
        }
    }
}

/// The symbol that `b` names, if it names one.
pub fn symbol_of_byte(b: u8) -> (symbol: Option<u8>)
    ensures
        symbol is Some <==> is_symbol_byte(b),
        symbol is Some ==> symbol->0 == symbol_value(b) && symbol->0 <= SYMBOL_LIMIT,
{
    if DIGIT_ZERO <= b && b <= DIGIT_NINE {
        Some(b - DIGIT_ZERO)
    } else {
        None
    }
}

/// The state that `b` names, if it names one.
pub fn state_of_byte(b: u8) -> (state: Option<u8>)
    ensures
        state is Some <==> is_state_byte(b),
        state is Some ==> state->0 == state_value(b) && state->0 <= STATE_LIMIT,
{
    if LETTER_A <= b && b <= LETTER_Z {
        Some(b - LETTER_A)
    } else {
        None
    }
}

/// The highest state that `rep` names, which is the machine's halt state; 0
/// where `rep` names no state.
pub fn max_state(rep: &str) -> (max: u8)
    ensures
        max == max_state_of(rep.spec_bytes()),
        max <= STATE_LIMIT,
{
    let bytes = rep.as_bytes();
    let mut max: u8 = 0;
    let mut i: usize = 0;
    while i < bytes.len()
        invariant
            i <= bytes.len(),
            max == max_state_of(bytes@.take(i as int)),
        decreases bytes.len() - i,
    {
        proof {
            assert(bytes@.take(i + 1).drop_last() == bytes@.take(i as int));
        }
        if let Some(state) = state_of_byte(bytes[i]) {
            if state > max {
                max = state;
            }
        }
        i += 1;
    }
    proof {
        assert(bytes@.take(i as int) == bytes@);
        lemma_max_state_is_maximum(bytes@);
    }
    max
}

/// The highest symbol that `rep` names; 0, the blank, where `rep` names no
/// symbol.
pub fn max_symbol(rep: &str) -> (max: u8)
    ensures
        max == max_symbol_of(rep.spec_bytes()),
        max <= SYMBOL_LIMIT,
{
    let bytes = rep.as_bytes();
    let mut max: u8 = 0;
    let mut i: usize = 0;
    while i < bytes.len()
        invariant
            i <= bytes.len(),
            max == max_symbol_of(bytes@.take(i as int)),
        decreases bytes.len() - i,
    {
        proof {
            assert(bytes@.take(i + 1).drop_last() == bytes@.take(i as int));
        }
        if let Some(symbol) = symbol_of_byte(bytes[i]) {
            if symbol > max {
                max = symbol;
            }
        }
        i += 1;
    }
    proof {
        assert(bytes@.take(i as int) == bytes@);
        lemma_max_symbol_is_maximum(bytes@);
    }
    max
}

/// The number of the state that is written as the lowercase letter `letter`.
pub open spec fn state_number(letter: char) -> u8
    recommends
        'a' <= letter <= 'z',
{
    (letter as u8 - LETTER_A) as u8
}

/// The lowercase letter that stands for the state `num`.
pub open spec fn state_letter(num: u8) -> char
    recommends
        num <= STATE_LIMIT,
{
    (num + LETTER_A) as char
}

/// Numbers and letters of states correspond one to one: the letter of a
/// state's number is the state's letter, and the number of a state's letter is
/// the state's number.
pub proof fn lemma_state_letters_and_numbers(letter: char, num: u8)
    requires
        'a' <= letter <= 'z',
        num <= STATE_LIMIT,
    ensures
        state_number(letter) <= STATE_LIMIT,
        state_letter(state_number(letter)) == letter,
        'a' <= state_letter(num) <= 'z',
        state_number(state_letter(num)) == num,
{
}

/// The number of the state that is written as the lowercase letter `state`:
/// 0 for `'a'`, 25 for `'z'`.
pub fn state_to_num(state: char) -> (num: u8)
    requires
        'a' <= state <= 'z',
    ensures
        num == state_number(state),
        num <= STATE_LIMIT,
{
    state as u8 - LETTER_A
}

/// The lowercase letter that stands for the state `num`: `'a'` for 0, `'z'`
/// for 25.
pub fn num_to_state(num: u8) -> (state: char)
    requires
        num <= STATE_LIMIT,
    ensures
        state == state_letter(num),
        'a' <= state <= 'z',
{
    (num + LETTER_A) as char
}

} // verus!
