//! Lexical normal form of an encoding.
//!
//! Among the encodings that differ only in how their symbols and states are
//! labelled, and in the direction called `R`, one is picked as the normal one:
//! that in which the symbols first appear in ascending order without a gap, the
//! states likewise, and the first tape move written is `R`.

use crate::alphabet::{
    is_shift_byte, is_state_byte, is_symbol_byte, max_state_of, max_symbol_of, state_of_byte,
    state_value, symbol_of_byte, symbol_value, CAPITAL_A, CAPITAL_Z, DIGIT_ZERO, LETTER_A,
    STATE_LIMIT, SYMBOL_LIMIT,
};
use vstd::prelude::*;
use vstd::string::StringSliceAdditionalSpecFns;

verus! {

/// The letter `'R'`: the head moves right. Any other letter in its place moves
/// the head left.
pub const SHIFT_RIGHT: u8 = 0x52;

/// No byte of `s` is an uppercase letter.
pub open spec fn no_shift_in(s: Seq<u8>) -> bool {
    forall|j: int| 0 <= j < s.len() ==> !is_shift_byte(#[trigger] s[j])
}

/// The byte at position `i` of `s` is in order after the bytes before it:
/// a symbol exceeds the highest symbol named before it by at most one, a state
/// exceeds the highest state named before it by at most one, and an uppercase
/// letter with no uppercase letter before it is `R`.
pub open spec fn in_order_at(s: Seq<u8>, i: int) -> bool
    recommends
        0 <= i < s.len(),
{
    let before = s.take(i);
    &&& is_symbol_byte(s[i]) ==> symbol_value(s[i]) <= max_symbol_of(before) + 1
    &&& is_state_byte(s[i]) ==> state_value(s[i]) <= max_state_of(before) + 1
    &&& is_shift_byte(s[i]) && no_shift_in(before) ==> s[i] == SHIFT_RIGHT
}

/// `s` is in lexical normal form: every byte of it is in order.
pub open spec fn in_lexical_normal_form(s: Seq<u8>) -> bool {
    forall|i: int| 0 <= i < s.len() ==> #[trigger] in_order_at(s, i)
}

/// A prefix has no uppercase letter exactly if the prefix one shorter has none
/// and the byte added is none.
proof fn lemma_no_shift_in_next(s: Seq<u8>, i: int)
    requires
        0 <= i < s.len(),
    ensures
        no_shift_in(s.take(i + 1)) <==> no_shift_in(s.take(i)) && !is_shift_byte(s[i]),
{
    let shorter = s.take(i);
    let longer = s.take(i + 1);
    if no_shift_in(longer) {
        assert(longer[i] == s[i]);
        assert forall|j: int| 0 <= j < shorter.len() implies !is_shift_byte(
            #[trigger] shorter[j],
        ) by {
            assert(longer[j] == shorter[j]);
        }
    }
    if no_shift_in(shorter) && !is_shift_byte(s[i]) {
        assert forall|j: int| 0 <= j < longer.len() implies !is_shift_byte(#[trigger] longer[j]) by {
            if j < i {
                assert(shorter[j] == longer[j]);
            }
        }
    }
}

/// Whether `rep` is in lexical normal form. The bytes are read once from left
/// to right; the first byte out of order settles the answer.
pub fn is_lexical_normal_form(rep: &str) -> (accepted: bool)
    ensures
        accepted == in_lexical_normal_form(rep.spec_bytes()),
{
    let bytes = rep.as_bytes();
    let mut last_symbol: u8 = 0;
    let mut last_state: u8 = 0;
    let mut seen_shift: bool = false;
    let mut i: usize = 0;
    while i < bytes.len()
        invariant
            bytes@ == rep.spec_bytes(),
            i <= bytes.len(),
            forall|j: int| 0 <= j < i ==> #[trigger] in_order_at(bytes@, j),
            last_symbol == max_symbol_of(bytes@.take(i as int)),
            last_state == max_state_of(bytes@.take(i as int)),
            seen_shift == !no_shift_in(bytes@.take(i as int)),
            last_symbol <= SYMBOL_LIMIT,
            last_state <= STATE_LIMIT,
        decreases bytes.len() - i,
    {
        let b = bytes[i];
        proof {
            assert(bytes@.take(i + 1).drop_last() == bytes@.take(i as int));
            lemma_no_shift_in_next(bytes@, i as int);
        }
        if let Some(symbol) = symbol_of_byte(b) {
            if symbol > last_symbol + 1 {
                assert(!in_order_at(bytes@, i as int));
                return false;
            } else if symbol == last_symbol + 1 {
                last_symbol += 1;
            }
        } else if CAPITAL_A <= b && b <= CAPITAL_Z {
            if !seen_shift {
                if b != SHIFT_RIGHT {
                    assert(!in_order_at(bytes@, i as int));
                    return false;
                }
                seen_shift = true;
            }
        } else if let Some(state) = state_of_byte(b) {
            if state > last_state + 1 {
                assert(!in_order_at(bytes@, i as int));
                return false;
            } else if state == last_state + 1 {
                last_state += 1;
            }
        }
        assert(in_order_at(bytes@, i as int));
        i += 1;
    }
    true
}

/// In an encoding in lexical normal form, a prefix that does not hold the
/// digit of the symbol `low` names only symbols below `low`.
proof fn lemma_symbols_before_first(s: Seq<u8>, n: int, low: u8)
    requires
        in_lexical_normal_form(s),
        0 <= n <= s.len(),
        1 <= low,
        forall|j: int| 0 <= j < n ==> #[trigger] s[j] != DIGIT_ZERO + low,
    ensures
        max_symbol_of(s.take(n)) < low,
    decreases n,
{
    if n > 0 {
        lemma_symbols_before_first(s, n - 1, low);
        assert(s.take(n).drop_last() == s.take(n - 1));
        assert(in_order_at(s, n - 1));
        assert(s.take(n).last() == s[n - 1]);
    }
}

/// In an encoding in lexical normal form, a prefix that does not hold the
/// letter of the state `low` names only states below `low`.
proof fn lemma_states_before_first(s: Seq<u8>, n: int, low: u8)
    requires
        in_lexical_normal_form(s),
        0 <= n <= s.len(),
        1 <= low,
        forall|j: int| 0 <= j < n ==> #[trigger] s[j] != LETTER_A + low,
    ensures
        max_state_of(s.take(n)) < low,
    decreases n,
{
    if n > 0 {
        lemma_states_before_first(s, n - 1, low);
        assert(s.take(n).drop_last() == s.take(n - 1));
        assert(in_order_at(s, n - 1));
        assert(s.take(n).last() == s[n - 1]);
    }
}

/// The first uppercase letter of an encoding in lexical normal form is `R`:
/// a prefix that holds no `R` holds no uppercase letter at all.
proof fn lemma_no_shift_before_first_right(s: Seq<u8>, n: int)
    requires
        in_lexical_normal_form(s),
        0 <= n <= s.len(),
        forall|j: int| 0 <= j < n ==> #[trigger] s[j] != SHIFT_RIGHT,
    ensures
        no_shift_in(s.take(n)),
    decreases n,
{
    if n > 0 {
        lemma_no_shift_before_first_right(s, n - 1);
        assert(in_order_at(s, n - 1));
        lemma_no_shift_in_next(s, n - 1);
    }
}

/// A symbol that appears before the symbol one below it has appeared is
/// rejected: an encoding with the digit of `symbol` at `i`, and no digit of
/// `symbol - 1` before `i`, is not in lexical normal form. So `'2'` before any
/// `'1'` is rejected.
pub proof fn lemma_skipped_symbol_rejected(s: Seq<u8>, i: int, symbol: u8)
    requires
        0 <= i < s.len(),
        2 <= symbol <= 9,
        s[i] == DIGIT_ZERO + symbol,
        forall|j: int| 0 <= j < i ==> #[trigger] s[j] != DIGIT_ZERO + symbol - 1,
    ensures
        !in_lexical_normal_form(s),
{
    if in_lexical_normal_form(s) {
        lemma_symbols_before_first(s, i, (symbol - 1) as u8);
        assert(in_order_at(s, i));
    }
}

/// A state that appears before the state one below it has appeared is
/// rejected: an encoding with the letter of `state` at `i`, and no letter of
/// `state - 1` before `i`, is not in lexical normal form. So `'c'` before any
/// `'b'` is rejected.
pub proof fn lemma_skipped_state_rejected(s: Seq<u8>, i: int, state: u8)
    requires
        0 <= i < s.len(),
        2 <= state <= 25,
        s[i] == LETTER_A + state,
        forall|j: int| 0 <= j < i ==> #[trigger] s[j] != LETTER_A + state - 1,
    ensures
        !in_lexical_normal_form(s),
{
    if in_lexical_normal_form(s) {
        lemma_states_before_first(s, i, (state - 1) as u8);
        assert(in_order_at(s, i));
    }
}

/// An uppercase letter other than `R` that appears before any `R` is rejected.
/// So `'L'` before any `'R'` is rejected.
pub proof fn lemma_shift_before_right_rejected(s: Seq<u8>, i: int)
    requires
        0 <= i < s.len(),
        is_shift_byte(s[i]),
        s[i] != SHIFT_RIGHT,
        forall|j: int| 0 <= j < i ==> #[trigger] s[j] != SHIFT_RIGHT,
    ensures
        !in_lexical_normal_form(s),
{
    if in_lexical_normal_form(s) {
        lemma_no_shift_before_first_right(s, i);
        assert(in_order_at(s, i));
    }
}

/// An encoding that names no symbol but the blank and no state but the initial
/// one, and whose every uppercase letter is `R`, is in lexical normal form.
pub proof fn lemma_single_symbol_state_accepted(s: Seq<u8>)
    requires
        forall|i: int| 0 <= i < s.len() && is_symbol_byte(#[trigger] s[i]) ==> s[i] == DIGIT_ZERO,
        forall|i: int| 0 <= i < s.len() && is_state_byte(#[trigger] s[i]) ==> s[i] == LETTER_A,
        forall|i: int| 0 <= i < s.len() && is_shift_byte(#[trigger] s[i]) ==> s[i] == SHIFT_RIGHT,
    ensures
        in_lexical_normal_form(s),
{
    assert forall|i: int| 0 <= i < s.len() implies #[trigger] in_order_at(s, i) by {}
}

} // verus!
