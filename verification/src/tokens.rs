//! Rule tokens: the maximal runs of bytes of an encoding that hold no ASCII
//! whitespace, in the order in which they are written.

use vstd::prelude::*;

verus! {

/// `b` is ASCII whitespace: a space, a tab, a line feed, a form feed or a
/// carriage return.
pub open spec fn is_space_byte(b: u8) -> bool {
    b == 0x20 || b == 0x09 || b == 0x0a || b == 0x0c || b == 0x0d
}

/// The first position of `s` at or after `from` that holds no whitespace, and
/// the length of `s` where there is none.
pub open spec fn token_start(s: Seq<u8>, from: int) -> int
    decreases s.len() - from,
{
    if from < 0 || from >= s.len() {
        s.len() as int
    } else if !is_space_byte(s[from]) {
        from
    } else {
        token_start(s, from + 1)
    }
}

/// The first position of `s` at or after `from` that holds whitespace, and the
/// length of `s` where there is none.
pub open spec fn token_end(s: Seq<u8>, from: int) -> int
    decreases s.len() - from,
{
    if from < 0 || from >= s.len() {
        s.len() as int
    } else if is_space_byte(s[from]) {
        from
    } else {
        token_end(s, from + 1)
    }
}

/// The token of `s` that comes after `n` other tokens, reading on from position
/// `from`; `None` where fewer than `n + 1` tokens begin at or after `from`.
pub open spec fn nth_token_from(s: Seq<u8>, from: int, n: nat) -> Option<Seq<u8>>
    decreases n,
{
    let start = token_start(s, from);
    let end = token_end(s, start);
    if start >= s.len() {
        None
    } else if n == 0 {
        Some(s.subrange(start, end))
    } else {
        nth_token_from(s, end, (n - 1) as nat)
    }
}

/// The token number `n` of `s`, counting from 0; `None` where `s` holds no
/// more than `n` tokens.
pub open spec fn nth_token(s: Seq<u8>, n: nat) -> Option<Seq<u8>> {
    nth_token_from(s, 0, n)
}

/// Only whitespace lies between `from` and the start of the next token, and
/// that start, unless it is the end of `s`, holds no whitespace.
pub proof fn lemma_token_start(s: Seq<u8>, from: int)
    requires
        0 <= from <= s.len(),
    ensures
        from <= token_start(s, from) <= s.len(),
        forall|k: int| from <= k < token_start(s, from) ==> is_space_byte(#[trigger] s[k]),
        token_start(s, from) < s.len() ==> !is_space_byte(s[token_start(s, from)]),
    decreases s.len() - from,
{
    if from < s.len() && is_space_byte(s[from]) {
        lemma_token_start(s, from + 1);
    }
}

/// No whitespace lies between `from` and the end of the token that holds
/// `from`, and that end, unless it is the end of `s`, holds whitespace.
pub proof fn lemma_token_end(s: Seq<u8>, from: int)
    requires
        0 <= from <= s.len(),
    ensures
        from <= token_end(s, from) <= s.len(),
        forall|k: int| from <= k < token_end(s, from) ==> !is_space_byte(#[trigger] s[k]),
        token_end(s, from) < s.len() ==> is_space_byte(s[token_end(s, from)]),
        from < s.len() && !is_space_byte(s[from]) ==> from < token_end(s, from),
    decreases s.len() - from,
{
    if from < s.len() && !is_space_byte(s[from]) {
        lemma_token_end(s, from + 1);
    }
}

/// A token is a maximal run of bytes that are no whitespace: it is a piece of
/// the sequence that is not empty and holds no whitespace, whitespace or the
/// position `from` comes right before it, and whitespace or the end of the
/// sequence right after it.
pub proof fn lemma_token_is_maximal_run(s: Seq<u8>, from: int, n: nat)
    requires
        0 <= from <= s.len(),
    ensures
        nth_token_from(s, from, n) matches Some(token) ==> exists|start: int, end: int|
            {
                &&& from <= start < end <= s.len()
                &&& token == #[trigger] s.subrange(start, end)
                &&& forall|k: int| start <= k < end ==> !is_space_byte(#[trigger] s[k])
                &&& start == from || is_space_byte(s[start - 1])
                &&& end == s.len() || is_space_byte(s[end])
            },
    decreases n,
{
    let start = token_start(s, from);
    let end = token_end(s, start);
    lemma_token_start(s, from);
    lemma_token_end(s, start);
    if start < s.len() {
        if n == 0 {
            assert(nth_token_from(s, from, n) == Some(s.subrange(start, end)));
            if start > from {
                assert(is_space_byte(s[start - 1]));
            }
        } else {
            lemma_token_is_maximal_run(s, end, (n - 1) as nat);
            if nth_token_from(s, end, (n - 1) as nat) is Some {
                let token = nth_token_from(s, end, (n - 1) as nat)->0;
                let (a, b) = choose|a: int, b: int|
                    {
                        &&& end <= a < b <= s.len()
                        &&& token == #[trigger] s.subrange(a, b)
                        &&& forall|k: int| a <= k < b ==> !is_space_byte(#[trigger] s[k])
                        &&& a == end || is_space_byte(s[a - 1])
                        &&& b == s.len() || is_space_byte(s[b])
                    };
                assert(!is_space_byte(s[a]));
                assert(token == s.subrange(a, b));
            }
        }
    }
}

/// `b` is ASCII whitespace.
pub fn is_space(b: u8) -> (space: bool)
    ensures
        space == is_space_byte(b),
{
    b == 0x20 || b == 0x09 || b == 0x0a || b == 0x0c || b == 0x0d
}

/// The position at which the next token of `bytes` begins, reading on from
/// `from`; the length of `bytes` where only whitespace is left.
pub(crate) fn skip_spaces(bytes: &[u8], from: usize) -> (start: usize)
    requires
        from <= bytes.len(),
    ensures
        start == token_start(bytes@, from as int),
        from <= start <= bytes.len(),
{
    let mut i: usize = from;
    while i < bytes.len() && is_space(bytes[i])
        invariant
            from <= i <= bytes.len(),
            token_start(bytes@, from as int) == token_start(bytes@, i as int),
        decreases bytes.len() - i,
    {
        i += 1;
    }
    i
}

/// The position at which the token of `bytes` that holds `from` ends.
pub(crate) fn skip_token(bytes: &[u8], from: usize) -> (end: usize)
    requires
        from <= bytes.len(),
    ensures
        end == token_end(bytes@, from as int),
        from <= end <= bytes.len(),
{
    let mut i: usize = from;
    while i < bytes.len() && !is_space(bytes[i])
        invariant
            from <= i <= bytes.len(),
            token_end(bytes@, from as int) == token_end(bytes@, i as int),
        decreases bytes.len() - i,
    {
        i += 1;
    }
    i
}

} // verus!
