use vstd::prelude::*;
use crate::codec::chars_of;
use crate::store::TodoError;

verus! {

/// `c` is one of the ASCII digits `0` to `9`.
pub open spec fn is_digit(c: char) -> bool {
    '0' <= c <= '9'
}

/// `s` is a non-empty run of ASCII digits.
pub open spec fn is_digits(s: Seq<char>) -> bool {
    s.len() > 0 && forall|i: int| 0 <= i < s.len() ==> is_digit(s[i])
}

/// The number that a run of decimal digits writes.
pub open spec fn decimal_value(s: Seq<char>) -> int
    decreases s.len(),
{
    if s.len() == 0 {
        0
    } else {
        decimal_value(s.drop_last()) * 10 + (s.last() as int - '0' as int)
    }
}

/// The digits of a typed number: what follows one leading `+`, if any.
pub open spec fn numeral(s: Seq<char>) -> Seq<char> {
    if s.len() > 0 && s[0] == '+' {
        s.drop_first()
    } else {
        s
    }
}

/// The 0-based index that a typed todo number names, in a list of `count`
/// todos. Numbers are shown from 1. Text that is no number of `usize` is
/// invalid; a number that names no todo is out of range.
pub open spec fn index_from_input(s: Seq<char>, count: int) -> Result<int, TodoError> {
    let d = numeral(s);
    if !is_digits(d) || decimal_value(d) > usize::MAX {
        Err(TodoError::InvalidUserInput)
    } else if decimal_value(d) == 0 || decimal_value(d) > count {
        Err(TodoError::IndexOutOfRange)
    } else {
        Ok(decimal_value(d) - 1)
    }
}

proof fn lemma_decimal_prefix(s: Seq<char>, j: int)
    requires
        0 <= j <= s.len(),
        forall|i: int| 0 <= i < s.len() ==> is_digit(s[i]),
    ensures
        0 <= decimal_value(s.take(j)) <= decimal_value(s),
    decreases s.len(),
{
    if s.len() > 0 {
        lemma_decimal_prefix(s.drop_last(), if j == s.len() { j - 1 } else { j });
        if j < s.len() {
            assert(s.drop_last().take(j) =~= s.take(j));
        } else {
            assert(s.take(j) =~= s);
        }
    } else {
        assert(s.take(j) =~= s);
    }
}

/// Reads the todo number that a user typed (counted from 1) as a 0-based
/// index into a list of `max_index` todos.
pub fn get_todo_index_from_user(input: &str, max_index: usize) -> (r: Result<usize, TodoError>)
    ensures
        r matches Ok(i) ==> index_from_input(input@, max_index as int) == Ok::<int, TodoError>(i as int),
        r matches Err(e) ==> index_from_input(input@, max_index as int) == Err::<int, TodoError>(e),
{
    let chars = chars_of(input);
    let mut k: usize = 0;
    if chars.len() > 0 && chars[0] == '+' {
        k = 1;
    }
    let ghost d = numeral(input@);
    assert(d =~= chars@.skip(k as int));
    if k == chars.len() {
        return Err(TodoError::InvalidUserInput);
    }
    let mut value: usize = 0;
    while k < chars.len()
        invariant
            chars@ == input@,
            d == numeral(input@),
            d =~= chars@.skip((chars.len() - d.len()) as int),
            chars.len() - d.len() <= k <= chars.len(),
            forall|i: int| chars.len() - d.len() <= i < k ==> is_digit(chars@[i]),
            value == decimal_value(d.take(k - (chars.len() - d.len()))),
        decreases chars.len() - k,
    {
        let ghost off = (chars.len() - d.len()) as int;
        let c = chars[k];
        if !('0' <= c && c <= '9') {
            assert(!is_digit(d[k - off]));
            return Err(TodoError::InvalidUserInput);
        }
        let digit = (c as u32 - '0' as u32) as usize;
        proof {
            assert(d.take(k + 1 - off).drop_last() =~= d.take(k - off));
            assert(d.take(k + 1 - off).last() == c);
        }
        if value > (usize::MAX - digit) / 10 {
            proof {
                assert(decimal_value(d.take(k + 1 - off)) > usize::MAX) by (nonlinear_arith)
                    requires
                        decimal_value(d.take(k + 1 - off)) == value * 10 + digit,
                        value > (usize::MAX - digit) / 10,
                        digit <= 9,
                ;
                if is_digits(d) {
                    lemma_decimal_prefix(d, k + 1 - off);
                }
            }
            return Err(TodoError::InvalidUserInput);
        }
        assert(value * 10 + digit <= usize::MAX) by (nonlinear_arith)
            requires
                value <= (usize::MAX - digit) / 10,
                digit <= 9,
        ;
        value = value * 10 + digit;
        k += 1;
    }
    assert(d.take(d.len() as int) =~= d);
    if value == 0 || value > max_index {
        Err(TodoError::IndexOutOfRange)
    } else {
        Ok(value - 1)
    }
}

/// The control sequence that clears a terminal screen: escape, then `c`.
pub fn clear_screen() -> (r: &'static str)
    ensures
        r@ == seq!['\u{1b}', 'c'],
{
    proof {
        reveal_strlit("\u{1b}c");
    }
    let r = "\u{1b}c";
    assert(r@ =~= seq!['\u{1b}', 'c']);
    r
}

} // verus!
