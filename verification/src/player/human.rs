//! The human player: it reads a line of text and parses it as a 1-based
//! cell selection. The parsing is the verified part; where the text comes
//! from is the input implementation's business.

use vstd::prelude::*;

use crate::board::Board;
use crate::player::Player;
use crate::script::{spec_text, Script};
use crate::token::Token;
use crate::ui::input::Input;

verus! {

#[derive(Debug, PartialEq)]
pub struct Human<I> {
    pub token: Token,
    pub input: I,
}

impl<I: Input> Human<I> {
    pub fn new(token: Token, input: I) -> (r: Human<I>)
        ensures
            r.token == token,
            r.input == input,
    {
        Human { token, input }
    }
}

impl<I: Input> Player for Human<I> {
    open spec fn token_spec(&self) -> Token {
        self.token
    }

    open spec fn move_req(&self, board: &Board) -> bool {
        true
    }

    /// What a human proposes depends on the text that was read: nothing
    /// more is promised.
    open spec fn move_ens(&self, board: &Board, r: Result<usize, String>) -> bool {
        true
    }

    fn get_token(&self) -> (r: &Token) {
        &self.token
    }

    /// Reads one line and parses it as a selection. The selection may name
    /// an occupied cell: applying it is the board's business, and a no-op.
    fn get_move(&mut self, board: &Board) -> (r: Result<usize, String>) {
        let selection = self.input.read_line();
        let length = board.get_length();
        parse_selection(selection.as_str(), length)
    }
}

/// A whitespace character, as line input carries them.
pub open spec fn is_space(c: char) -> bool {
    c == ' ' || c == '\t' || c == '\n' || c == '\r' || c == '\u{0b}' || c == '\u{0c}'
}

/// A decimal digit.
pub open spec fn is_digit(c: char) -> bool {
    48 <= c as u32 <= 57
}

pub open spec fn digit_val(c: char) -> int {
    c as u32 - 48
}

pub open spec fn trim_front(cs: Seq<char>) -> Seq<char>
    decreases cs.len(),
{
    if cs.len() > 0 && is_space(cs[0]) {
        trim_front(cs.drop_first())
    } else {
        cs
    }
}

pub open spec fn trim_back(cs: Seq<char>) -> Seq<char>
    decreases cs.len(),
{
    if cs.len() > 0 && is_space(cs.last()) {
        trim_back(cs.drop_last())
    } else {
        cs
    }
}

/// The text with leading and trailing whitespace removed.
pub open spec fn spec_trim(cs: Seq<char>) -> Seq<char> {
    trim_back(trim_front(cs))
}

/// The digits of a numeral: what remains after an optional leading plus sign.
pub open spec fn digits_of(cs: Seq<char>) -> Seq<char> {
    if cs.len() > 0 && cs[0] == '+' {
        cs.drop_first()
    } else {
        cs
    }
}

pub open spec fn all_digits(cs: Seq<char>) -> bool {
    forall|i: int| 0 <= i < cs.len() ==> is_digit(#[trigger] cs[i])
}

/// The value of a digit string, most significant digit first.
pub open spec fn digits_value(cs: Seq<char>) -> int
    decreases cs.len(),
{
    if cs.len() == 0 {
        0
    } else {
        digits_value(cs.drop_last()) * 10 + digit_val(cs.last())
    }
}

/// A selection is valid when the trimmed text is a decimal numeral (an
/// optional plus sign, then at least one digit) whose value lies in
/// `1..=length`.
pub open spec fn spec_valid_selection(text: Seq<char>, length: int) -> bool {
    let d = digits_of(spec_trim(text));
    d.len() > 0 && all_digits(d) && 1 <= digits_value(d) <= length
}

/// The 0-based index a valid selection names.
pub open spec fn spec_selection_index(text: Seq<char>) -> int {
    digits_value(digits_of(spec_trim(text))) - 1
}

proof fn lemma_digits_value_nonneg(cs: Seq<char>)
    requires
        all_digits(cs),
    ensures
        digits_value(cs) >= 0,
    decreases cs.len(),
{
    if cs.len() > 0 {
        assert(all_digits(cs.drop_last()));
        lemma_digits_value_nonneg(cs.drop_last());
    }
}

/// Appending digits never shrinks the value: a prefix is worth no more than
/// the whole.
proof fn lemma_digits_value_prefix(cs: Seq<char>, m: int)
    requires
        all_digits(cs),
        0 <= m <= cs.len(),
    ensures
        digits_value(cs.take(m)) <= digits_value(cs),
    decreases cs.len(),
{
    if m < cs.len() {
        assert(all_digits(cs.drop_last()));
        lemma_digits_value_prefix(cs.drop_last(), m);
        assert(cs.drop_last().take(m) =~= cs.take(m));
        lemma_digits_value_nonneg(cs.drop_last());
    } else {
        assert(cs.take(m) =~= cs);
    }
}

fn is_space_char(c: char) -> (r: bool)
    ensures
        r == is_space(c),
{
    c == ' ' || c == '\t' || c == '\n' || c == '\r' || c == '\u{0b}' || c == '\u{0c}'
}

fn is_digit_char(c: char) -> (r: bool)
    ensures
        r == is_digit(c),
{
    let u = c as u32;
    48 <= u && u <= 57
}

fn invalid_selection() -> (r: String)
    ensures
        r@ == spec_text(Script::InvalidSelection),
{
    Script::InvalidSelection.to_str().to_owned()
}

/// Parse one line of text as a 1-based selection into `1..=length`: `Ok`
/// carries the 0-based index exactly when the trimmed text is a numeral in
/// range, and anything else is an invalid selection.
pub fn parse_selection(text: &str, length: usize) -> (r: Result<usize, String>)
    ensures
        r is Ok <==> spec_valid_selection(text@, length as int),
        r matches Ok(m) ==> m as int == spec_selection_index(text@) && m < length,
        r matches Err(e) ==> e@ == spec_text(Script::InvalidSelection),
{
    let n = text.unicode_len();
    let ghost cs = text@;
    proof {
        assert(cs.skip(0) =~= cs);
    }

    let mut start: usize = 0;
    while start < n && is_space_char(text.get_char(start))
        invariant
            n == cs.len(),
            cs == text@,
            start <= n,
            trim_front(cs) == trim_front(cs.skip(start as int)),
        decreases n - start,
    {
        proof {
            assert(cs.skip(start as int).drop_first() =~= cs.skip(start as int + 1));
            assert(cs.skip(start as int)[0] == cs[start as int]);
        }
        start += 1;
    }
    proof {
        assert(cs.skip(start as int).len() > 0 ==> cs.skip(start as int)[0] == cs[start as int]);
        assert(trim_front(cs) == cs.skip(start as int));
    }

    let mut end: usize = n;
    while end > start && is_space_char(text.get_char(end - 1))
        invariant
            n == cs.len(),
            cs == text@,
            start <= end <= n,
            trim_front(cs) == cs.skip(start as int),
            trim_back(cs.skip(start as int)) == trim_back(
                cs.subrange(start as int, end as int),
            ),
        decreases end,
    {
        proof {
            let seg = cs.subrange(start as int, end as int);
            assert(seg.last() == cs[end - 1]);
            assert(seg.drop_last() =~= cs.subrange(start as int, end as int - 1));
        }
        end -= 1;
    }
    let ghost trimmed = cs.subrange(start as int, end as int);
    proof {
        assert(trimmed.len() > 0 ==> trimmed.last() == cs[end - 1]);
        assert(trim_back(trimmed) == trimmed);
        assert(spec_trim(cs) == trimmed);
    }

    let mut idx = start;
    if idx < end && text.get_char(idx) == '+' {
        idx += 1;
    }
    let ghost digits = cs.subrange(idx as int, end as int);
    proof {
        assert(trimmed.len() > 0 ==> trimmed[0] == cs[start as int]);
        assert(digits_of(trimmed) =~= digits);
    }

    if idx == end {
        return Err(invalid_selection());
    }

    let mut value: usize = 0;
    let mut i = idx;
    while i < end
        invariant
            n == cs.len(),
            cs == text@,
            idx <= i <= end <= n,
            digits == cs.subrange(idx as int, end as int),
            digits == digits_of(spec_trim(cs)),
            digits.len() > 0,
            all_digits(digits.take(i - idx)),
            value as int == digits_value(digits.take(i - idx)),
        decreases end - i,
    {
        let c = text.get_char(i);
        proof {
            assert(digits.take(i - idx + 1).drop_last() =~= digits.take(i - idx));
            assert(digits.take(i - idx + 1).last() == cs[i as int]);
        }
        if !is_digit_char(c) {
            proof {
                assert(digits[i - idx] == cs[i as int]);
                assert(!all_digits(digits));
            }
            return Err(invalid_selection());
        }
        let d = (c as u32 - 48) as usize;
        let overflowed: bool;
        match value.checked_mul(10) {
            Some(v10) => {
                match v10.checked_add(d) {
                    Some(v) => {
                        value = v;
                        overflowed = false;
                    },
                    None => {
                        overflowed = true;
                    },
                }
            },
            None => {
                overflowed = true;
            },
        }
        if overflowed {
            proof {
                if all_digits(digits) {
                    lemma_digits_value_prefix(digits, i - idx + 1);
                    assert(digits_value(digits.take(i - idx + 1)) > usize::MAX);
                }
            }
            return Err(invalid_selection());
        }
        i += 1;
    }
    proof {
        assert(digits.take(end - idx) =~= digits);
    }

    if 1 <= value && value <= length {
        Ok(value - 1)
    } else {
        Err(invalid_selection())
    }
}

} // verus!
