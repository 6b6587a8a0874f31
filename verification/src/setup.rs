//! The compute half of game setup: parsing a mode selection out of one line
//! of text. Prompting for the line, and wiring the chosen players up, is the
//! caller's business.

use vstd::prelude::*;

use crate::player::human::{all_digits, digits_of, digits_value, spec_trim};

verus! {

/// The number of selectable game modes.
pub const MODE_COUNT: u32 = 4;

/// A valid mode selection: the trimmed text is a decimal numeral (an
/// optional plus sign, then at least one digit) naming one of the modes.
pub open spec fn spec_valid_mode(text: Seq<char>) -> bool {
    let d = digits_of(spec_trim(text));
    d.len() > 0 && all_digits(d) && 1 <= digits_value(d) <= MODE_COUNT
}

/// The mode a valid selection names.
pub open spec fn spec_mode_value(text: Seq<char>) -> int {
    digits_value(digits_of(spec_trim(text)))
}

/// Parse one line of text as a game-mode selection: `Some` carries the mode
/// number exactly when the trimmed text names one.
pub fn parse_mode_selection(text: &str) -> (r: Option<u32>)
    ensures
        r is Some <==> spec_valid_mode(text@),
        r matches Some(m) ==> m as int == spec_mode_value(text@) && 1 <= m <= MODE_COUNT,
{
    match crate::player::human::parse_selection(text, MODE_COUNT as usize) {
        Ok(m) => Some((m + 1) as u32),
        Err(_) => None,
    }
}

} // verus!
