//! Terminal coloring: text wrapped in an ANSI dimming sequence, or left as
//! it is.

use vstd::prelude::*;

verus! {

#[allow(dead_code)]
pub enum Color {
    Dim,
    Normal,
}

/// The text `fill` produces: dimmed text sits between the ANSI dim escape
/// and the reset escape; normal text is unchanged.
pub open spec fn spec_fill(c: Color, text: Seq<char>) -> Seq<char> {
    match c {
        Color::Dim => "\x1B[2m"@ + text + "\x1B[0m"@,
        Color::Normal => text,
    }
}

impl Color {
    pub fn fill(&self, text: &str) -> (r: String)
        ensures
            r@ == spec_fill(*self, text@),
    {
        match *self {
            Color::Dim => {
                let mut r = "\x1B[2m".to_owned();
                r.append(text);
                r.append("\x1B[0m");
                r
            },
            Color::Normal => text.to_owned(),
        }
    }
}

} // verus!
