//! The clock pill.

use vstd::prelude::*;
use vstd::string::*;

use crate::text;

verus! {

/// The time shown, as hours and minutes.
#[derive(Debug)]
pub struct ClockModule {
    pub text: String,
}

/// How many seconds remain until the minute changes, at least one: a leap
/// second counts past sixty.
pub fn secs_until_next_min(second: u32) -> (r: u64)
    ensures
        r == (if second < 60 {
            60 - second
        } else {
            1int
        }),
{
    if second < 60 {
        60 - second as u64
    } else {
        1
    }
}

impl ClockModule {
    /// A clock that shows `text`.
    pub fn new(text: String) -> (r: Self)
        ensures
            r.text == text,
    {
        ClockModule { text }
    }

    /// Takes the time and returns whether the pill has to be drawn again.
    pub fn update(&mut self, text: String) -> (changed: bool)
        ensures
            final(self).text@ == text@,
            changed == (old(self).text@ != text@),
    {
        if !text::str_eq(self.text.as_str(), text.as_str()) {
            self.text = text;
            true
        } else {
            false
        }
    }
}

} // verus!
