//! Calendar date and time values as read from the real-time clock.  The
//! hardware access itself lives outside this crate; these are the values
//! and their formatting.

use vstd::prelude::*;
use crate::strutil::{append_u64_pad, dec_str_pad, push_char};

verus! {

/// One calendar date and time.
#[derive(Debug, Clone, Copy, PartialEq, Eq, Structural)]
pub struct DateTime {
    pub second: u8,
    pub minute: u8,
    pub hour: u8,
    pub day: u8,
    pub month: u8,
    pub year: u16,
}

/// The display form of a date and time:
/// `YYYY-MM-DD HH:MM:SS`, each field zero-padded.
pub open spec fn datetime_str(dt: DateTime) -> Seq<char> {
    dec_str_pad(dt.year as nat, 4) + seq!['-'] + dec_str_pad(dt.month as nat, 2)
        + seq!['-'] + dec_str_pad(dt.day as nat, 2) + seq![' ']
        + dec_str_pad(dt.hour as nat, 2) + seq![':'] + dec_str_pad(dt.minute as nat, 2)
        + seq![':'] + dec_str_pad(dt.second as nat, 2)
}

impl DateTime {
    /// The epoch default: the first moment of the year 2000.
    pub fn new() -> (r: DateTime)
        ensures
            r == (DateTime { second: 0, minute: 0, hour: 0, day: 1, month: 1, year: 2000 }),
    {
        DateTime { second: 0, minute: 0, hour: 0, day: 1, month: 1, year: 2000 }
    }

    /// Formats the date and time as `YYYY-MM-DD HH:MM:SS`.
    pub fn format(&self) -> (r: String)
        ensures
            r@ == datetime_str(*self),
    {
        let mut s = String::new();
        append_u64_pad(&mut s, self.year as u64, 4);
        push_char(&mut s, '-');
        append_u64_pad(&mut s, self.month as u64, 2);
        push_char(&mut s, '-');
        append_u64_pad(&mut s, self.day as u64, 2);
        push_char(&mut s, ' ');
        append_u64_pad(&mut s, self.hour as u64, 2);
        push_char(&mut s, ':');
        append_u64_pad(&mut s, self.minute as u64, 2);
        push_char(&mut s, ':');
        append_u64_pad(&mut s, self.second as u64, 2);
        proof {
            assert(s@ =~= datetime_str(*self));
        }
        s
    }
}

} // verus!
