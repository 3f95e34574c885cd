//! The elapsed-time counter: seconds with 60-based carry into minutes and
//! then hours, advanced by an external one-second tick.

use vstd::prelude::*;
use vstd::string::StringExecFns;

use crate::text::{dec_u32, u32_text};

verus! {

/// The elapsed time, split into hours, minutes and seconds.
#[derive(Debug, Clone, Copy, PartialEq, Eq, Structural)]
pub struct Time {
    pub hours: u8,
    pub minutes: u8,
    pub seconds: u8,
}

impl Time {
    /// A well-formed clock: seconds and minutes below 60.
    pub open spec fn wf(&self) -> bool {
        self.seconds < 60 && self.minutes < 60
    }

    /// The clock reading as one number of seconds.
    pub open spec fn total_seconds(&self) -> int {
        self.hours as int * 3600 + self.minutes as int * 60 + self.seconds as int
    }

    /// The zero reading.
    pub open spec fn is_zero(&self) -> bool {
        self.hours == 0 && self.minutes == 0 && self.seconds == 0
    }

    /// Advances the clock by one second, carrying seconds into minutes and
    /// minutes into hours.  At the largest representable reading the clock
    /// stays put instead of overflowing.
    pub fn tick(&mut self)
        requires
            old(self).wf(),
        ensures
            final(self).wf(),
            old(self).total_seconds() < 255 * 3600 + 59 * 60 + 59 ==> final(self).total_seconds()
                == old(self).total_seconds() + 1,
            old(self).total_seconds() == 255 * 3600 + 59 * 60 + 59 ==> *final(self) == *old(self),
    {
        if self.hours == 255 && self.minutes == 59 && self.seconds == 59 {
            return ;
        }
        self.seconds = self.seconds + 1;
        if self.seconds >= 60 {
            self.minutes = self.minutes + 1;
            self.seconds = 0;
        }
        if self.minutes >= 60 {
            self.hours = self.hours + 1;
            self.minutes = 0;
            self.seconds = 0;
        }
    }

    /// The clock reading as `hours:minutes:seconds`, each part in decimal.
    pub fn current(&self) -> (s: String)
        ensures
            s@ == dec_u32(self.hours as nat) + seq![':'] + dec_u32(self.minutes as nat) + seq![':']
                + dec_u32(self.seconds as nat),
    {
        let colon = ":";
        proof {
            reveal_strlit(":");
            assert(colon@ =~= seq![':']);
        }
        let mut out = u32_text(self.hours as u32);
        out.append(colon);
        let mins = u32_text(self.minutes as u32);
        out.append(mins.as_str());
        out.append(colon);
        let secs = u32_text(self.seconds as u32);
        out.append(secs.as_str());
        proof {
            assert(out@ =~= dec_u32(self.hours as nat) + seq![':'] + dec_u32(self.minutes as nat)
                + seq![':'] + dec_u32(self.seconds as nat));
        }
        out
    }
}

} // verus!
