//! Normalized decomposition of a cumulative duration into hours, minutes and
//! seconds, and its fixed-width rendering for columnar display.

use vstd::prelude::*;
use vstd::string::StringExecFns;

use crate::render::{padded_decimal, push_decimal_width2, push_decimal_width3};

verus! {

/// A duration broken down as `hours:minutes:seconds` with minutes and seconds
/// normalized below sixty.  Hours are unbounded.
pub struct Runtime {
    pub hours: u64,
    pub minutes: u64,
    pub seconds: u64,
}

impl Runtime {
    /// Normalization invariant of the decomposition.
    pub open spec fn wf(self) -> bool {
        self.minutes < 60 && self.seconds < 60
    }

    /// The duration the decomposition stands for, in seconds.
    pub open spec fn total(self) -> int {
        self.hours * 3600 + self.minutes * 60 + self.seconds
    }

    /// The fixed-width rendering: hours padded to three digits, minutes and
    /// seconds to two, separated by single spaces.
    pub open spec fn rendered(self) -> Seq<char> {
        padded_decimal(self.hours as nat, 3) + seq![' ']
            + padded_decimal(self.minutes as nat, 2) + seq![' ']
            + padded_decimal(self.seconds as nat, 2)
    }

    /// Decomposes a duration given in whole seconds by successive division
    /// and remainder by 3600 and then 60.
    pub fn from_secs(total_secs: u64) -> (r: Runtime)
        ensures
            r.wf(),
            r.hours == total_secs as int / 3600,
            r.minutes == (total_secs as int % 3600) / 60,
            r.seconds == total_secs as int % 60,
            r.total() == total_secs,
    {
        let hours = total_secs / 3600;
        let rem = total_secs % 3600;
        let minutes = rem / 60;
        let seconds = rem % 60;
        proof {
            assert(rem % 60 == total_secs as int % 60) by (nonlinear_arith)
                requires rem == total_secs as int % 3600;
            assert(hours * 3600 + minutes * 60 + seconds == total_secs)
                by (nonlinear_arith)
                requires
                    hours == total_secs as int / 3600,
                    rem == total_secs as int % 3600,
                    minutes == rem as int / 60,
                    seconds == rem as int % 60;
        }
        Runtime { hours, minutes, seconds }
    }

    /// Renders the decomposition as zero-padded columns.
    pub fn render(&self) -> (s: String)
        ensures
            s@ == self.rendered(),
    {
        proof {
            reveal_strlit(" ");
        }
        let mut s = String::new();
        push_decimal_width3(&mut s, self.hours);
        s.append(" ");
        push_decimal_width2(&mut s, self.minutes);
        s.append(" ");
        push_decimal_width2(&mut s, self.seconds);
        proof {
            assert(" "@ =~= seq![' ']);
            assert(s@ =~= self.rendered());
        }
        s
    }
}

} // verus!
