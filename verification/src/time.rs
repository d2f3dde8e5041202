//! Synchronisation granularity between hardware processes.

use vstd::prelude::*;
use crate::text::same_text;

verus! {

/// Synchronisation granularity used between hardware processes.
#[derive(Debug, Clone, Copy, PartialEq, Eq, Structural)]
pub enum TimingMode {
    /// Loosely timed: delays are accumulated and awaited once per
    /// communication.
    LT,
    /// Approximately timed: delays are awaited at several stages of a
    /// communication.
    AT,
}

/// A name that is not one of a timing mode.
#[derive(Debug, Clone, Copy, PartialEq, Eq, Structural)]
pub struct InvalidTimingMode;

/// The timing mode of that name.
pub open spec fn timing_mode_named(s: Seq<char>) -> Option<TimingMode> {
    if s == "LT"@ || s == "lt"@ || s == "LooselyTimed"@ || s == "Loosely"@ {
        Some(TimingMode::LT)
    } else if s == "AT"@ || s == "at"@ || s == "ApproxTimed"@ || s == "Approx"@ {
        Some(TimingMode::AT)
    } else {
        None
    }
}

impl TimingMode {
    /// The timing mode named `s`: `LooselyTimed`, `Loosely`, `LT` or `lt`;
    /// `ApproxTimed`, `Approx`, `AT` or `at`.
    pub fn from_str(s: &str) -> (r: Result<TimingMode, InvalidTimingMode>)
        ensures
            match timing_mode_named(s@) {
                Some(m) => r == Ok::<TimingMode, InvalidTimingMode>(m),
                None => r is Err,
            },
    {
        if same_text(s, "LT") || same_text(s, "lt") || same_text(s, "LooselyTimed") || same_text(
            s,
            "Loosely",
        ) {
            Ok(TimingMode::LT)
        } else if same_text(s, "AT") || same_text(s, "at") || same_text(s, "ApproxTimed")
            || same_text(s, "Approx") {
            Ok(TimingMode::AT)
        } else {
            Err(InvalidTimingMode)
        }
    }
}

/// Every name of a timing mode reads as that mode, and only those names:
/// `LooselyTimed`, `Loosely`, `LT`, `lt` for the loosely timed mode;
/// `ApproxTimed`, `Approx`, `AT`, `at` for the approximately timed one.
pub proof fn law_timing_mode_names(s: Seq<char>)
    ensures
        timing_mode_named("LooselyTimed"@) == Some(TimingMode::LT),
        timing_mode_named("Loosely"@) == Some(TimingMode::LT),
        timing_mode_named("LT"@) == Some(TimingMode::LT),
        timing_mode_named("lt"@) == Some(TimingMode::LT),
        timing_mode_named("ApproxTimed"@) == Some(TimingMode::AT),
        timing_mode_named("Approx"@) == Some(TimingMode::AT),
        timing_mode_named("AT"@) == Some(TimingMode::AT),
        timing_mode_named("at"@) == Some(TimingMode::AT),
        timing_mode_named(s) == Some(TimingMode::LT) ==> (s == "LooselyTimed"@ || s == "Loosely"@ || s
            == "LT"@ || s == "lt"@),
        timing_mode_named(s) == Some(TimingMode::AT) ==> (s == "ApproxTimed"@ || s == "Approx"@ || s
            == "AT"@ || s == "at"@),
{
    reveal_strlit("LooselyTimed");
    reveal_strlit("Loosely");
    reveal_strlit("LT");
    reveal_strlit("lt");
    reveal_strlit("ApproxTimed");
    reveal_strlit("Approx");
    reveal_strlit("AT");
    reveal_strlit("at");
    assert("LooselyTimed"@[0] == 'L' && "Loosely"@[0] == 'L' && "LT"@[0] == 'L' && "lt"@[0] == 'l');
    assert("ApproxTimed"@[0] == 'A' && "Approx"@[0] == 'A' && "AT"@[0] == 'A' && "at"@[0] == 'a');
}

} // verus!
