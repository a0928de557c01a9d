//! The five-step severity scale shared by the filter and by call sites.

use crate::text::same_text;
use vstd::prelude::*;

verus! {

/// Severity of a log statement, from the most permissive (`Trace`) to the
/// most restrictive (`Error`).
#[derive(Clone, Copy, Debug, PartialEq, Eq, PartialOrd, Ord, Hash, Structural)]
pub enum Level {
    Trace,
    Debug,
    Info,
    Warn,
    Error,
}

impl Level {
    /// Position on the scale: `Trace` is 0, `Error` is 4.
    pub open spec fn rank(self) -> nat {
        match self {
            Level::Trace => 0,
            Level::Debug => 1,
            Level::Info => 2,
            Level::Warn => 3,
            Level::Error => 4,
        }
    }

    /// Position on the scale as a machine integer.
    pub fn ordinal(self) -> (r: u8)
        ensures
            r == self.rank(),
    {
        match self {
            Level::Trace => 0,
            Level::Debug => 1,
            Level::Info => 2,
            Level::Warn => 3,
            Level::Error => 4,
        }
    }

    /// Whether a statement of severity `self` passes a threshold of `min`.
    pub fn at_least(self, min: Level) -> (r: bool)
        ensures
            r == (self.rank() >= min.rank()),
    {
        self.ordinal() >= min.ordinal()
    }

    /// The keyword that names this level in a filter.
    pub fn keyword(self) -> (r: &'static str)
        ensures
            keyword_level(r@) == Some(self),
    {
        proof {
            lemma_keywords_distinct();
        }
        match self {
            Level::Trace => "trace",
            Level::Debug => "debug",
            Level::Info => "info",
            Level::Warn => "warn",
            Level::Error => "error",
        }
    }
}

/// The level that a keyword names: one of `trace`, `debug`, `info`, `warn`
/// and `error`, in exactly this spelling.
pub open spec fn keyword_level(s: Seq<char>) -> Option<Level> {
    if s == "trace"@ {
        Some(Level::Trace)
    } else if s == "debug"@ {
        Some(Level::Debug)
    } else if s == "info"@ {
        Some(Level::Info)
    } else if s == "warn"@ {
        Some(Level::Warn)
    } else if s == "error"@ {
        Some(Level::Error)
    } else {
        None
    }
}

/// The five keywords are five different texts.
pub proof fn lemma_keywords_distinct()
    ensures
        keyword_level("trace"@) == Some(Level::Trace),
        keyword_level("debug"@) == Some(Level::Debug),
        keyword_level("info"@) == Some(Level::Info),
        keyword_level("warn"@) == Some(Level::Warn),
        keyword_level("error"@) == Some(Level::Error),
{
    reveal_strlit("trace");
    reveal_strlit("debug");
    reveal_strlit("info");
    reveal_strlit("warn");
    reveal_strlit("error");
    assert("debug"@[0] != "trace"@[0]);
    assert("info"@.len() != "trace"@.len());
    assert("warn"@[0] != "info"@[0]);
    assert("error"@[0] != "trace"@[0]);
    assert("error"@[0] != "debug"@[0]);
}

/// Reads a level keyword. Matching is literal and sensitive to case.
pub fn from_str(s: &str) -> (r: Result<Level, ()>)
    ensures
        r == match keyword_level(s@) {
            Some(level) => Ok::<Level, ()>(level),
            None => Err(()),
        },
{
    if same_text(s, "trace") {
        Ok(Level::Trace)
    } else if same_text(s, "debug") {
        Ok(Level::Debug)
    } else if same_text(s, "info") {
        Ok(Level::Info)
    } else if same_text(s, "warn") {
        Ok(Level::Warn)
    } else if same_text(s, "error") {
        Ok(Level::Error)
    } else {
        Err(())
    }
}

} // verus!
