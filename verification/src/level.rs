//! Severity of a record, its fixed order and its textual names.

use crate::text::{ascii_lower, is_text, lower_char, lowered_chars};
use vstd::prelude::*;

verus! {

/// Severity of a log record, from the least to the most severe.
#[derive(Debug, Clone, Copy, PartialEq, Eq, Structural)]
pub enum Level {
    Trace,
    Debug,
    Info,
    Warn,
    Error,
}

impl Level {
    /// Position in the fixed order `trace < debug < info < warn < error`.
    pub open spec fn rank(self) -> nat {
        match self {
            Level::Trace => 0,
            Level::Debug => 1,
            Level::Info => 2,
            Level::Warn => 3,
            Level::Error => 4,
        }
    }

    /// The name under which the severity is rendered.
    pub open spec fn name(self) -> Seq<char> {
        match self {
            Level::Trace => "TRACE"@,
            Level::Debug => "DEBUG"@,
            Level::Info => "INFO"@,
            Level::Warn => "WARN"@,
            Level::Error => "ERROR"@,
        }
    }

    /// The rendered name of the severity.
    pub fn as_str(&self) -> (s: &'static str)
        ensures
            s@ == self.name(),
    {
        match self {
            Level::Trace => "TRACE",
            Level::Debug => "DEBUG",
            Level::Info => "INFO",
            Level::Warn => "WARN",
            Level::Error => "ERROR",
        }
    }

    /// Reads a severity from text, ignoring ASCII case. `warning` is accepted
    /// for `warn`; any other text is no severity.
    pub fn from_str(raw: &str) -> (r: Option<Level>)
        ensures
            r == parse_level(raw@),
    {
        let t = lowered_chars(raw);
        if is_text(&t, "trace") {
            Some(Level::Trace)
        } else if is_text(&t, "debug") {
            Some(Level::Debug)
        } else if is_text(&t, "info") {
            Some(Level::Info)
        } else if is_text(&t, "warn") || is_text(&t, "warning") {
            Some(Level::Warn)
        } else if is_text(&t, "error") {
            Some(Level::Error)
        } else {
            None
        }
    }

    /// The severity that a machine number stands for.
    pub fn from_code(n: u8) -> (level: Level)
        ensures
            level == level_of_code(n as nat),
    {
        match n {
            0 => Level::Trace,
            1 => Level::Debug,
            2 => Level::Info,
            3 => Level::Warn,
            _ => Level::Error,
        }
    }

    /// Whether a record of severity `self` passes the threshold `current`.
    pub fn enabled(self, current: Level) -> (b: bool)
        ensures
            b == is_enabled(self, current),
    {
        self.code() >= current.code()
    }

    /// The rank as a machine number, as a cell of one byte can hold it.
    pub fn code(self) -> (n: u8)
        ensures
            n == self.rank(),
    {
        match self {
            Level::Trace => 0,
            Level::Debug => 1,
            Level::Info => 2,
            Level::Warn => 3,
            Level::Error => 4,
        }
    }
}

/// The severity that a machine number stands for: the one with that rank,
/// and `error` for every number above the ranks.
pub open spec fn level_of_code(n: nat) -> Level {
    if n == 0 {
        Level::Trace
    } else if n == 1 {
        Level::Debug
    } else if n == 2 {
        Level::Info
    } else if n == 3 {
        Level::Warn
    } else {
        Level::Error
    }
}

/// The machine number of a severity stands for that severity.
pub proof fn lemma_code_round_trip(level: Level)
    ensures
        level_of_code(level.rank()) == level,
{
}

/// A record passes a threshold when its rank is at least the threshold's.
pub open spec fn is_enabled(record: Level, threshold: Level) -> bool {
    record.rank() >= threshold.rank()
}

/// The severity that a text names, if any.
pub open spec fn parse_level(text: Seq<char>) -> Option<Level> {
    let t = ascii_lower(text);
    if t == "trace"@ {
        Some(Level::Trace)
    } else if t == "debug"@ {
        Some(Level::Debug)
    } else if t == "info"@ {
        Some(Level::Info)
    } else if t == "warn"@ || t == "warning"@ {
        Some(Level::Warn)
    } else if t == "error"@ {
        Some(Level::Error)
    } else {
        None
    }
}

/// The severities are ranked `trace < debug < info < warn < error`, and no
/// two of them share a rank.
pub proof fn lemma_rank_order()
    ensures
        Level::Trace.rank() < Level::Debug.rank(),
        Level::Debug.rank() < Level::Info.rank(),
        Level::Info.rank() < Level::Warn.rank(),
        Level::Warn.rank() < Level::Error.rank(),
        forall|a: Level, b: Level| a.rank() == b.rank() ==> a == b,
{
}

/// Passing a threshold is a total order on the severities: every severity
/// passes itself, any two compare one way or the other, passing both ways
/// means equality, and passing carries over a chain of thresholds.
pub proof fn lemma_enabled_total_order(a: Level, b: Level, c: Level)
    ensures
        is_enabled(a, b) == (a.rank() >= b.rank()),
        is_enabled(a, a),
        is_enabled(a, b) || is_enabled(b, a),
        is_enabled(a, b) && is_enabled(b, a) ==> a == b,
        is_enabled(a, b) && is_enabled(b, c) ==> is_enabled(a, c),
{
}

/// Every severity passes the lowest threshold, and only `error` passes the
/// highest.
pub proof fn lemma_enabled_extremes(a: Level)
    ensures
        is_enabled(a, Level::Trace),
        is_enabled(a, Level::Error) <==> a == Level::Error,
{
}

/// Lower-casing a second time changes nothing.
pub proof fn lemma_ascii_lower_idempotent(s: Seq<char>)
    ensures
        ascii_lower(ascii_lower(s)) == ascii_lower(s),
{
    assert forall|c: char| lower_char(lower_char(c)) == #[trigger] lower_char(c) by {
        if 'A' <= c && c <= 'Z' {
            let b: u8 = (c as u8 + 32) as u8;
            assert(97 <= b <= 122);
            assert((b as char) as u8 == b);
        }
    }
    assert(ascii_lower(ascii_lower(s)) =~= ascii_lower(s));
}

/// Parsing ignores ASCII case: two texts that differ only in the case of
/// their ASCII letters name the same severity, or both name none.
pub proof fn lemma_parse_ignores_case(a: Seq<char>, b: Seq<char>)
    requires
        ascii_lower(a) == ascii_lower(b),
    ensures
        parse_level(a) == parse_level(b),
{
}

/// A text and its lower-case form name the same severity.
pub proof fn lemma_parse_of_lowered(a: Seq<char>)
    ensures
        parse_level(ascii_lower(a)) == parse_level(a),
{
    lemma_ascii_lower_idempotent(a);
}

/// The rendered name of every severity, and its lower-case form, parse back
/// to that severity.
pub proof fn lemma_names_round_trip(level: Level)
    ensures
        parse_level(level.name()) == Some(level),
        parse_level(ascii_lower(level.name())) == Some(level),
{
    reveal_names();
    lemma_lower_names();
    lemma_parse_of_lowered(level.name());
}

/// The lower-case names parse to their severities, and `warning` to `warn`.
pub proof fn lemma_parse_canonical_names()
    ensures
        parse_level("trace"@) == Some(Level::Trace),
        parse_level("debug"@) == Some(Level::Debug),
        parse_level("info"@) == Some(Level::Info),
        parse_level("warn"@) == Some(Level::Warn),
        parse_level("warning"@) == Some(Level::Warn),
        parse_level("error"@) == Some(Level::Error),
{
    reveal_names();
    lemma_lower_names();
    assert(ascii_lower("trace"@) =~= "trace"@);
    assert(ascii_lower("debug"@) =~= "debug"@);
    assert(ascii_lower("info"@) =~= "info"@);
    assert(ascii_lower("warn"@) =~= "warn"@);
    assert(ascii_lower("warning"@) =~= "warning"@);
    assert(ascii_lower("error"@) =~= "error"@);
}

/// A text names a severity exactly when its lower-case form is that
/// severity's lower-case name, or `warning` for `warn`.
pub proof fn lemma_parse_exact(text: Seq<char>, level: Level)
    ensures
        parse_level(text) == Some(level) <==> (ascii_lower(text) == ascii_lower(level.name())
            || (level == Level::Warn && ascii_lower(text) == "warning"@)),
{
    reveal_names();
    lemma_lower_names();
}

/// The rendered name of a severity is made of four or five ASCII capitals.
pub proof fn lemma_name_chars(level: Level)
    ensures
        4 <= level.name().len() <= 5,
        forall|i: int|
            0 <= i < level.name().len() ==> 'A' <= #[trigger] level.name()[i] && level.name()[i]
                <= 'Z',
{
    reveal_names();
}

/// What the names of the severities are made of.
proof fn reveal_names()
    ensures
        "TRACE"@ =~= seq!['T', 'R', 'A', 'C', 'E'],
        "DEBUG"@ =~= seq!['D', 'E', 'B', 'U', 'G'],
        "INFO"@ =~= seq!['I', 'N', 'F', 'O'],
        "WARN"@ =~= seq!['W', 'A', 'R', 'N'],
        "ERROR"@ =~= seq!['E', 'R', 'R', 'O', 'R'],
        "trace"@ =~= seq!['t', 'r', 'a', 'c', 'e'],
        "debug"@ =~= seq!['d', 'e', 'b', 'u', 'g'],
        "info"@ =~= seq!['i', 'n', 'f', 'o'],
        "warn"@ =~= seq!['w', 'a', 'r', 'n'],
        "warning"@ =~= seq!['w', 'a', 'r', 'n', 'i', 'n', 'g'],
        "error"@ =~= seq!['e', 'r', 'r', 'o', 'r'],
{
    reveal_strlit("TRACE");
    reveal_strlit("DEBUG");
    reveal_strlit("INFO");
    reveal_strlit("WARN");
    reveal_strlit("ERROR");
    reveal_strlit("trace");
    reveal_strlit("debug");
    reveal_strlit("info");
    reveal_strlit("warn");
    reveal_strlit("warning");
    reveal_strlit("error");
}

/// The rendered names, lower-cased, are the names that parsing knows.
proof fn lemma_lower_names()
    ensures
        ascii_lower("TRACE"@) == "trace"@,
        ascii_lower("DEBUG"@) == "debug"@,
        ascii_lower("INFO"@) == "info"@,
        ascii_lower("WARN"@) == "warn"@,
        ascii_lower("ERROR"@) == "error"@,
{
    reveal_names();
    assert(ascii_lower("TRACE"@) =~= "trace"@);
    assert(ascii_lower("DEBUG"@) =~= "debug"@);
    assert(ascii_lower("INFO"@) =~= "info"@);
    assert(ascii_lower("WARN"@) =~= "warn"@);
    assert(ascii_lower("ERROR"@) =~= "error"@);
}

} // verus!
