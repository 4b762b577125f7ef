//! Leveled logging: the level vocabulary, the maximum-level filter, and
//! the one canonical line shape.

use vstd::prelude::*;
use crate::text::{chars_of, is_ws, trim, trim_end, trim_start, trimmed};

verus! {

/// A log level: `Error` is the most severe, `Trace` the least.
#[derive(Debug, Clone, Copy, PartialEq, Eq, PartialOrd, Ord, Hash, Structural)]
pub enum Level {
    /// A fault that broke the operation in hand.
    Error,
    /// Something wrong, but the operation carried on.
    Warn,
    /// A normal, noteworthy event.
    Info,
    /// Detail useful when diagnosing a problem.
    Debug,
    /// The finest-grained tracing.
    Trace,
}

/// A level's place in the severity order, most severe first.
pub open spec fn severity(l: Level) -> u8 {
    match l {
        Level::Error => 0,
        Level::Warn => 1,
        Level::Info => 2,
        Level::Debug => 3,
        Level::Trace => 4,
    }
}

pub open spec fn label_of(l: Level) -> Seq<char> {
    match l {
        Level::Error => "ERROR"@,
        Level::Warn => "WARN"@,
        Level::Info => "INFO"@,
        Level::Debug => "DEBUG"@,
        Level::Trace => "TRACE"@,
    }
}

/// `c` with ASCII capitals lowered (`char::to_ascii_lowercase`).
pub open spec fn lower(c: char) -> char {
    if 'A' <= c <= 'Z' {
        ((c as u32) + 32) as char
    } else {
        c
    }
}

pub open spec fn lowered(s: Seq<char>) -> Seq<char> {
    s.map_values(|c: char| lower(c))
}

/// The level a name spells, ignoring surrounding whitespace and ASCII case.
pub open spec fn level_named(name: Seq<char>) -> Option<Level> {
    let n = lowered(trimmed(name));
    if n == "error"@ {
        Some(Level::Error)
    } else if n == "warn"@ {
        Some(Level::Warn)
    } else if n == "info"@ {
        Some(Level::Info)
    } else if n == "debug"@ {
        Some(Level::Debug)
    } else if n == "trace"@ {
        Some(Level::Trace)
    } else {
        None
    }
}

impl Level {
    /// The level's place in the severity order, most severe first.
    pub fn rank(self) -> (r: u8)
        ensures
            r == severity(self),
    {
        match self {
            Level::Error => 0,
            Level::Warn => 1,
            Level::Info => 2,
            Level::Debug => 3,
            Level::Trace => 4,
        }
    }

    /// The fixed, uppercase label this level wears in a log line.
    pub fn label(self) -> (s: &'static str)
        ensures
            s@ == label_of(self),
    {
        match self {
            Level::Error => "ERROR",
            Level::Warn => "WARN",
            Level::Info => "INFO",
            Level::Debug => "DEBUG",
            Level::Trace => "TRACE",
        }
    }

    /// Parse a level name, case-insensitively.
    pub fn parse(name: &str) -> (r: Option<Level>)
        ensures
            r == level_named(name@),
    {
        let chars = chars_of(name);
        let t = trim(chars.as_slice());
        let mut n: Vec<char> = Vec::new();
        let mut i: usize = 0;
        while i < t.len()
            invariant
                i <= t@.len(),
                n@ == lowered(t@.subrange(0, i as int)),
            decreases t@.len() - i,
        {
            let c = t[i];
            let l = if 'A' <= c && c <= 'Z' {
                ((c as u32) + 32) as u8 as char
            } else {
                c
            };
            assert(l == lower(c)) by {
                if 'A' <= c && c <= 'Z' {
                    assert(((c as u32) + 32) as u8 as char == ((c as u32) + 32) as char);
                }
            }
            n.push(l);
            i = i + 1;
            assert(n@ =~= lowered(t@.subrange(0, i as int)));
        }
        assert(t@.subrange(0, t@.len() as int) =~= t@);
        let s = n.as_slice();
        if crate::text::eq_str(s, "error") {
            Some(Level::Error)
        } else if crate::text::eq_str(s, "warn") {
            Some(Level::Warn)
        } else if crate::text::eq_str(s, "info") {
            Some(Level::Info)
        } else if crate::text::eq_str(s, "debug") {
            Some(Level::Debug)
        } else if crate::text::eq_str(s, "trace") {
            Some(Level::Trace)
        } else {
            None
        }
    }
}

/// The active maximum level: a line is emitted when its level is at most
/// this severe.
#[derive(Debug, Clone, Copy)]
pub struct LevelFilter {
    pub max: Level,
}

/// The maximum level a process starts with: what its configured name
/// spells, else `Info`.
pub fn initial_level(configured: Option<&str>) -> (l: Level)
    ensures
        l == match configured {
            Some(name) => match level_named(name@) {
                Some(x) => x,
                None => Level::Info,
            },
            None => Level::Info,
        },
{
    match configured {
        Some(name) => match Level::parse(name) {
            Some(l) => l,
            None => Level::Info,
        },
        None => Level::Info,
    }
}

/// Set the active maximum level.
pub fn set_level(filter: &mut LevelFilter, level: Level)
    ensures
        final(filter).max == level,
{
    filter.max = level;
}

/// The active maximum level.
pub fn level(filter: &LevelFilter) -> (l: Level)
    ensures
        l == filter.max,
{
    filter.max
}

/// Whether a line at `level` would currently be emitted.
pub fn enabled(filter: &LevelFilter, level: Level) -> (b: bool)
    ensures
        b == (severity(level) <= severity(filter.max)),
{
    level.rank() <= filter.max.rank()
}

/// The severity order is the declaration order `Error`, `Warn`, `Info`,
/// `Debug`, `Trace`, strictly increasing along it; so a filter at
/// `Trace` emits every level, a filter at `Error` only errors, and no two
/// levels share a place in the order.
pub proof fn lemma_severity_is_declaration_order(l: Level, max: Level)
    ensures
        severity(Level::Error) < severity(Level::Warn),
        severity(Level::Warn) < severity(Level::Info),
        severity(Level::Info) < severity(Level::Debug),
        severity(Level::Debug) < severity(Level::Trace),
        severity(l) <= severity(Level::Trace),
        severity(Level::Error) <= severity(l),
        severity(l) == severity(max) <==> l == max,
{
}

/// A label parses back to its level.
pub proof fn lemma_labels_parse_back(l: Level)
    ensures
        level_named(label_of(l)) == Some(l),
{
    reveal_strlit("ERROR");
    reveal_strlit("WARN");
    reveal_strlit("INFO");
    reveal_strlit("DEBUG");
    reveal_strlit("TRACE");
    reveal_strlit("error");
    reveal_strlit("warn");
    reveal_strlit("info");
    reveal_strlit("debug");
    reveal_strlit("trace");
    let s = label_of(l);
    assert(trim_start(s) == s);
    assert(trim_end(s) == s);
    assert(trimmed(s) == s);
    match l {
        Level::Error => {
            assert(lowered(s) =~= "error"@);
        },
        Level::Warn => {
            assert(lowered(s) =~= "warn"@);
            assert(lowered(s)[0] != "error"@[0]);
        },
        Level::Info => {
            assert(lowered(s) =~= "info"@);
            assert(lowered(s)[0] != "error"@[0]);
            assert(lowered(s)[0] != "warn"@[0]);
        },
        Level::Debug => {
            assert(lowered(s) =~= "debug"@);
            assert(lowered(s)[0] != "error"@[0]);
            assert(lowered(s)[0] != "warn"@[0]);
            assert(lowered(s)[0] != "info"@[0]);
        },
        Level::Trace => {
            assert(lowered(s) =~= "trace"@);
            assert(lowered(s)[0] != "error"@[0]);
            assert(lowered(s)[0] != "warn"@[0]);
            assert(lowered(s)[0] != "info"@[0]);
            assert(lowered(s)[0] != "debug"@[0]);
        },
    }
}

// ---- the line shape --------------------------------------------------------------

/// The decimal digits of `n`.
pub open spec fn decimal(n: nat) -> Seq<char>
    decreases n,
{
    if n < 10 {
        seq![digit_char(n)]
    } else {
        decimal(n / 10).push(digit_char(n % 10))
    }
}

pub open spec fn digit_char(d: nat) -> char {
    (('0' as u32) + d) as char
}

/// `s` right-aligned in a field `width` wide.
pub open spec fn pad_left(s: Seq<char>, width: nat) -> Seq<char> {
    if s.len() >= width {
        s
    } else {
        Seq::new((width - s.len()) as nat, |i: int| ' ') + s
    }
}

/// `s` left-aligned in a field `width` wide.
pub open spec fn pad_right(s: Seq<char>, width: nat) -> Seq<char> {
    if s.len() >= width {
        s
    } else {
        s + Seq::new((width - s.len()) as nat, |i: int| ' ')
    }
}

/// An uptime in milliseconds as seconds with three decimals.
pub open spec fn seconds(millis: nat) -> Seq<char> {
    decimal(millis / 1000) + seq!['.'] + seq![
        digit_char((millis % 1000) / 100),
        digit_char((millis % 100) / 10),
        digit_char(millis % 10),
    ]
}

/// The canonical log line: `[uptime] LEVEL target: message`, the uptime
/// right-aligned nine wide and the label left-aligned five wide.
pub open spec fn line_of(level: Level, target: Seq<char>, millis: nat, message: Seq<char>) -> Seq<
    char,
> {
    seq!['['] + pad_left(seconds(millis), 9) + seq![']', ' '] + pad_right(label_of(level), 5)
        + seq![' '] + target + seq![':', ' '] + message
}

fn push_chars(out: &mut Vec<char>, s: &[char])
    ensures
        final(out)@ == old(out)@ + s@,
{
    let mut i: usize = 0;
    while i < s.len()
        invariant
            i <= s@.len(),
            out@ == old(out)@ + s@.subrange(0, i as int),
        decreases s@.len() - i,
    {
        out.push(s[i]);
        i = i + 1;
        assert(out@ =~= old(out)@ + s@.subrange(0, i as int));
    }
    assert(s@.subrange(0, s@.len() as int) =~= s@);
}

fn digit(d: u64) -> (c: char)
    requires
        d < 10,
    ensures
        c == digit_char(d as nat),
{
    ((('0' as u32) + (d as u32)) as u8) as char
}

/// The decimal digits of `n`.
pub fn decimal_chars(n: u64) -> (r: Vec<char>)
    ensures
        r@ == decimal(n as nat),
    decreases n,
{
    if n < 10 {
        let mut r: Vec<char> = Vec::new();
        r.push(digit(n));
        assert(r@ =~= decimal(n as nat));
        r
    } else {
        let mut r = decimal_chars(n / 10);
        r.push(digit(n % 10));
        r
    }
}

/// Format one log line: the uptime (in milliseconds), the level, the
/// target and the message, in the canonical shape.
pub fn render(level: Level, target: &str, uptime_millis: u64, message: &str) -> (line: String)
    ensures
        line@ == line_of(level, target@, uptime_millis as nat, message@),
{
    let mut secs = decimal_chars(uptime_millis / 1000);
    secs.push('.');
    secs.push(digit((uptime_millis % 1000) / 100));
    secs.push(digit((uptime_millis % 100) / 10));
    secs.push(digit(uptime_millis % 10));
    assert(secs@ =~= seconds(uptime_millis as nat));
    let mut out: Vec<char> = Vec::new();
    out.push('[');
    let mut k: usize = secs.len();
    while k < 9
        invariant
            secs@.len() <= k <= 9 || (k == secs@.len() && k >= 9),
            out@ == seq!['['] + Seq::new((k - secs@.len()) as nat, |i: int| ' '),
        decreases 9 - k,
    {
        out.push(' ');
        k = k + 1;
        assert(out@ =~= seq!['['] + Seq::new((k - secs@.len()) as nat, |i: int| ' '));
    }
    push_chars(&mut out, secs.as_slice());
    assert(out@ =~= seq!['['] + pad_left(seconds(uptime_millis as nat), 9));
    out.push(']');
    out.push(' ');
    let label = chars_of(level.label());
    push_chars(&mut out, label.as_slice());
    let ghost mid = out@;
    let mut j: usize = label.len();
    while j < 5
        invariant
            label@.len() <= j <= 5 || (j == label@.len() && j >= 5),
            out@ == mid + Seq::new((j - label@.len()) as nat, |i: int| ' '),
        decreases 5 - j,
    {
        out.push(' ');
        j = j + 1;
        assert(out@ =~= mid + Seq::new((j - label@.len()) as nat, |i: int| ' '));
    }
    assert(out@ =~= seq!['['] + pad_left(seconds(uptime_millis as nat), 9) + seq![']', ' ']
        + pad_right(label_of(level), 5));
    out.push(' ');
    let t = chars_of(target);
    push_chars(&mut out, t.as_slice());
    out.push(':');
    out.push(' ');
    let m = chars_of(message);
    push_chars(&mut out, m.as_slice());
    assert(out@ =~= line_of(level, target@, uptime_millis as nat, message@));
    crate::text::string_of(out.as_slice())
}

} // verus!
