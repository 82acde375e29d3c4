//! Structured log-message formatting.
//!
//! Log messages are emitted as the inner fields of a JSON object so a
//! log indexer can ingest them: a plain message becomes
//! `"message": "text"`, and caller-supplied metadata (the inside of a
//! braced JSON object) is appended after it.  The functions here only
//! compute the text; handing it to a logging backend is I/O and stays
//! with the caller.

use vstd::prelude::*;
use vstd::string::StrSliceExecFns;
use vstd::string::StringExecFns;

verus! {

/// Severity of a log record, mirroring the conventional five levels.
#[derive(Clone, Copy, Debug, PartialEq, Eq, Structural)]
pub enum LogLevel {
    Error,
    Warn,
    Info,
    Debug,
    Trace,
}

/// The upper-case display name of each level.
pub open spec fn spec_level_name(level: LogLevel) -> Seq<char> {
    match level {
        LogLevel::Error => "ERROR"@,
        LogLevel::Warn => "WARN"@,
        LogLevel::Info => "INFO"@,
        LogLevel::Debug => "DEBUG"@,
        LogLevel::Trace => "TRACE"@,
    }
}

impl LogLevel {
    /// The upper-case display name; stands in for `Display`.
    pub fn name(&self) -> (n: &'static str)
        ensures
            n@ == spec_level_name(*self),
    {
        match self {
            LogLevel::Error => "ERROR",
            LogLevel::Warn => "WARN",
            LogLevel::Info => "INFO",
            LogLevel::Debug => "DEBUG",
            LogLevel::Trace => "TRACE",
        }
    }
}

/// The whitespace the message trimmer strips from either end: the
/// characters with the Unicode `White_Space` property, exactly the
/// set that `str::trim` strips.
pub open spec fn is_log_space(c: char) -> bool {
    ||| c == ' '
    ||| c == '\t'
    ||| c == '\n'
    ||| c == '\u{b}'
    ||| c == '\u{c}'
    ||| c == '\r'
    ||| c == '\u{85}'
    ||| c == '\u{a0}'
    ||| c == '\u{1680}'
    ||| c == '\u{2000}'
    ||| c == '\u{2001}'
    ||| c == '\u{2002}'
    ||| c == '\u{2003}'
    ||| c == '\u{2004}'
    ||| c == '\u{2005}'
    ||| c == '\u{2006}'
    ||| c == '\u{2007}'
    ||| c == '\u{2008}'
    ||| c == '\u{2009}'
    ||| c == '\u{200a}'
    ||| c == '\u{2028}'
    ||| c == '\u{2029}'
    ||| c == '\u{202f}'
    ||| c == '\u{205f}'
    ||| c == '\u{3000}'
}

/// `s` with leading whitespace removed.
pub open spec fn trim_front(s: Seq<char>) -> Seq<char>
    decreases s.len(),
{
    if s.len() == 0 {
        s
    } else if is_log_space(s[0]) {
        trim_front(s.drop_first())
    } else {
        s
    }
}

/// `s` with trailing whitespace removed.
pub open spec fn trim_back(s: Seq<char>) -> Seq<char>
    decreases s.len(),
{
    if s.len() == 0 {
        s
    } else if is_log_space(s.last()) {
        trim_back(s.drop_last())
    } else {
        s
    }
}

/// `s` with whitespace removed from both ends.
pub open spec fn spec_trimmed(s: Seq<char>) -> Seq<char> {
    trim_back(trim_front(s))
}

/// The `"message"` field text: the trimmed message, and the metadata
/// (a braced JSON object) with its braces stripped, appended after it
/// when present.
pub open spec fn spec_message_field(msg: Seq<char>, meta: Seq<char>) -> Seq<char> {
    if meta.len() == 0 {
        "\"message\": \""@ + spec_trimmed(msg) + "\""@
    } else {
        "\"message\": \""@ + spec_trimmed(msg) + "\", "@ + meta.subrange(1, meta.len() as int - 1)
    }
}

/// Whether the text already starts with a `"message":` field.
pub open spec fn spec_is_message_field(s: Seq<char>) -> bool {
    s.len() >= "\"message\":"@.len() && s.subrange(0, "\"message\":"@.len() as int)
        == "\"message\":"@
}

/// One fully rendered log line: a JSON object with the time, level
/// and target fields, then the message fields (normalized into
/// `"message":` form when the text is not already in it).
pub open spec fn spec_log_line(
    time: Seq<char>,
    level: LogLevel,
    target: Seq<char>,
    msg: Seq<char>,
) -> Seq<char> {
    let m = if spec_is_message_field(msg) {
        msg
    } else {
        spec_message_field(msg, Seq::empty())
    };
    "{ \"time\": \""@ + time + "\", \"level\": \""@ + spec_level_name(level)
        + "\", \"target\": \""@ + target + "\", "@ + m + " }"@
}

/// Whether `c` is whitespace the trimmer strips.
pub fn is_space_char(c: char) -> (r: bool)
    ensures
        r == is_log_space(c),
{
    c == ' ' || c == '\t' || c == '\n' || c == '\u{b}' || c == '\u{c}' || c == '\r'
        || c == '\u{85}' || c == '\u{a0}' || c == '\u{1680}' || (c >= '\u{2000}' && c
        <= '\u{200a}') || c == '\u{2028}' || c == '\u{2029}' || c == '\u{202f}'
        || c == '\u{205f}' || c == '\u{3000}'
}

/// The message with whitespace removed from both ends.
pub fn trim_message(msg: &str) -> (r: String)
    ensures
        r@ == spec_trimmed(msg@),
{
    let len = msg.unicode_len();
    let mut start: usize = 0;
    proof {
        assert(msg@.skip(0) =~= msg@);
    }
    while start < len && is_space_char(msg.get_char(start))
        invariant
            start <= len,
            len == msg@.len(),
            trim_front(msg@) == trim_front(msg@.skip(start as int)),
        decreases len - start,
    {
        proof {
            assert(msg@.skip(start as int)[0] == msg@[start as int]);
            assert(msg@.skip(start as int).drop_first() =~= msg@.skip(start as int + 1));
        }
        start += 1;
    }
    proof {
        if start == len {
            assert(msg@.skip(start as int) =~= Seq::<char>::empty());
        }
        assert(trim_front(msg@) == msg@.skip(start as int));
        assert(msg@.skip(start as int) =~= msg@.subrange(start as int, len as int));
    }
    let mut end: usize = len;
    while end > start && is_space_char(msg.get_char(end - 1))
        invariant
            start <= end <= len,
            len == msg@.len(),
            trim_front(msg@) == msg@.skip(start as int),
            trim_back(msg@.skip(start as int)) == trim_back(
                msg@.subrange(start as int, end as int),
            ),
        decreases end,
    {
        proof {
            assert(msg@.subrange(start as int, end as int).last() == msg@[end - 1]);
            assert(msg@.subrange(start as int, end as int).drop_last() =~= msg@.subrange(
                start as int,
                end as int - 1,
            ));
        }
        end -= 1;
    }
    proof {
        if end == start {
            assert(msg@.subrange(start as int, end as int) =~= Seq::<char>::empty());
        }
        assert(trim_back(msg@.subrange(start as int, end as int)) == msg@.subrange(
            start as int,
            end as int,
        ));
    }
    String::from_str(msg.substring_char(start, end))
}

/// Whether the text already starts with a `"message":` field.
pub fn is_in_message_format(msg: &str) -> (r: bool)
    ensures
        r == spec_is_message_field(msg@),
{
    let pat = "\"message\":";
    proof {
        reveal_strlit("\"message\":");
    }
    let pat_len = pat.unicode_len();
    if msg.unicode_len() < pat_len {
        return false;
    }
    let mut i: usize = 0;
    while i < pat_len
        invariant
            i <= pat_len,
            pat_len == "\"message\":"@.len(),
            pat@ == "\"message\":"@,
            msg@.len() >= pat_len,
            forall|k: int| 0 <= k < i ==> msg@[k] == pat@[k],
        decreases pat_len - i,
    {
        if msg.get_char(i) != pat.get_char(i) {
            proof {
                assert(msg@.subrange(0, pat_len as int)[i as int] != pat@[i as int]);
            }
            return false;
        }
        i += 1;
    }
    proof {
        assert(msg@.subrange(0, pat_len as int) =~= pat@);
    }
    true
}

/// The inner message fields for one log call: the trimmed message as
/// a `"message"` field, with the metadata object's fields appended.
/// The metadata is either empty or a braced JSON object, so its
/// length is never one.
pub fn format_message(msg: &str, meta: &str) -> (r: String)
    requires
        meta@.len() != 1,
    ensures
        r@ == spec_message_field(msg@, meta@),
{
    let trimmed = trim_message(msg);
    let mut r = String::from_str("\"message\": \"");
    r.append(trimmed.as_str());
    if meta.is_empty() {
        r.append("\"");
    } else {
        r.append("\", ");
        let meta_len = meta.unicode_len();
        r.append(meta.substring_char(1, meta_len - 1));
    }
    proof {
        assert(r@ =~= spec_message_field(msg@, meta@));
    }
    r
}

/// A log call prepared for a backend: the level and optional target
/// to route it by, and the formatted message fields to write.
#[derive(Debug)]
pub struct LogRecord {
    pub level: LogLevel,
    pub target: Option<String>,
    pub message: String,
}

/// Turns one structured log call into the record a logging backend
/// writes: the message and metadata become the `"message"` fields,
/// and the level and target pass through for routing.  Writing the
/// record is I/O and stays with the caller.
pub fn transform_message(level: LogLevel, target: Option<&str>, msg: &str, meta: &str) -> (r:
    LogRecord)
    requires
        meta@.len() != 1,
    ensures
        r.level == level,
        r.message@ == spec_message_field(msg@, meta@),
        match (r.target, target) {
            (Some(a), Some(b)) => a@ == b@,
            (None, None) => true,
            _ => false,
        },
{
    let message = format_message(msg, meta);
    let target_owned = match target {
        Some(t) => Some(t.to_owned()),
        None => None,
    };
    LogRecord { level, target: target_owned, message }
}

/// One fully rendered log line for a plain-text sink: the time, level
/// and target as JSON fields, then the message fields, normalizing a
/// bare message into `"message":` form first.
pub fn render_log_line(time: &str, level: LogLevel, target: &str, msg: &str) -> (r: String)
    ensures
        r@ == spec_log_line(time@, level, target@, msg@),
{
    proof {
        reveal_strlit("");
        assert(""@ =~= Seq::<char>::empty());
    }
    let normalized = if is_in_message_format(msg) {
        msg.to_owned()
    } else {
        format_message(msg, "")
    };
    let mut r = String::from_str("{ \"time\": \"");
    r.append(time);
    r.append("\", \"level\": \"");
    r.append(level.name());
    r.append("\", \"target\": \"");
    r.append(target);
    r.append("\", ");
    r.append(normalized.as_str());
    r.append(" }");
    proof {
        assert(r@ =~= spec_log_line(time@, level, target@, msg@));
    }
    r
}

} // verus!
