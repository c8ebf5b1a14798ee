//! Structured JSON log lines.

use crate::text::{self, push_decimal, push_escaped, push_str};
use vstd::prelude::*;

verus! {

#[derive(Debug, Clone, Copy, PartialEq, Eq, Structural)]
pub enum Level {
    Info,
    Warn,
    Error,
}

pub open spec fn level_name(level: Level) -> Seq<char> {
    match level {
        Level::Info => "info"@,
        Level::Warn => "warn"@,
        Level::Error => "error"@,
    }
}

impl Level {
    pub fn as_str(self) -> (s: &'static str)
        ensures
            s@ == level_name(self),
    {
        match self {
            Level::Info => "info",
            Level::Warn => "warn",
            Level::Error => "error",
        }
    }
}

/// The extra `"key":"value"` members of a log line, in order.
pub open spec fn fields_json(fields: Seq<(Seq<char>, Seq<char>)>) -> Seq<char>
    decreases fields.len(),
{
    if fields.len() == 0 {
        Seq::empty()
    } else {
        fields_json(fields.drop_last()) + ",\""@ + text::json_escaped(fields.last().0) + "\":\""@
            + text::json_escaped(fields.last().1) + "\""@
    }
}

/// The values of log fields.
pub open spec fn fields_view(fields: Seq<(&str, String)>) -> Seq<(Seq<char>, Seq<char>)> {
    fields.map_values(|f: (&str, String)| (f.0@, f.1@))
}

/// A log line: one JSON object with the timestamp in milliseconds, the
/// level, the message and the extra fields, strings escaped.
pub open spec fn log_line(ts_millis: u64, level: Level, msg: Seq<char>, fields: Seq<(Seq<char>, Seq<char>)>) -> Seq<char> {
    "{\"ts\":"@ + text::decimal(ts_millis as nat) + ",\"level\":\""@ + level_name(level) + "\",\"msg\":\""@
        + text::json_escaped(msg) + "\""@ + fields_json(fields) + "}"@
}

/// Formats one log line (without the trailing newline).
pub fn format_line(ts_millis: u64, level: Level, msg: &str, fields: &[(&str, String)]) -> (line: String)
    ensures
        line@ == log_line(ts_millis, level, msg@, fields_view(fields@)),
{
    let mut line = String::new();
    push_str(&mut line, "{\"ts\":");
    push_decimal(&mut line, ts_millis);
    push_str(&mut line, ",\"level\":\"");
    push_str(&mut line, level.as_str());
    push_str(&mut line, "\",\"msg\":\"");
    push_escaped(&mut line, msg, true);
    push_str(&mut line, "\"");
    let ghost head = line@;
    let ghost fs = fields_view(fields@);
    let mut i: usize = 0;
    assert(fs.take(0) =~= Seq::<(Seq<char>, Seq<char>)>::empty());
    assert(head + fields_json(Seq::empty()) =~= head);
    while i < fields.len()
        invariant
            fs == fields_view(fields@),
            i <= fs.len(),
            line@ == head + fields_json(fs.take(i as int)),
        decreases fs.len() - i,
    {
        let (key, value) = &fields[i];
        push_str(&mut line, ",\"");
        push_escaped(&mut line, key, true);
        push_str(&mut line, "\":\"");
        push_escaped(&mut line, value.as_str(), true);
        push_str(&mut line, "\"");
        assert(fs.take(i + 1).drop_last() =~= fs.take(i as int));
        assert(fs.take(i + 1).last() == fs[i as int]);
        assert(line@ =~= head + fields_json(fs.take(i + 1)));
        i = i + 1;
    }
    assert(fs.take(i as int) =~= fs);
    push_str(&mut line, "}");
    assert(line@ =~= log_line(ts_millis, level, msg@, fs));
    line
}

} // verus!
