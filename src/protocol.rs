//! Reply frames and log records, over character sequences.
use vstd::prelude::*;
use vstd::utf8::encode_utf8;

use crate::command::{set_verb, CommandModel};
use crate::text::{chars_of, decimal, push_all, push_decimal, string_from_chars};

verus! {

pub open spec fn crlf() -> Seq<char> {
    seq!['\r', '\n']
}

/// Acknowledgement of a stored value.
pub open spec fn ok_reply() -> Seq<char> {
    "+OK\r\n"@
}

/// Reply to a lookup of an absent key.
pub open spec fn not_found_reply() -> Seq<char> {
    "$-1\r\n"@
}

/// Length of the UTF-8 encoding of `v`, as a string in memory reports it
/// (such a length always fits in `usize`).
pub open spec fn byte_len(v: Seq<char>) -> nat {
    (encode_utf8(v).len() as usize) as nat
}

/// Reply to a lookup that found `v`: its length in UTF-8 bytes, then `v`.
pub open spec fn found_reply(v: Seq<char>) -> Seq<char> {
    seq!['$'] + decimal(byte_len(v)) + crlf() + v + crlf()
}

/// Reply to a request that could not be parsed.
pub open spec fn error_reply(message: Seq<char>) -> Seq<char> {
    "-ERROR "@ + message + crlf()
}

/// The log line that records storing `value` under `key`.
pub open spec fn log_record(key: Seq<char>, value: Seq<char>) -> Seq<char> {
    set_verb() + seq![' '] + key + seq![' '] + value
}

/// Reply to a lookup, by what the lookup found.
pub open spec fn lookup_reply(found: Option<Seq<char>>) -> Seq<char> {
    match found {
        Some(v) => found_reply(v),
        None => not_found_reply(),
    }
}

/// The store after a command.
pub open spec fn apply(m: Map<Seq<char>, Seq<char>>, c: CommandModel) -> Map<Seq<char>, Seq<char>> {
    match c {
        CommandModel::Write { key, value } => m.insert(key, value),
        _ => m,
    }
}

/// The reply to a command on the store `m`.
pub open spec fn reply_to(m: Map<Seq<char>, Seq<char>>, c: CommandModel) -> Seq<char> {
    match c {
        CommandModel::Write { .. } => ok_reply(),
        CommandModel::Read { key } => lookup_reply(
            if m.contains_key(key) {
                Some(m[key])
            } else {
                None
            },
        ),
        CommandModel::Invalid { message } => error_reply(message),
    }
}

/// The log record that a command produces, if any.
pub open spec fn record_of(c: CommandModel) -> Option<Seq<char>> {
    match c {
        CommandModel::Write { key, value } => Some(log_record(key, value)),
        _ => None,
    }
}

pub open spec fn opt_view(o: Option<String>) -> Option<Seq<char>> {
    match o {
        Some(s) => Some(s@),
        None => None,
    }
}

/// What a request produces: the reply frame, and the record to append to
/// the log.
pub struct Outcome {
    pub reply: String,
    pub record: Option<String>,
}

pub fn ok_frame() -> (r: String)
    ensures
        r@ == ok_reply(),
{
    "+OK\r\n".to_owned()
}

pub fn error_frame(message: &str) -> (r: String)
    ensures
        r@ == error_reply(message@),
{
    let mut out = chars_of("-ERROR ");
    push_all(&mut out, &chars_of(message));
    out.push('\r');
    out.push('\n');
    string_from_chars(&out)
}

/// The frame that answers a lookup which found `found`.
pub fn lookup_frame(found: &Option<String>) -> (r: String)
    ensures
        r@ == lookup_reply(opt_view(*found)),
{
    match found {
        None => "$-1\r\n".to_owned(),
        Some(v) => {
            let mut out: Vec<char> = Vec::new();
            out.push('$');
            push_decimal(&mut out, v.as_str().len());
            out.push('\r');
            out.push('\n');
            push_all(&mut out, &chars_of(v.as_str()));
            out.push('\r');
            out.push('\n');
            proof {
                assert(out@ =~= found_reply(v@));
            }
            string_from_chars(&out)
        },
    }
}

/// The log line that records storing `value` under `key`.
pub fn record_line(key: &str, value: &str) -> (r: String)
    ensures
        r@ == log_record(key@, value@),
{
    let mut out = chars_of("SET ");
    push_all(&mut out, &chars_of(key));
    out.push(' ');
    push_all(&mut out, &chars_of(value));
    proof {
        reveal_strlit("SET ");
        assert(out@ =~= log_record(key@, value@));
    }
    string_from_chars(&out)
}

} // verus!
