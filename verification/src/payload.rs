//! What the simulated producer publishes: timestamps in ISO 8601 and the
//! pub/sub message that tells the service a client's stream has a new entry.

use vstd::prelude::*;
use crate::types::Timestamp;

verus! {

/// The ISO 8601 text (`%Y-%m-%dT%H:%M:%S%.3fZ`) of the instant `millis`
/// milliseconds after the Unix epoch, or nothing when `chrono` cannot
/// represent that instant (named, not written out: it is calendar
/// arithmetic).
pub uninterp spec fn iso8601_of(millis: int) -> Option<Seq<char>>;

/// `chrono::DateTime::from_timestamp_millis`, formatted with
/// `%Y-%m-%dT%H:%M:%S%.3fZ`: a function of `millis` alone, with no result
/// for an instant out of `chrono`'s range.
#[verifier::external_body]
fn iso8601_text(millis: i64) -> (r: Option<String>)
    ensures
        match r {
            Some(s) => iso8601_of(millis as int) == Some(s@),
            None => iso8601_of(millis as int) is None,
        },
{
    match chrono::DateTime::from_timestamp_millis(millis) {
        Some(t) => Some(t.format("%Y-%m-%dT%H:%M:%S%.3fZ").to_string()),
        None => None,
    }
}

/// A lower-case hexadecimal digit.
pub open spec fn hex_digit(d: nat) -> char {
    if d < 10 {
        (d + 48) as char
    } else {
        (d + 87) as char
    }
}

/// How one character stands in a JSON string literal: `"` and `\` behind a
/// backslash; backspace, tab, line feed, form feed and carriage return as
/// `\b`, `\t`, `\n`, `\f`, `\r`; any other control character below
/// 0x20 as `\u00` and two lower-case hex digits; every other character as
/// itself.
pub open spec fn json_escape_char(c: char) -> Seq<char> {
    let n = c as nat;
    if c == '"' {
        seq!['\\', '"']
    } else if c == '\\' {
        seq!['\\', '\\']
    } else if n == 8 {
        seq!['\\', 'b']
    } else if n == 9 {
        seq!['\\', 't']
    } else if n == 10 {
        seq!['\\', 'n']
    } else if n == 12 {
        seq!['\\', 'f']
    } else if n == 13 {
        seq!['\\', 'r']
    } else if n < 32 {
        seq!['\\', 'u', '0', '0', hex_digit(n / 16), hex_digit(n % 16)]
    } else {
        seq![c]
    }
}

/// The characters of `s`, each escaped for a JSON string literal.
pub open spec fn json_escaped(s: Seq<char>) -> Seq<char>
    decreases s.len(),
{
    if s.len() == 0 {
        Seq::empty()
    } else {
        json_escaped(s.drop_last()) + json_escape_char(s.last())
    }
}

/// The JSON string literal of `s`: its escaped characters between quotes.
pub open spec fn json_quoted(s: Seq<char>) -> Seq<char> {
    seq!['"'] + json_escaped(s) + seq!['"']
}

/// `serde_json::to_string` of a string: its literal, quoted and escaped as
/// the crate's compact formatter writes it (its `ESCAPE` table and
/// `write_char_escape`). Serialising a `str` into a `String` cannot fail.
#[verifier::external_body]
fn json_string(s: &str) -> (r: String)
    ensures
        r@ == json_quoted(s@),
{
    match serde_json::to_string(s) {
        Ok(text) => text,
        Err(_) => String::new(),
    }
}

/// An instant in ISO 8601 with milliseconds, in UTC; nothing for an instant
/// out of the calendar's range.
pub fn iso8601(timestamp: Timestamp) -> (r: Option<String>)
    ensures
        match r {
            Some(s) => iso8601_of(timestamp.0 as int) == Some(s@),
            None => iso8601_of(timestamp.0 as int) is None,
        },
{
    iso8601_text(timestamp.0)
}

/// The pub/sub message for a client and an instant: a JSON object with the
/// client's stream id under `streamId` and the instant in ISO 8601 under
/// `timestamp`.
pub open spec fn pubsub_message_text(client_id: Seq<char>, at: Seq<char>) -> Seq<char> {
    "{\"streamId\":"@ + json_quoted(client_id) + ",\"timestamp\":"@ + json_quoted(at) + "}"@
}

/// The message that tells the service the client's stream has a new entry;
/// nothing when the instant is out of the calendar's range.
pub fn pubsub_message(client_id: &str, timestamp: Timestamp) -> (r: Option<String>)
    ensures
        match iso8601_of(timestamp.0 as int) {
            Some(at) => r matches Some(m) && m@ == pubsub_message_text(client_id@, at),
            None => r is None,
        },
{
    let at = match iso8601(timestamp) {
        Some(at) => at,
        None => return None,
    };
    let mut m = String::from_str("{\"streamId\":");
    let id = json_string(client_id);
    m.append(id.as_str());
    m.append(",\"timestamp\":");
    let quoted = json_string(at.as_str());
    m.append(quoted.as_str());
    m.append("}");
    Some(m)
}

} // verus!
