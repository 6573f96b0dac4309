//! The audit line: every submission and reply is recorded under the
//! submitter's pseudonymous tag, content included, whatever its disposition.
//! This crate only formats the line; the caller appends it to its write-only
//! sink.

use vstd::prelude::*;
use vstd::string::StrSliceExecFns;
use vstd::string::StringExecFns;
use crate::anonymize::{dec_str, decimal_string};
use crate::text::push_char;

verus! {

/// `s` with every newline replaced by a spaced `\n` escape, keeping the
/// audit record on one line.
pub open spec fn escape_nl(s: Seq<char>) -> Seq<char>
    decreases s.len(),
{
    if s.len() == 0 {
        Seq::empty()
    } else {
        (if s[0] == '\n' {
            seq![' ', '\\', 'n', ' ']
        } else {
            seq![s[0]]
        }) + escape_nl(s.drop_first())
    }
}

/// Replaces every newline in `s` by a spaced `\n` escape.
pub fn escape_newlines(s: &str) -> (r: String)
    ensures
        r@ == escape_nl(s@),
{
    let mut out = String::new();
    let len = s.unicode_len();
    assert(s@.skip(0) =~= s@);
    for i in 0..len
        invariant
            len == s@.len(),
            out@ + escape_nl(s@.skip(i as int)) == escape_nl(s@),
    {
        let c = s.get_char(i);
        proof {
            assert(s@.skip(i as int)[0] == c);
            assert(s@.skip(i as int).drop_first() =~= s@.skip(i + 1));
        }
        if c == '\n' {
            push_char(&mut out, ' ');
            push_char(&mut out, '\\');
            push_char(&mut out, 'n');
            push_char(&mut out, ' ');
            assert(out@ + escape_nl(s@.skip(i + 1)) =~= escape_nl(s@));
        } else {
            push_char(&mut out, c);
            assert(out@ + escape_nl(s@.skip(i + 1)) =~= escape_nl(s@));
        }
    }
    assert(s@.skip(len as int) =~= Seq::<char>::empty());
    assert(out@ =~= escape_nl(s@));
    out
}

/// The audit line recorded for a submission: the pseudonymous tag and the
/// content, newline-escaped onto a single line.
pub open spec fn audit_line_of(hash: Seq<char>, content: Seq<char>) -> Seq<char> {
    "Confession received: "@ + hash + " | "@ + escape_nl(content)
}

/// Formats the audit line for one confession event: the pseudonymous hash of
/// the submitter, then the content with newlines escaped. The caller writes
/// the line to its append-only audit sink.
pub fn log_confession(hash: &str, content: &str) -> (r: String)
    ensures
        r@ == audit_line_of(hash@, content@),
{
    let mut out = String::from_str("Confession received: ");
    out.append(hash);
    out.append(" | ");
    let escaped = escape_newlines(content);
    out.append(escaped.as_str());
    out
}

/// The audit line recorded for an anonymous reply: the pseudonymous tag,
/// the thread the reply was posted in, and the content, newline-escaped.
pub open spec fn reply_line_of(hash: Seq<char>, thread: u64, content: Seq<char>) -> Seq<char> {
    "Anonymous reply received: "@ + hash + " | Thread: "@ + dec_str(thread as nat) + " | "@
        + escape_nl(content)
}

/// Formats the audit line for one anonymous reply, recorded like a
/// confession so abuse through replies correlates under the same tag.
pub fn log_reply(hash: &str, thread_id: u64, content: &str) -> (r: String)
    ensures
        r@ == reply_line_of(hash@, thread_id, content@),
{
    let mut out = String::from_str("Anonymous reply received: ");
    out.append(hash);
    out.append(" | Thread: ");
    let thread = decimal_string(thread_id);
    out.append(thread.as_str());
    out.append(" | ");
    let escaped = escape_newlines(content);
    out.append(escaped.as_str());
    out
}

} // verus!
