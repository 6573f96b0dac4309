//! The submission forms as the core sees them: plain values handed over by
//! the platform layer once a modal has been collected.

use vstd::prelude::*;
use vstd::string::StrSliceExecFns;

verus! {

/// The longest submission the platform's form accepts, in characters.
pub const MAX_CONTENT_LENGTH: usize = 2000;

/// Whether submission content may enter the pipeline: not empty, and within
/// the form's length limit, counted in characters. Rejected content never
/// reaches the cooldown gate or the audit trail.
pub fn content_acceptable(text: &str) -> (r: bool)
    ensures
        r == (1 <= text@.len() <= MAX_CONTENT_LENGTH),
{
    let n = text.unicode_len();
    1 <= n && n <= MAX_CONTENT_LENGTH
}

/// A confession submission form: the content a submitter typed.
pub struct ConfessionModal {
    pub content: String,
}

/// An anonymous reply form: the content a replier typed.
pub struct ReplyModal {
    pub content: String,
}

} // verus!
