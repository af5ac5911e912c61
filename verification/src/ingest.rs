//! The decisions taken while sources of reports are read.
//!
//! Reading, decompressing and parsing a source is not done here. What is
//! decided here is how a source is to be read, judged by its name, and how
//! the run goes on once a source has been read or has failed.

use vstd::prelude::*;
use vstd::string::StrSliceExecFns;

verus! {

/// Whether `text` ends with `suffix`.
pub open spec fn has_suffix(text: Seq<char>, suffix: Seq<char>) -> bool {
    suffix.len() <= text.len() && text.subrange(text.len() - suffix.len(), text.len() as int)
        == suffix
}

/// Whether `text` ends with `suffix`.
pub fn ends_with(text: &str, suffix: &str) -> (ends: bool)
    ensures
        ends == has_suffix(text@, suffix@),
{
    let text_len = text.unicode_len();
    let suffix_len = suffix.unicode_len();
    if suffix_len > text_len {
        return false;
    }
    let start = text_len - suffix_len;
    let ghost tail = text@.subrange(start as int, text_len as int);
    let mut at: usize = 0;
    while at < suffix_len
        invariant
            at <= suffix_len,
            suffix_len == suffix@.len(),
            text_len == text@.len(),
            start + suffix_len == text_len,
            tail == text@.subrange(start as int, text_len as int),
            forall|k: int| 0 <= k < at ==> tail[k] == suffix@[k],
        decreases suffix_len - at,
    {
        if text.get_char(start + at) != suffix.get_char(at) {
            assert(tail[at as int] != suffix@[at as int]);
            return false;
        }
        at += 1;
    }
    assert(tail =~= suffix@);
    true
}

/// Whether the source named `path` is compressed with bzip2, which its name
/// tells: it ends with `.bz2`.
pub fn is_bzip2_path(path: &str) -> (compressed: bool)
    ensures
        compressed == has_suffix(path@, ".bz2"@),
{
    ends_with(path, ".bz2")
}

/// How a run goes on after one source.
#[derive(Debug, Clone, Copy, PartialEq, Eq)]
pub enum Step {
    /// The source was read: hand its reports on.
    Deliver,
    /// The source failed: report it and go on with the next.
    Skip,
    /// The source failed: report it and end the run.
    Abort,
}

/// How a run goes on after a source that was read (`loaded`) or failed. A
/// failure ends the run unless failures are to be skipped.
pub open spec fn step_after(skip_json_errors: bool, loaded: bool) -> Step {
    if loaded {
        Step::Deliver
    } else if skip_json_errors {
        Step::Skip
    } else {
        Step::Abort
    }
}

/// How a run goes on after a source that was read (`loaded`) or failed.
pub fn next_step(skip_json_errors: bool, loaded: bool) -> (step: Step)
    ensures
        step == step_after(skip_json_errors, loaded),
{
    if loaded {
        Step::Deliver
    } else if skip_json_errors {
        Step::Skip
    } else {
        Step::Abort
    }
}

} // verus!
