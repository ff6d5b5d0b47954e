//! The message model, the decision the engine takes, and the leaf name of an
//! IMAP folder path.

use vstd::prelude::*;

use crate::text::chars_of;

verus! {

/// A single mail message, projected from IMAP into the fields the rules read.
///
/// `age_seconds` is computed by the fetch layer (now minus the received time,
/// in whole seconds) so the engine stays clock-free and deterministic.
#[derive(Debug, Clone)]
pub struct MailMessage {
    pub id: String,
    /// IMAP folder the message lives in, e.g. `INBOX`, `Junk`, `Archive/GitHub`.
    pub folder: String,
    pub subject: String,
    /// Sender email address, lower-cased, or "" if absent.
    pub from_address: String,
    /// Sender display name, or "" if absent.
    pub from_name: String,
    /// First chunk of the body, plain text.
    pub body_preview: String,
    /// Whole-message age in seconds.
    pub age_seconds: i64,
    pub is_read: bool,
}

/// What the engine decides to do with a message.
#[derive(Debug, Clone, Copy, PartialEq, Eq, Structural)]
pub enum Decision {
    Keep,
    MarkRead,
    Delete,
}

/// A decision plus a human-readable reason (usually the matching rule's name).
#[derive(Debug, Clone)]
pub struct Verdict {
    pub decision: Decision,
    pub reason: String,
}

/// Pluggable decision engine; the rule-based classifier implements it.
pub trait Classifier {
    fn classify(&self, message: &MailMessage) -> Verdict;
}

/// Position of the last `/` in `s`, or -1.
pub open spec fn last_slash(s: Seq<char>) -> int
    decreases s.len(),
{
    if s.len() == 0 {
        -1
    } else if s.last() == '/' {
        s.len() - 1
    } else {
        last_slash(s.drop_last())
    }
}

/// The leaf of a `/`-separated folder path: everything after the last `/`.
pub open spec fn leaf_name(s: Seq<char>) -> Seq<char> {
    s.subrange(last_slash(s) + 1, s.len() as int)
}

proof fn lemma_last_slash(s: Seq<char>)
    ensures
        -1 <= last_slash(s) < s.len(),
        last_slash(s) >= 0 ==> s[last_slash(s)] == '/',
        forall|j: int| last_slash(s) < j < s.len() ==> s[j] != '/',
    decreases s.len(),
{
    if s.len() > 0 {
        lemma_last_slash(s.drop_last());
        assert forall|j: int| 0 <= j < s.len() - 1 implies #[trigger] s.drop_last()[j] == s[j] by {}
        assert forall|j: int| last_slash(s) < j < s.len() implies s[j] != '/' by {
            if s.last() != '/' && j < s.len() - 1 {
                assert(s.drop_last()[j] != '/');
            }
        }
    }
}

/// The leaf name of a (possibly nested) IMAP folder path, so rules can match
/// `Archive/GitHub` as just `GitHub`. Uses the IMAP `/` delimiter.
pub fn folder_name(folder: &str) -> (r: &str)
    ensures
        r@ == leaf_name(folder@),
{
    let chars = chars_of(folder);
    let mut i: usize = chars.len();
    while i > 0
        invariant
            chars@ == folder@,
            i <= chars.len(),
            forall|j: int| i <= j < chars.len() ==> chars@[j] != '/',
        ensures
            i == 0 || chars@[i - 1] == '/',
            forall|j: int| i <= j < chars.len() ==> chars@[j] != '/',
        decreases i,
    {
        if chars[i - 1] == '/' {
            break;
        }
        i -= 1;
    }
    proof {
        lemma_last_slash(folder@);
        let ls = last_slash(folder@);
        if i > 0 {
            assert(chars@[i - 1] == '/');
            if ls > i - 1 {
                assert(folder@[ls] == '/');
            }
            if ls < i - 1 {
                assert(folder@[i - 1] != '/');
            }
        } else if ls >= 0 {
            assert(folder@[ls] == '/');
        }
    }
    folder.substring_char(i, chars.len())
}

} // verus!
