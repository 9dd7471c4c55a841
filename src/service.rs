//! The decisions of submission and retrieval. The persistent store is reached
//! by the caller: these functions say what to do next and take back what the
//! store answered.
use vstd::prelude::*;
use crate::cache::{ExpiringCache, placed_by_time};
use crate::text::utf8_len;

verus! {

/// How long a paste lives: one week, in milliseconds.
pub const PASTE_LIFETIME_MS: i64 = 604800000;

/// The upload limit in KiB when none is configured.
pub const DEFAULT_UPLOAD_LIMIT_KIB: u64 = 1024;

/// The upload limit in bytes for a configured limit in KiB.
pub open spec fn upload_limit_bytes(size_limit_kib: Option<u64>) -> int {
    match size_limit_kib {
        Some(k) => k * 1024,
        None => DEFAULT_UPLOAD_LIMIT_KIB * 1024,
    }
}

/// Whether a declared upload length passes the configured limit.
pub fn upload_too_large(declared_len: u64, size_limit_kib: Option<u64>) -> (r: bool)
    ensures
        r == (declared_len as int > upload_limit_bytes(size_limit_kib)),
{
    let kib: u64 = match size_limit_kib {
        Some(k) => k,
        None => DEFAULT_UPLOAD_LIMIT_KIB,
    };
    declared_len as u128 > kib as u128 * 1024
}

/// When a paste stored at `now` (milliseconds) expires; none when that time
/// cannot be represented.
pub fn expiry_after(now: i64) -> (r: Option<i64>)
    ensures
        r == (if now + PASTE_LIFETIME_MS <= i64::MAX {
            Some((now + PASTE_LIFETIME_MS) as i64)
        } else {
            None::<i64>
        }),
{
    now.checked_add(PASTE_LIFETIME_MS)
}

/// What a form field of a submission is to the submission.
#[derive(Debug, PartialEq, Eq, Structural)]
pub enum FieldVerdict {
    /// The field that holds the text.
    Contents,
    /// Another field, passed over.
    Other,
    /// A field without a name.
    Invalid,
}

/// The name of the field that holds a submission's text.
pub open spec fn contents_field_name() -> Seq<char> {
    seq!['c', 'o', 'n', 't', 'e', 'n', 't', 's']
}

fn is_contents_name(n: &str) -> (r: bool)
    ensures
        r == (n@ == contents_field_name()),
{
    let expected = "contents";
    proof {
        reveal_strlit("contents");
        assert(expected@ =~= contents_field_name());
    }
    if n.unicode_len() != 8 {
        return false;
    }
    let mut i: usize = 0;
    while i < 8
        invariant
            i <= 8,
            n@.len() == 8,
            expected@ == contents_field_name(),
            forall|j: int| 0 <= j < i ==> n@[j] == expected@[j],
        decreases 8 - i,
    {
        if n.get_char(i) != expected.get_char(i) {
            proof {
                assert(n@[i as int] != contents_field_name()[i as int]);
            }
            return false;
        }
        i = i + 1;
    }
    proof {
        assert(n@ =~= contents_field_name());
    }
    true
}

/// Classifies a form field by its name.
pub fn classify_field(name: Option<&str>) -> (r: FieldVerdict)
    ensures
        r == (match name {
            None => FieldVerdict::Invalid,
            Some(n) => if n@ == contents_field_name() {
                FieldVerdict::Contents
            } else {
                FieldVerdict::Other
            },
        }),
{
    match name {
        None => FieldVerdict::Invalid,
        Some(n) => if is_contents_name(n) {
            FieldVerdict::Contents
        } else {
            FieldVerdict::Other
        },
    }
}

/// A character that a paste key may hold: an ASCII letter or digit.
pub open spec fn is_key_char(c: char) -> bool {
    ('A' <= c && c <= 'Z') || ('a' <= c && c <= 'z') || ('0' <= c && c <= '9')
}

/// A paste key: eight letters or digits.
pub open spec fn is_paste_key(s: Seq<char>) -> bool {
    s.len() == 8 && forall|i: int| 0 <= i < s.len() ==> is_key_char(#[trigger] s[i])
}

/// Relies on random_string::generate: a text of the given length, each
/// character drawn from the charset, here the ASCII letters and digits.
#[verifier::external_body]
fn random_key() -> (r: String)
    ensures
        is_paste_key(r@),
{
    random_string::generate(8, "ABCDEFGHIJKLMNOPQRSTUVWXYZabcdefghijklmnopqrstuvwxyz1234567890")
}

/// Where a submission stands.
#[derive(Debug)]
pub enum Submission {
    /// A key is to be drawn; `collided` is the key that the store last refused.
    Drawing { collided: Option<String> },
    /// The text is being stored under `key`.
    Storing { key: String },
    /// The text is stored under `key`.
    Stored { key: String },
    /// The store failed.
    Failed,
}

/// What the caller reports to a submission.
#[derive(Debug, PartialEq, Eq, Structural)]
pub enum SubmitEvent {
    /// Go on from a drawing state.
    Begin,
    /// The store took the row.
    Inserted,
    /// The store already holds a row under the key.
    KeyTaken,
    /// The store failed otherwise.
    StoreFailed,
}

/// What the caller is to do next.
#[derive(Debug, PartialEq, Eq, Structural)]
pub enum SubmitAction {
    /// Insert the row under the key of the `Storing` state.
    Insert,
    /// Report `Begin` again: the draw matched the key that was refused.
    DrawAgain,
    /// The paste is stored under the key of the `Stored` state.
    Finish,
    /// The store failed: the submission ends with an internal error.
    Abort,
}

/// Storing under `drawn`, unless it is the key that was refused.
pub open spec fn after_draw(collided: Option<String>, drawn: String) -> (Submission, SubmitAction) {
    match collided {
        Some(c) => if c@ == drawn@ {
            (Submission::Drawing { collided: Some(c) }, SubmitAction::DrawAgain)
        } else {
            (Submission::Storing { key: drawn }, SubmitAction::Insert)
        },
        None => (Submission::Storing { key: drawn }, SubmitAction::Insert),
    }
}

/// The next state and action of a submission, where `drawn` is the key that a
/// fresh draw gave; it is used only where a key is needed.
pub open spec fn submit_next(s: Submission, e: SubmitEvent, drawn: String) -> (Submission, SubmitAction) {
    match s {
        Submission::Drawing { collided } => match e {
            SubmitEvent::Begin => after_draw(collided, drawn),
            _ => (Submission::Failed, SubmitAction::Abort),
        },
        Submission::Storing { key } => match e {
            SubmitEvent::Inserted => (Submission::Stored { key }, SubmitAction::Finish),
            SubmitEvent::KeyTaken => after_draw(Some(key), drawn),
            _ => (Submission::Failed, SubmitAction::Abort),
        },
        _ => (Submission::Failed, SubmitAction::Abort),
    }
}

fn draw_from(collided: Option<String>, drawn: String) -> (r: (Submission, SubmitAction))
    ensures
        r == after_draw(collided, drawn),
{
    match collided {
        Some(c) => if c == drawn {
            (Submission::Drawing { collided: Some(c) }, SubmitAction::DrawAgain)
        } else {
            (Submission::Storing { key: drawn }, SubmitAction::Insert)
        },
        None => (Submission::Storing { key: drawn }, SubmitAction::Insert),
    }
}

/// One step of a submission, with the key of a fresh draw given.
pub fn submit_transition(s: Submission, e: SubmitEvent, drawn: String) -> (r: (Submission, SubmitAction))
    ensures
        r == submit_next(s, e, drawn),
{
    match s {
        Submission::Drawing { collided } => match e {
            SubmitEvent::Begin => draw_from(collided, drawn),
            _ => (Submission::Failed, SubmitAction::Abort),
        },
        Submission::Storing { key } => match e {
            SubmitEvent::Inserted => (Submission::Stored { key }, SubmitAction::Finish),
            SubmitEvent::KeyTaken => draw_from(Some(key), drawn),
            _ => (Submission::Failed, SubmitAction::Abort),
        },
        _ => (Submission::Failed, SubmitAction::Abort),
    }
}

/// One step of a submission; a key, where one is needed, is drawn at random.
pub fn submit_step(s: Submission, e: SubmitEvent) -> (r: (Submission, SubmitAction))
    ensures
        exists|drawn: String| is_paste_key(drawn@) && r == submit_next(s, e, drawn),
{
    let drawn = random_key();
    submit_transition(s, e, drawn)
}

/// A submission whose first key is refused goes on under the next key drawn,
/// which differs from the refused one; it never asks for a second insert
/// under the refused key, and it is done once the store takes the row.
pub proof fn law_collision_retry(k1: String, k2: String, k3: String)
    requires
        k2@ != k1@,
    ensures
        submit_next(Submission::Storing { key: k1 }, SubmitEvent::KeyTaken, k2)
            == (Submission::Storing { key: k2 }, SubmitAction::Insert),
        submit_next(Submission::Storing { key: k2 }, SubmitEvent::Inserted, k3)
            == (Submission::Stored { key: k2 }, SubmitAction::Finish),
        !(submit_next(Submission::Storing { key: k1 }, SubmitEvent::KeyTaken, k3).0 matches Submission::Storing { key } && key@ == k1@),
        !(submit_next(Submission::Drawing { collided: Some(k1) }, SubmitEvent::Begin, k3).0 matches Submission::Storing { key } && key@ == k1@),
{
}

/// What the persistent store answered to a lookup.
#[derive(Debug)]
pub enum StoreLookup {
    Found(String),
    Missing,
    Failed,
}

/// The outcome of a retrieval.
#[derive(Debug)]
pub enum Retrieval {
    Content(String),
    NotFound,
    Internal,
}

/// Finishes a retrieval that missed the cache with what the store answered:
/// found content is put in the cache and returned; a missing row is reported
/// as not found; a failure is an internal error and leaves the cache alone.
pub fn finish_lookup(cache: &mut ExpiringCache, key: String, answer: StoreLookup) -> (r: Retrieval)
    requires
        old(cache).wf(),
    ensures
        final(cache).wf(),
        final(cache).capacity() == old(cache).capacity(),
        match answer {
            StoreLookup::Found(c) => {
                &&& r matches Retrieval::Content(v) && v@ == c@
                &&& if old(cache).enabled() && old(cache).size() + utf8_len(c@) <= u64::MAX {
                    &&& final(cache).contents() == old(cache).contents().insert(key@, c@)
                    &&& exists|at: i64| placed_by_time(old(cache).queue(), (at as int, key@), final(cache).queue())
                } else {
                    &&& final(cache).contents() == old(cache).contents()
                    &&& final(cache).queue() == old(cache).queue()
                }
            },
            StoreLookup::Missing => r is NotFound && final(cache).contents() == old(cache).contents()
                && final(cache).queue() == old(cache).queue(),
            StoreLookup::Failed => r is Internal && final(cache).contents() == old(cache).contents()
                && final(cache).queue() == old(cache).queue(),
        },
{
    match answer {
        StoreLookup::Found(c) => {
            let kept = c.clone();
            cache.put(key, c);
            Retrieval::Content(kept)
        },
        StoreLookup::Missing => Retrieval::NotFound,
        StoreLookup::Failed => Retrieval::Internal,
    }
}

} // verus!
