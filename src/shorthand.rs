//! Inline shorthand in free-text task input: `!h`, `!m`, `!l` set the
//! priority and `@today`, `@tomorrow` set the due date. The first token of
//! each kind found in the text as typed, in that fixed order, wins. The
//! winning tokens are deleted, the rest is trimmed, and this repeats until
//! neither token occurs any more.

use vstd::prelude::*;
use vstd::string::StringExecFns;

use crate::task::{TaskPriority, Timestamp, TIMESTAMP_LIMIT};
use crate::text::{
    contains, contains_token, has_token, lemma_strip_shrinks, remove_all, remove_token, trim, trim_str,
};

verus! {

/// A due date given relative to the moment the task is added.
#[derive(Debug, Clone, Copy, PartialEq, Eq, Structural)]
pub enum DueShorthand {
    Today,
    Tomorrow,
}

/// `s` with the tokens `a` and `b` deleted: every occurrence of the first of
/// them still present goes and the rest is trimmed, again and again, until
/// neither occurs. An empty token stands for none.
pub open spec fn strip_tokens(s: Seq<char>, a: Seq<char>, b: Seq<char>) -> Seq<char>
    decreases s.len()
    via strip_tokens_decreases
{
    if has_token(s, a) {
        strip_tokens(trim(remove_all(s, a)), a, b)
    } else if has_token(s, b) {
        strip_tokens(trim(remove_all(s, b)), a, b)
    } else {
        s
    }
}

#[via_fn]
proof fn strip_tokens_decreases(s: Seq<char>, a: Seq<char>, b: Seq<char>) {
    if has_token(s, a) {
        lemma_strip_shrinks(s, a);
    } else if has_token(s, b) {
        lemma_strip_shrinks(s, b);
    }
}

/// Neither token is left once they are stripped.
pub proof fn lemma_strip_tokens_clean(s: Seq<char>, a: Seq<char>, b: Seq<char>)
    ensures
        !has_token(strip_tokens(s, a, b), a),
        !has_token(strip_tokens(s, a, b), b),
    decreases s.len(),
{
    if has_token(s, a) {
        lemma_strip_shrinks(s, a);
        lemma_strip_tokens_clean(trim(remove_all(s, a)), a, b);
    } else if has_token(s, b) {
        lemma_strip_shrinks(s, b);
        lemma_strip_tokens_clean(trim(remove_all(s, b)), a, b);
    }
}

/// The priority that the text asks for: the first of `!h`, `!m`, `!l` that
/// occurs in it, `Low` if none does.
pub open spec fn shorthand_priority(raw: Seq<char>) -> TaskPriority {
    if contains(raw, "!h"@) {
        TaskPriority::High
    } else if contains(raw, "!m"@) {
        TaskPriority::Medium
    } else {
        TaskPriority::Low
    }
}

/// The priority token that wins, or the empty text if none occurs.
pub open spec fn priority_token(raw: Seq<char>) -> Seq<char> {
    if contains(raw, "!h"@) {
        "!h"@
    } else if contains(raw, "!m"@) {
        "!m"@
    } else if contains(raw, "!l"@) {
        "!l"@
    } else {
        Seq::empty()
    }
}

/// The due date that the text asks for: the first of `@today`, `@tomorrow`
/// that occurs in it.
pub open spec fn shorthand_due(raw: Seq<char>) -> Option<DueShorthand> {
    if contains(raw, "@today"@) {
        Some(DueShorthand::Today)
    } else if contains(raw, "@tomorrow"@) {
        Some(DueShorthand::Tomorrow)
    } else {
        None
    }
}

/// The due-date token that wins, or the empty text if none occurs.
pub open spec fn due_token(raw: Seq<char>) -> Seq<char> {
    if contains(raw, "@today"@) {
        "@today"@
    } else if contains(raw, "@tomorrow"@) {
        "@tomorrow"@
    } else {
        Seq::empty()
    }
}

/// What is left of the text once its winning tokens are taken out. Text
/// without any token is kept as typed.
pub open spec fn shorthand_content(raw: Seq<char>) -> Seq<char> {
    strip_tokens(raw, priority_token(raw), due_token(raw))
}

/// The due date that `due` names when the task is added at `now`.
pub open spec fn due_date_at(due: Option<DueShorthand>, now: Timestamp) -> Option<Timestamp> {
    match due {
        Some(DueShorthand::Today) => Some(now),
        Some(DueShorthand::Tomorrow) => Some(now.spec_next_day()),
        None => None,
    }
}

/// Free-text input split into its content and the metadata its shorthand
/// asked for.
#[derive(Debug)]
pub struct Shorthand {
    pub content: String,
    pub priority: TaskPriority,
    pub due: Option<DueShorthand>,
}

/// `raw` with the tokens `a` and `b` stripped (see `strip_tokens`).
pub fn strip_tokens_str(raw: &str, a: &str, b: &str) -> (r: String)
    ensures
        r@ == strip_tokens(raw@, a@, b@),
{
    let mut cur = String::from_str(raw);
    loop
        invariant
            strip_tokens(cur@, a@, b@) == strip_tokens(raw@, a@, b@),
        ensures
            cur@ == strip_tokens(raw@, a@, b@),
        decreases cur@.len(),
    {
        if !a.is_empty() && contains_token(cur.as_str(), a) {
            proof {
                lemma_strip_shrinks(cur@, a@);
            }
            let removed = remove_token(cur.as_str(), a);
            cur = trim_str(removed.as_str());
        } else if !b.is_empty() && contains_token(cur.as_str(), b) {
            proof {
                lemma_strip_shrinks(cur@, b@);
            }
            let removed = remove_token(cur.as_str(), b);
            cur = trim_str(removed.as_str());
        } else {
            break;
        }
    }
    cur
}

/// Splits `raw` into content, priority and due date. The tokens are looked
/// for in `raw` as typed; the winning ones are then stripped from it.
pub fn parse_shorthand(raw: &str) -> (r: Shorthand)
    ensures
        r.content@ == shorthand_content(raw@),
        r.priority == shorthand_priority(raw@),
        r.due == shorthand_due(raw@),
        !has_token(r.content@, priority_token(raw@)),
        !has_token(r.content@, due_token(raw@)),
{
    proof {
        reveal_strlit("");
    }
    let (priority, p_tok) = if contains_token(raw, "!h") {
        (TaskPriority::High, "!h")
    } else if contains_token(raw, "!m") {
        (TaskPriority::Medium, "!m")
    } else if contains_token(raw, "!l") {
        (TaskPriority::Low, "!l")
    } else {
        (TaskPriority::Low, "")
    };
    let (due, d_tok) = if contains_token(raw, "@today") {
        (Some(DueShorthand::Today), "@today")
    } else if contains_token(raw, "@tomorrow") {
        (Some(DueShorthand::Tomorrow), "@tomorrow")
    } else {
        (None, "")
    };
    assert(Seq::<char>::empty() =~= ""@);
    let content = strip_tokens_str(raw, p_tok, d_tok);
    proof {
        lemma_strip_tokens_clean(raw@, priority_token(raw@), due_token(raw@));
    }
    Shorthand { content, priority, due }
}

/// The due date that `due` names for a task added at `now`.
pub fn due_date_from(due: Option<DueShorthand>, now: Timestamp) -> (r: Option<Timestamp>)
    requires
        -TIMESTAMP_LIMIT < now.secs < TIMESTAMP_LIMIT,
    ensures
        r == due_date_at(due, now),
{
    match due {
        Some(DueShorthand::Today) => Some(now),
        Some(DueShorthand::Tomorrow) => Some(now.next_day()),
        None => None,
    }
}

} // verus!
