//! Character-level text operations over the view of a string: searching for
//! a token, deleting every occurrence of it, and trimming white space.

use vstd::prelude::*;
use vstd::std_specs::iter::IteratorSpec;
use vstd::string::StrSliceExecFns;
use vstd::string::StringExecFns;

verus! {

/// Unicode `White_Space`, the set that Rust's `char::is_whitespace` and
/// `str::trim` use.
pub open spec fn is_white_space(c: char) -> bool {
    let u = c as u32;
    (0x09 <= u <= 0x0D) || u == 0x20 || u == 0x85 || u == 0xA0 || u == 0x1680 || (0x2000 <= u
        <= 0x200A) || u == 0x2028 || u == 0x2029 || u == 0x202F || u == 0x205F || u == 0x3000
}

/// Text made of white space alone (the empty text included).
pub open spec fn is_blank(s: Seq<char>) -> bool {
    forall|i: int| 0 <= i < s.len() ==> #[trigger] is_white_space(s[i])
}

/// `t` occurs in `s` starting at position `i`.
pub open spec fn occurs_at(s: Seq<char>, t: Seq<char>, i: int) -> bool {
    0 <= i && i + t.len() <= s.len() && s.subrange(i, i + t.len()) == t
}

pub open spec fn contains(s: Seq<char>, t: Seq<char>) -> bool {
    exists|i: int| occurs_at(s, t, i)
}

/// `s` with every occurrence of the non-empty token `t` deleted, scanning
/// from the left and never letting two deleted occurrences overlap.
pub open spec fn remove_all(s: Seq<char>, t: Seq<char>) -> Seq<char>
    decreases s.len(),
{
    if t.len() == 0 || s.len() < t.len() {
        s
    } else if s.subrange(0, t.len() as int) == t {
        remove_all(s.subrange(t.len() as int, s.len() as int), t)
    } else {
        seq![s[0]] + remove_all(s.drop_first(), t)
    }
}

pub open spec fn trim_start(s: Seq<char>) -> Seq<char>
    decreases s.len(),
{
    if s.len() > 0 && is_white_space(s[0]) {
        trim_start(s.drop_first())
    } else {
        s
    }
}

pub open spec fn trim_end(s: Seq<char>) -> Seq<char>
    decreases s.len(),
{
    if s.len() > 0 && is_white_space(s.last()) {
        trim_end(s.drop_last())
    } else {
        s
    }
}

/// `s` without its leading and trailing white space.
pub open spec fn trim(s: Seq<char>) -> Seq<char> {
    trim_end(trim_start(s))
}

/// `t` is a token (it is not empty) and occurs in `s`.
pub open spec fn has_token(s: Seq<char>, t: Seq<char>) -> bool {
    t.len() > 0 && contains(s, t)
}

proof fn lemma_occurs_in_tail(s: Seq<char>, t: Seq<char>, i: int)
    requires
        occurs_at(s, t, i),
        i > 0,
    ensures
        occurs_at(s.drop_first(), t, i - 1),
{
    assert(s.drop_first().subrange(i - 1, i - 1 + t.len()) =~= s.subrange(i, i + t.len()));
}

proof fn lemma_remove_all_len(s: Seq<char>, t: Seq<char>)
    requires
        t.len() > 0,
    ensures
        remove_all(s, t).len() <= s.len(),
        contains(s, t) ==> remove_all(s, t).len() < s.len(),
    decreases s.len(),
{
    if s.len() < t.len() {
    } else if s.subrange(0, t.len() as int) == t {
        lemma_remove_all_len(s.subrange(t.len() as int, s.len() as int), t);
    } else {
        lemma_remove_all_len(s.drop_first(), t);
        if contains(s, t) {
            let i = choose|i: int| occurs_at(s, t, i);
            if i == 0 {
                assert(s.subrange(0, t.len() as int) == t);
            }
            lemma_occurs_in_tail(s, t, i);
        }
    }
}

proof fn lemma_trim_start_len(s: Seq<char>)
    ensures
        trim_start(s).len() <= s.len(),
    decreases s.len(),
{
    if s.len() > 0 && is_white_space(s[0]) {
        lemma_trim_start_len(s.drop_first());
    }
}

proof fn lemma_trim_end_len(s: Seq<char>)
    ensures
        trim_end(s).len() <= s.len(),
    decreases s.len(),
{
    if s.len() > 0 && is_white_space(s.last()) {
        lemma_trim_end_len(s.drop_last());
    }
}

/// Deleting a token that occurs, then trimming, leaves a shorter text.
pub proof fn lemma_strip_shrinks(s: Seq<char>, t: Seq<char>)
    requires
        has_token(s, t),
    ensures
        trim(remove_all(s, t)).len() < s.len(),
{
    lemma_remove_all_len(s, t);
    lemma_trim_start_len(remove_all(s, t));
    lemma_trim_end_len(trim_start(remove_all(s, t)));
}

/// The characters of `s`, in order.
pub fn chars_of(s: &str) -> (v: Vec<char>)
    ensures
        v@ == s@,
{
    let mut v: Vec<char> = Vec::new();
    let mut it = s.chars();
    loop
        invariant
            v@ + it.remaining() == s@,
            it.decrease() is Some,
        ensures
            v@ == s@,
        decreases it.decrease()->0,
    {
        match it.next() {
            Some(c) => {
                v.push(c);
            },
            None => {
                assert(v@ =~= s@);
                break;
            },
        }
    }
    v
}

pub fn is_white_space_char(c: char) -> (r: bool)
    ensures
        r == is_white_space(c),
{
    let u = c as u32;
    (0x09 <= u && u <= 0x0D) || u == 0x20 || u == 0x85 || u == 0xA0 || u == 0x1680 || (0x2000
        <= u && u <= 0x200A) || u == 0x2028 || u == 0x2029 || u == 0x202F || u == 0x205F || u
        == 0x3000
}

/// Whether `s` holds nothing but white space.
pub fn is_blank_str(s: &str) -> (r: bool)
    ensures
        r == is_blank(s@),
{
    let cs = chars_of(s);
    let mut i: usize = 0;
    while i < cs.len()
        invariant
            cs@ == s@,
            i <= cs.len(),
            forall|j: int| 0 <= j < i ==> #[trigger] is_white_space(cs@[j]),
        decreases cs.len() - i,
    {
        if !is_white_space_char(cs[i]) {
            return false;
        }
        i = i + 1;
    }
    true
}

fn occurs_at_exec(s: &Vec<char>, t: &Vec<char>, i: usize) -> (r: bool)
    ensures
        r == occurs_at(s@, t@, i as int),
{
    if i > s.len() || t.len() > s.len() - i {
        return false;
    }
    let mut j: usize = 0;
    while j < t.len()
        invariant
            i + t.len() <= s.len(),
            j <= t.len(),
            forall|k: int| 0 <= k < j ==> s@[i + k] == t@[k],
        decreases t.len() - j,
    {
        if s[i + j] != t[j] {
            assert(s@.subrange(i as int, i + t.len())[j as int] != t@[j as int]);
            return false;
        }
        j = j + 1;
    }
    assert(s@.subrange(i as int, i + t.len()) =~= t@);
    true
}

/// Whether `a` and `b` hold the same characters.
pub fn same_text(a: &str, b: &str) -> (r: bool)
    ensures
        r == (a@ == b@),
{
    let ac = chars_of(a);
    let bc = chars_of(b);
    if ac.len() != bc.len() {
        return false;
    }
    let mut i: usize = 0;
    while i < ac.len()
        invariant
            ac@ == a@,
            bc@ == b@,
            ac.len() == bc.len(),
            i <= ac.len(),
            forall|k: int| 0 <= k < i ==> ac@[k] == bc@[k],
        decreases ac.len() - i,
    {
        if ac[i] != bc[i] {
            return false;
        }
        i = i + 1;
    }
    assert(a@ =~= b@);
    true
}

/// Whether the token `t` occurs in `s`.
pub fn contains_token(s: &str, t: &str) -> (r: bool)
    ensures
        r == contains(s@, t@),
{
    let cs = chars_of(s);
    let ts = chars_of(t);
    if ts.len() > cs.len() {
        assert forall|i: int| !occurs_at(s@, t@, i) by {}
        return false;
    }
    if ts.len() == 0 {
        assert(s@.subrange(0, 0) =~= t@);
        assert(occurs_at(s@, t@, 0));
        return true;
    }
    let mut i: usize = 0;
    while i <= cs.len() - ts.len()
        invariant
            cs@ == s@,
            ts@ == t@,
            0 < ts.len() <= cs.len(),
            i <= cs.len() - ts.len() + 1,
            forall|k: int| 0 <= k < i ==> !#[trigger] occurs_at(s@, t@, k),
        decreases cs.len() - ts.len() + 1 - i,
    {
        if occurs_at_exec(&cs, &ts, i) {
            return true;
        }
        i = i + 1;
    }
    assert forall|k: int| !#[trigger] occurs_at(s@, t@, k) by {
        if 0 <= k < i {
        }
    }
    false
}

proof fn lemma_remove_all_short(s: Seq<char>, t: Seq<char>)
    requires
        s.len() < t.len(),
    ensures
        remove_all(s, t) == s,
{
}

proof fn lemma_remove_all_keep(s: Seq<char>, t: Seq<char>)
    requires
        t.len() > 0,
        s.len() > 0,
        !occurs_at(s, t, 0),
    ensures
        remove_all(s, t) == seq![s[0]] + remove_all(s.drop_first(), t),
{
    if s.len() < t.len() {
        lemma_remove_all_short(s, t);
        lemma_remove_all_short(s.drop_first(), t);
        assert(s =~= seq![s[0]] + s.drop_first());
    }
}

/// `s` with every occurrence of the non-empty token `t` deleted.
pub fn remove_token(s: &str, t: &str) -> (r: String)
    requires
        t@.len() > 0,
    ensures
        r@ == remove_all(s@, t@),
{
    let cs = chars_of(s);
    let ts = chars_of(t);
    let n = cs.len();
    let m = ts.len();
    let mut out = String::new();
    let mut seg: usize = 0;
    let mut i: usize = 0;
    assert(cs@.subrange(0, n as int) =~= cs@);
    assert(out@ + cs@.subrange(0, 0) =~= Seq::<char>::empty());
    while i < n
        invariant
            cs@ == s@,
            ts@ == t@,
            n == cs.len(),
            m == ts.len(),
            m > 0,
            seg <= i <= n,
            out@ + cs@.subrange(seg as int, i as int) + remove_all(cs@.subrange(i as int, n as int), t@)
                == remove_all(s@, t@),
        decreases n - i,
    {
        let rest = Ghost(cs@.subrange(i as int, n as int));
        if occurs_at_exec(&cs, &ts, i) {
            proof {
                assert(rest@.subrange(0, m as int) =~= cs@.subrange(i as int, i + m));
                assert(rest@.subrange(m as int, rest@.len() as int) =~= cs@.subrange(
                    i + m,
                    n as int,
                ));
            }
            let piece = s.substring_char(seg, i);
            out.append(piece);
            i = i + m;
            seg = i;
            assert(cs@.subrange(seg as int, i as int) =~= Seq::<char>::empty());
        } else {
            proof {
                assert(!occurs_at(rest@, t@, 0)) by {
                    if i + m <= n {
                        assert(rest@.subrange(0, m as int) =~= cs@.subrange(i as int, i + m));
                    }
                }
                lemma_remove_all_keep(rest@, t@);
                assert(rest@.drop_first() =~= cs@.subrange(i + 1, n as int));
                assert(cs@.subrange(seg as int, i + 1) =~= cs@.subrange(seg as int, i as int).push(
                    cs@[i as int],
                ));
            }
            i = i + 1;
        }
    }
    let piece = s.substring_char(seg, n);
    out.append(piece);
    proof {
        assert(cs@.subrange(n as int, n as int) =~= Seq::<char>::empty());
        lemma_remove_all_short(Seq::<char>::empty(), t@);
    }
    assert(out@ =~= remove_all(s@, t@));
    out
}

proof fn lemma_trim_start(s: Seq<char>, k: int)
    requires
        0 <= k <= s.len(),
        forall|j: int| 0 <= j < k ==> #[trigger] is_white_space(s[j]),
        k == s.len() || !is_white_space(s[k]),
    ensures
        trim_start(s) == s.subrange(k, s.len() as int),
    decreases k,
{
    if k == 0 {
        assert(s.subrange(0, s.len() as int) =~= s);
    } else {
        let d = s.drop_first();
        assert forall|j: int| 0 <= j < k - 1 implies #[trigger] is_white_space(d[j]) by {
            assert(is_white_space(s[j + 1]));
        }
        lemma_trim_start(d, k - 1);
        assert(d.subrange(k - 1, d.len() as int) =~= s.subrange(k, s.len() as int));
    }
}

proof fn lemma_trim_end(s: Seq<char>, e: int)
    requires
        0 <= e <= s.len(),
        forall|j: int| e <= j < s.len() ==> #[trigger] is_white_space(s[j]),
        e == 0 || !is_white_space(s[e - 1]),
    ensures
        trim_end(s) == s.subrange(0, e),
    decreases s.len() - e,
{
    if e == s.len() {
        assert(s.subrange(0, e) =~= s);
    } else {
        let d = s.drop_last();
        assert forall|j: int| e <= j < d.len() implies #[trigger] is_white_space(d[j]) by {
            assert(is_white_space(s[j]));
        }
        lemma_trim_end(d, e);
        assert(d.subrange(0, e) =~= s.subrange(0, e));
    }
}

/// `s` without its leading and trailing white space.
pub fn trim_str(s: &str) -> (r: String)
    ensures
        r@ == trim(s@),
{
    let cs = chars_of(s);
    let n = cs.len();
    let mut start: usize = 0;
    while start < n && is_white_space_char(cs[start])
        invariant
            cs@ == s@,
            n == cs.len(),
            start <= n,
            forall|j: int| 0 <= j < start ==> #[trigger] is_white_space(cs@[j]),
        decreases n - start,
    {
        start = start + 1;
    }
    let mut end: usize = n;
    while end > start && is_white_space_char(cs[end - 1])
        invariant
            cs@ == s@,
            n == cs.len(),
            start <= end <= n,
            forall|j: int| end <= j < n ==> #[trigger] is_white_space(cs@[j]),
        decreases end,
    {
        end = end - 1;
    }
    proof {
        lemma_trim_start(s@, start as int);
        let mid = s@.subrange(start as int, n as int);
        assert forall|j: int| end - start <= j < mid.len() implies #[trigger] is_white_space(
            mid[j],
        ) by {
            assert(is_white_space(cs@[start + j]));
        }
        lemma_trim_end(mid, end - start);
        assert(mid.subrange(0, end - start) =~= s@.subrange(start as int, end as int));
    }
    let piece = s.substring_char(start, end);
    String::from_str(piece)
}

} // verus!
