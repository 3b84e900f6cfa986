//! The user's display name.
use vstd::prelude::*;
use crate::text::{to_chars, is_control, is_control_char, trim_bounds, trim_spec, string_of_range};

verus! {

/// The longest username kept, in characters.
pub const MAX_USERNAME_LEN: usize = 32usize;

/// `s` without its control characters.
pub open spec fn drop_controls(s: Seq<char>) -> Seq<char>
    decreases s.len(),
{
    if s.len() == 0 {
        Seq::empty()
    } else if is_control_char(s.last()) {
        drop_controls(s.drop_last())
    } else {
        drop_controls(s.drop_last()).push(s.last())
    }
}

/// The username kept for `raw`: control characters removed, whitespace
/// trimmed, at most `MAX_USERNAME_LEN` characters; nothing when that leaves
/// an empty name.
pub open spec fn sanitized(raw: Seq<char>) -> Option<Seq<char>> {
    let t = trim_spec(drop_controls(raw));
    if t.len() == 0 {
        None
    } else if t.len() > MAX_USERNAME_LEN {
        Some(t.take(MAX_USERNAME_LEN as int))
    } else {
        Some(t)
    }
}

/// Cleans a username typed by the user.
pub fn sanitize_username(raw: &str) -> (r: Option<String>)
    ensures
        r is Some == sanitized(raw@) is Some,
        r matches Some(s) ==> Some(s@) == sanitized(raw@),
{
    let mut cleaned: Vec<char> = Vec::new();
    for c in it: raw.chars()
        invariant
            it.seq() == raw@,
            cleaned@ == drop_controls(raw@.take(it.index() as int)),
    {
        proof {
            let t = raw@.take(it.index() + 1);
            assert(t.drop_last() == raw@.take(it.index() as int));
            assert(t.last() == c);
        }
        if !is_control(c) {
            cleaned.push(c);
        }
    }
    assert(raw@.take(raw@.len() as int) == raw@);
    let (lo, hi) = trim_bounds(&cleaned);
    if lo == hi {
        return None;
    }
    let end = if hi - lo > MAX_USERNAME_LEN {
        lo + MAX_USERNAME_LEN
    } else {
        hi
    };
    let out = string_of_range(&cleaned, lo, end);
    proof {
        let t = cleaned@.subrange(lo as int, hi as int);
        if hi - lo > MAX_USERNAME_LEN {
            assert(cleaned@.subrange(lo as int, end as int) == t.take(MAX_USERNAME_LEN as int));
        }
    }
    Some(out)
}

/// The identity shown to the user.
pub struct IdentityDto {
    pub username: Option<String>,
}

/// A sanitized username is never empty, never longer than
/// `MAX_USERNAME_LEN` characters, and holds no control character.
pub proof fn law_sanitized_username_is_clean(raw: Seq<char>)
    ensures
        sanitized(raw) matches Some(name) ==> 0 < name.len() <= MAX_USERNAME_LEN && forall|i: int|
            0 <= i < name.len() ==> !is_control_char(#[trigger] name[i]),
{
    lemma_drop_controls(raw);
    let d = drop_controls(raw);
    lemma_trim_is_subrange(d);
    if sanitized(raw) is Some {
        let name = sanitized(raw).unwrap();
        let t = trim_spec(d);
        assert forall|i: int| 0 <= i < name.len() implies !is_control_char(#[trigger] name[i]) by {
            assert(name[i] == t[i]);
            let (a, b) = choose|a: int, b: int| 0 <= a <= b <= d.len() && t == #[trigger] d.subrange(a, b);
            assert(t[i] == d[a + i]);
        }
    }
}

proof fn lemma_drop_controls(s: Seq<char>)
    ensures
        forall|i: int| 0 <= i < drop_controls(s).len() ==> !is_control_char(#[trigger] drop_controls(s)[i]),
    decreases s.len(),
{
    if s.len() > 0 {
        let t = s.drop_last();
        lemma_drop_controls(t);
        let d = drop_controls(s);
        assert forall|i: int| 0 <= i < d.len() implies !is_control_char(#[trigger] d[i]) by {
            if i < drop_controls(t).len() {
                assert(d[i] == drop_controls(t)[i]);
            }
        }
    }
}

proof fn lemma_trim_is_subrange(s: Seq<char>)
    ensures
        exists|a: int, b: int| 0 <= a <= b <= s.len() && trim_spec(s) == #[trigger] s.subrange(a, b),
{
    let a = lemma_trim_start_subrange(s);
    let s1 = s.subrange(a, s.len() as int);
    let b = lemma_trim_end_subrange(s1);
    assert(s1.subrange(0, b) == s.subrange(a, a + b));
}

proof fn lemma_trim_start_subrange(s: Seq<char>) -> (a: int)
    ensures
        0 <= a <= s.len(),
        crate::text::trim_start_spec(s) == s.subrange(a, s.len() as int),
    decreases s.len(),
{
    if s.len() > 0 && crate::text::is_ws(s[0]) {
        let t = s.drop_first();
        let a = lemma_trim_start_subrange(t);
        assert(t.subrange(a, t.len() as int) == s.subrange(a + 1, s.len() as int));
        a + 1
    } else {
        assert(s.subrange(0, s.len() as int) == s);
        0
    }
}

proof fn lemma_trim_end_subrange(s: Seq<char>) -> (b: int)
    ensures
        0 <= b <= s.len(),
        crate::text::trim_end_spec(s) == s.subrange(0, b),
    decreases s.len(),
{
    if s.len() > 0 && crate::text::is_ws(s.last()) {
        let t = s.drop_last();
        let b = lemma_trim_end_subrange(t);
        assert(t.subrange(0, b) == s.subrange(0, b));
        b
    } else {
        assert(s.subrange(0, s.len() as int) == s);
        s.len() as int
    }
}

} // verus!
