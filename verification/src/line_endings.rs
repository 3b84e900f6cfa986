//! Line endings of text files: files are edited with `\n` only and written
//! back with `\r\n` when they came with it, so that a CRLF file round-trips
//! byte for byte.
use vstd::prelude::*;
use crate::text::push_char;

verus! {

/// `text.replace("\r\n", "\n").replace('\r', "\n")`: every `\r` becomes
/// `\n`, and a `\n` right after a `\r` is dropped.
pub open spec fn normalize_spec(s: Seq<char>) -> Seq<char>
    decreases s.len(),
{
    if s.len() == 0 {
        Seq::empty()
    } else {
        let prev = normalize_spec(s.drop_last());
        let c = s.last();
        if c == '\r' {
            prev.push('\n')
        } else if c == '\n' && s.len() >= 2 && s[s.len() - 2] == '\r' {
            prev
        } else {
            prev.push(c)
        }
    }
}

/// `text.contains("\r\n")`.
pub open spec fn has_crlf(s: Seq<char>) -> bool {
    exists|i: int| 0 <= i && i + 1 < s.len() && #[trigger] s[i] == '\r' && s[i + 1] == '\n'
}

/// `text.replace('\n', "\r\n")`.
pub open spec fn crlf_spec(s: Seq<char>) -> Seq<char>
    decreases s.len(),
{
    if s.len() == 0 {
        Seq::empty()
    } else {
        let prev = crlf_spec(s.drop_last());
        if s.last() == '\n' {
            prev.push('\r').push('\n')
        } else {
            prev.push(s.last())
        }
    }
}

/// No `\r` in `s`.
pub open spec fn no_cr(s: Seq<char>) -> bool {
    forall|i: int| 0 <= i < s.len() ==> #[trigger] s[i] != '\r'
}

/// Every line break of `s` is `\r\n`: each `\r` is followed by `\n` and each
/// `\n` follows a `\r`.
pub open spec fn crlf_only(s: Seq<char>) -> bool {
    &&& forall|i: int| 0 <= i < s.len() && #[trigger] s[i] == '\r' ==> i + 1 < s.len() && s[i + 1] == '\n'
    &&& forall|i: int| 0 <= i < s.len() && #[trigger] s[i] == '\n' ==> i >= 1 && s[i - 1] == '\r'
}

/// Replaces `\r\n` and lone `\r` by `\n`.
pub fn normalize_line_endings(text: &str) -> (out: String)
    ensures
        out@ == normalize_spec(text@),
{
    let mut out = String::new();
    let mut after_cr = false;
    for c in it: text.chars()
        invariant
            it.seq() == text@,
            out@ == normalize_spec(text@.take(it.index() as int)),
            after_cr == (it.index() > 0 && text@[it.index() - 1] == '\r'),
    {
        proof {
            let t = text@.take(it.index() + 1);
            assert(t.drop_last() == text@.take(it.index() as int));
            assert(t.last() == c);
            if it.index() > 0 {
                assert(t[t.len() - 2] == text@[it.index() - 1]);
            }
        }
        if c == '\r' {
            push_char(&mut out, '\n');
            after_cr = true;
        } else if c == '\n' && after_cr {
            after_cr = false;
        } else {
            push_char(&mut out, c);
            after_cr = false;
        }
    }
    assert(text@.take(text@.len() as int) == text@);
    out
}

/// Whether `text` holds a `\r`.
fn contains_cr(text: &str) -> (r: bool)
    ensures
        r == !no_cr(text@),
{
    for c in it: text.chars()
        invariant
            it.seq() == text@,
            forall|j: int| 0 <= j < it.index() ==> #[trigger] text@[j] != '\r',
    {
        if c == '\r' {
            assert(text@[it.index() as int] == '\r');
            return true;
        }
    }
    false
}

/// Text that holds a `\r` normalizes to text that is not empty.
proof fn lemma_normalize_nonempty(s: Seq<char>)
    requires
        !no_cr(s),
    ensures
        normalize_spec(s).len() > 0,
    decreases s.len(),
{
    let t = s.drop_last();
    if s.last() != '\r' {
        let i = choose|i: int| 0 <= i < s.len() && #[trigger] s[i] == '\r';
        assert(t[i] == '\r');
        lemma_normalize_nonempty(t);
    }
}

/// What a loaded document's text needs: a text without
/// `\r` keeps its document (`None`); otherwise the document is rebuilt from
/// the normalized text, which is then never empty.
pub fn crlf_rebuild_text(text: &str) -> (r: Option<String>)
    ensures
        r is None <==> no_cr(text@),
        r matches Some(t) ==> t@ == normalize_spec(text@) && t@.len() > 0,
{
    if !contains_cr(text) {
        return None;
    }
    proof {
        lemma_normalize_nonempty(text@);
    }
    Some(normalize_line_endings(text))
}

/// Whether `text` contains `\r\n`.
pub fn contains_crlf(text: &str) -> (r: bool)
    ensures
        r == has_crlf(text@),
{
    let mut after_cr = false;
    for c in it: text.chars()
        invariant
            it.seq() == text@,
            after_cr == (it.index() > 0 && text@[it.index() - 1] == '\r'),
            !has_crlf(text@.take(it.index() as int)),
    {
        proof {
            let t = text@.take(it.index() + 1);
            let u = text@.take(it.index() as int);
            assert(t.last() == c);
            if c == '\n' && after_cr {
                assert(t[it.index() - 1] == '\r' && t[it.index() as int] == '\n');
            }
            assert forall|i: int| 0 <= i && i + 1 < t.len() && #[trigger] t[i] == '\r' implies t[i
                + 1] != '\n' || (c == '\n' && after_cr) by {
                if i + 1 < u.len() {
                    assert(u[i] == t[i] && u[i + 1] == t[i + 1]);
                }
            }
        }
        if c == '\n' && after_cr {
            proof {
                assert(text@[it.index() - 1] == '\r' && text@[it.index() as int] == '\n');
            }
            return true;
        }
        after_cr = c == '\r';
    }
    assert(text@.take(text@.len() as int) == text@);
    false
}

/// Writes every `\n` as `\r\n`.
pub fn to_crlf(text: &str) -> (out: String)
    ensures
        out@ == crlf_spec(text@),
{
    let mut out = String::new();
    for c in it: text.chars()
        invariant
            it.seq() == text@,
            out@ == crlf_spec(text@.take(it.index() as int)),
    {
        proof {
            let t = text@.take(it.index() + 1);
            assert(t.drop_last() == text@.take(it.index() as int));
            assert(t.last() == c);
        }
        if c == '\n' {
            push_char(&mut out, '\r');
            push_char(&mut out, '\n');
        } else {
            push_char(&mut out, c);
        }
    }
    assert(text@.take(text@.len() as int) == text@);
    out
}

/// The text written to a text file: `\r\n` line breaks when the
/// file had them, the editor's text as it is otherwise.
pub fn text_for_write(text: &str, use_crlf: bool) -> (out: String)
    ensures
        out@ == if use_crlf {
            crlf_spec(text@)
        } else {
            text@
        },
{
    if use_crlf {
        to_crlf(text)
    } else {
        crate::text::owned(text)
    }
}

/// Normalized text holds no `\r`.
pub proof fn law_normalized_has_no_cr(s: Seq<char>)
    ensures
        no_cr(normalize_spec(s)),
    decreases s.len(),
{
    if s.len() > 0 {
        law_normalized_has_no_cr(s.drop_last());
    }
}

/// Text without `\r` is left as it is and has no `\r\n`.
pub proof fn law_lf_text_unchanged(s: Seq<char>)
    requires
        no_cr(s),
    ensures
        normalize_spec(s) == s,
        !has_crlf(s),
    decreases s.len(),
{
    if s.len() > 0 {
        law_lf_text_unchanged(s.drop_last());
        assert(s.drop_last().push(s.last()) == s);
    }
}

/// Normalizing twice is normalizing once.
pub proof fn law_normalize_idempotent(s: Seq<char>)
    ensures
        normalize_spec(normalize_spec(s)) == normalize_spec(s),
{
    law_normalized_has_no_cr(s);
    law_lf_text_unchanged(normalize_spec(s));
}

/// A file whose every line break is `\r\n` comes back byte for byte when it
/// is normalized for editing and written with `\r\n` again.
pub proof fn law_crlf_text_round_trips(s: Seq<char>)
    requires
        crlf_only(s),
    ensures
        crlf_spec(normalize_spec(s)) == s,
    decreases s.len(),
{
    if s.len() > 0 {
        let c = s.last();
        let n = s.len();
        assert(c != '\r') by {
            if c == '\r' {
                assert(s[n - 1] == '\r');
            }
        }
        if c == '\n' {
            assert(s[n - 1] == '\n');
            let t = s.subrange(0, n - 2);
            assert(s.drop_last().drop_last() == t);
            assert(crlf_only(t)) by {
                assert forall|i: int| 0 <= i < t.len() && #[trigger] t[i] == '\r' implies i + 1
                    < t.len() && t[i + 1] == '\n' by {
                    assert(s[i] == '\r');
                    if i + 1 == t.len() {
                        assert(s[n - 2] == '\r');
                        assert(s[n - 1] == '\n');
                        assert(s[i + 1] == '\n');
                        assert(s[n - 2] != '\n');
                    }
                }
                assert forall|i: int| 0 <= i < t.len() && #[trigger] t[i] == '\n' implies i >= 1
                    && t[i - 1] == '\r' by {
                    assert(s[i] == '\n');
                }
            }
            law_crlf_text_round_trips(t);
            assert(normalize_spec(s) == normalize_spec(s.drop_last()));
            assert(s.drop_last().last() == '\r');
            assert(normalize_spec(s.drop_last()) == normalize_spec(t).push('\n'));
            let u = normalize_spec(t).push('\n');
            assert(u.drop_last() == normalize_spec(t));
            assert(crlf_spec(u) == crlf_spec(normalize_spec(t)).push('\r').push('\n'));
            assert(t.push('\r').push('\n') == s);
        } else {
            let t = s.drop_last();
            assert(crlf_only(t)) by {
                assert forall|i: int| 0 <= i < t.len() && #[trigger] t[i] == '\r' implies i + 1
                    < t.len() && t[i + 1] == '\n' by {
                    assert(s[i] == '\r');
                }
                assert forall|i: int| 0 <= i < t.len() && #[trigger] t[i] == '\n' implies i >= 1
                    && t[i - 1] == '\r' by {
                    assert(s[i] == '\n');
                }
            }
            law_crlf_text_round_trips(t);
            assert(normalize_spec(s) == normalize_spec(t).push(c));
            let u = normalize_spec(t).push(c);
            assert(u.drop_last() == normalize_spec(t));
            assert(crlf_spec(u) == crlf_spec(normalize_spec(t)).push(c));
            assert(t.push(c) == s);
        }
    }
}

/// A file with line breaks that are all `\r\n` is detected as a CRLF file.
pub proof fn law_crlf_file_detected(s: Seq<char>, i: int)
    requires
        crlf_only(s),
        0 <= i < s.len(),
        s[i] == '\n',
    ensures
        has_crlf(s),
{
    assert(s[i - 1] == '\r');
}

} // verus!
