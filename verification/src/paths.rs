//! File paths, written as strings with `/` separators: their components,
//! file name and extension as `std::path::Path` reads them on Unix, the
//! path equality of `PathBuf`, and the list of recently used files. These
//! are the Unix rules: a `\` separator or a drive prefix is read as part of
//! a name.
use vstd::prelude::*;
use crate::persistence::DocumentMeta;
use crate::text::{to_chars, string_of_chars, owned, ascii_lower, lower_chars, chars_eq};

verus! {

/// `s` split at every `/`; an empty string is one empty part.
pub open spec fn split_slash(s: Seq<char>) -> Seq<Seq<char>>
    decreases s.len(),
{
    if s.len() == 0 {
        seq![Seq::empty()]
    } else {
        let p = split_slash(s.drop_last());
        if s.last() == '/' {
            p.push(Seq::empty())
        } else {
            p.update(p.len() - 1, p.last().push(s.last()))
        }
    }
}

/// The root component.
pub open spec fn root_dir() -> Seq<char> {
    seq!['/']
}

/// The current-directory component.
pub open spec fn cur_dir() -> Seq<char> {
    seq!['.']
}

/// The parent-directory component.
pub open spec fn parent_dir() -> Seq<char> {
    seq!['.', '.']
}

/// Part `k` of a path is a component: it is not empty, and it is not `.`
/// unless it begins a relative path.
pub open spec fn is_kept(part: Seq<char>, k: int, rooted: bool) -> bool {
    part.len() > 0 && (part != cur_dir() || (k == 0 && !rooted))
}

/// The components among `parts`, in order.
pub open spec fn kept_parts(parts: Seq<Seq<char>>, rooted: bool) -> Seq<Seq<char>>
    decreases parts.len(),
{
    if parts.len() == 0 {
        Seq::empty()
    } else {
        let prev = kept_parts(parts.drop_last(), rooted);
        if is_kept(parts.last(), parts.len() - 1, rooted) {
            prev.push(parts.last())
        } else {
            prev
        }
    }
}

/// `Path::components` on Unix: the root (`/`) when the path starts with a
/// separator, then the parts between separators without the empty ones and
/// without `.` except at the start of a relative path.
pub open spec fn components(s: Seq<char>) -> Seq<Seq<char>> {
    let rooted = s.len() > 0 && s[0] == '/';
    let rest = kept_parts(split_slash(s), rooted);
    if rooted {
        seq![root_dir()] + rest
    } else {
        rest
    }
}

/// `Path::file_name`: the last component when it is a normal one.
pub open spec fn file_name_spec(s: Seq<char>) -> Option<Seq<char>> {
    let c = components(s);
    if c.len() == 0 {
        None
    } else {
        let l = c.last();
        if l == root_dir() || l == cur_dir() || l == parent_dir() {
            None
        } else {
            Some(l)
        }
    }
}

/// Two paths are equal as `PathBuf`s: they have the same components.
pub open spec fn same_path(a: Seq<char>, b: Seq<char>) -> bool {
    components(a) == components(b)
}

/// The components of a path.
pub fn path_components(path: &str) -> (r: Vec<Vec<char>>)
    ensures
        r@.len() == components(path@).len(),
        forall|i: int| 0 <= i < r@.len() ==> #[trigger] r@[i]@ == components(path@)[i],
{
    let v = to_chars(path);
    let rooted = v.len() > 0 && v[0] == '/';
    let mut out: Vec<Vec<char>> = Vec::new();
    if rooted {
        let mut root: Vec<char> = Vec::new();
        root.push('/');
        out.push(root);
    }
    let ghost base: Seq<Seq<char>> = if rooted { seq![root_dir()] } else { Seq::empty() };
    proof {
        assert(out@.len() == base.len());
        if rooted {
            assert(out@[0]@ =~= root_dir());
        }
    }
    let mut current: Vec<char> = Vec::new();
    let mut k: usize = 0;
    let mut i: usize = 0;
    proof {
        assert(v@.take(0) =~= Seq::<char>::empty());
        assert(split_slash(v@.take(0)) == seq![Seq::<char>::empty()]);
        assert(split_slash(v@.take(0)).drop_last() =~= Seq::<Seq<char>>::empty());
    }
    while i < v.len()
        invariant
            i <= v.len(),
            k <= i,
            rooted == (v@.len() > 0 && v@[0] == '/'),
            split_slash(v@.take(i as int)).len() == k + 1,
            current@ == split_slash(v@.take(i as int)).last(),
            out@.len() == (base + kept_parts(split_slash(v@.take(i as int)).drop_last(), rooted)).len(),
            forall|j: int| 0 <= j < out@.len() ==> #[trigger] out@[j]@ == (base + kept_parts(
                split_slash(v@.take(i as int)).drop_last(),
                rooted,
            ))[j],
        decreases v.len() - i,
    {
        let c = v[i];
        let ghost pre = split_slash(v@.take(i as int));
        proof {
            let t = v@.take(i + 1);
            assert(t.drop_last() == v@.take(i as int));
            assert(t.last() == c);
        }
        if c == '/' {
            let keep = current.len() > 0 && (!is_dot(&current) || (k == 0 && !rooted));
            proof {
                let post = split_slash(v@.take(i + 1));
                assert(post == pre.push(Seq::<char>::empty()));
                assert(post.drop_last() == pre);
                assert(pre == pre.drop_last().push(pre.last()));
                assert(keep == is_kept(pre.last(), pre.len() - 1, rooted));
            }
            let ghost old_out = out@;
            if keep {
                out.push(current);
                proof {
                    let kp = kept_parts(pre, rooted);
                    assert(kp == kept_parts(pre.drop_last(), rooted).push(pre.last()));
                    assert(base + kp == (base + kept_parts(pre.drop_last(), rooted)).push(pre.last()));
                }
            } else {
                proof {
                    assert(kept_parts(pre, rooted) == kept_parts(pre.drop_last(), rooted));
                }
            }
            current = Vec::new();
            k = k + 1;
        } else {
            current.push(c);
            proof {
                let post = split_slash(v@.take(i + 1));
                assert(post == pre.update(pre.len() - 1, pre.last().push(c)));
                assert(post.drop_last() =~= pre.drop_last());
            }
        }
        i = i + 1;
    }
    let ghost parts = split_slash(v@.take(v@.len() as int));
    proof {
        assert(v@.take(v@.len() as int) == v@);
        assert(parts == parts.drop_last().push(parts.last()));
    }
    let keep = current.len() > 0 && (!is_dot(&current) || (k == 0 && !rooted));
    assert(keep == is_kept(parts.last(), parts.len() - 1, rooted));
    if keep {
        out.push(current);
        proof {
            assert(kept_parts(parts, rooted) == kept_parts(parts.drop_last(), rooted).push(parts.last()));
            assert(base + kept_parts(parts, rooted) == (base + kept_parts(parts.drop_last(), rooted)).push(parts.last()));
        }
    } else {
        assert(kept_parts(parts, rooted) == kept_parts(parts.drop_last(), rooted));
    }
    proof {
        assert(components(path@) == base + kept_parts(parts, rooted));
    }
    out
}

fn is_dot(v: &Vec<char>) -> (r: bool)
    ensures
        r == (v@ == cur_dir()),
{
    let r = v.len() == 1 && v[0] == '.';
    proof {
        if r {
            assert(v@ =~= cur_dir());
        }
        if v@ == cur_dir() {
            assert(v@[0] == '.');
        }
    }
    r
}

fn is_dot_dot(v: &Vec<char>) -> (r: bool)
    ensures
        r == (v@ == parent_dir()),
{
    let r = v.len() == 2 && v[0] == '.' && v[1] == '.';
    proof {
        if r {
            assert(v@ =~= parent_dir());
        }
        if v@ == parent_dir() {
            assert(v@[0] == '.' && v@[1] == '.');
        }
    }
    r
}

fn is_root(v: &Vec<char>) -> (r: bool)
    ensures
        r == (v@ == root_dir()),
{
    let r = v.len() == 1 && v[0] == '/';
    proof {
        if r {
            assert(v@ =~= root_dir());
        }
        if v@ == root_dir() {
            assert(v@[0] == '/');
        }
    }
    r
}

/// `Path::file_name`.
pub fn file_name(path: &str) -> (r: Option<String>)
    ensures
        r is Some == file_name_spec(path@) is Some,
        r matches Some(n) ==> Some(n@) == file_name_spec(path@),
{
    let comps = path_components(path);
    if comps.len() == 0 {
        return None;
    }
    let last = &comps[comps.len() - 1];
    assert(last@ == components(path@).last());
    if is_root(last) || is_dot(last) || is_dot_dot(last) {
        None
    } else {
        Some(string_of_chars(last))
    }
}

/// The name shown for a file: its file name, `untitled` when it has none.
pub fn name_from_path(path: &str) -> (r: String)
    ensures
        r@ == match file_name_spec(path@) {
            Some(n) => n,
            None => "untitled"@,
        },
{
    match file_name(path) {
        Some(n) => n,
        None => String::from_str("untitled"),
    }
}

/// The position of the last `.` in `s`, if any.
pub open spec fn last_dot(s: Seq<char>) -> Option<int>
    decreases s.len(),
{
    if s.len() == 0 {
        None
    } else if s.last() == '.' {
        Some(s.len() - 1)
    } else {
        last_dot(s.drop_last())
    }
}

/// `Path::extension` of a file name: what follows its last `.`, unless the
/// name has no `.` or its only `.`-split leaves nothing before the dot.
pub open spec fn extension_of(name: Seq<char>) -> Option<Seq<char>> {
    match last_dot(name) {
        Some(i) => if i == 0 {
            None
        } else {
            Some(name.subrange(i + 1, name.len() as int))
        },
        None => None,
    }
}

proof fn lemma_last_dot(s: Seq<char>)
    ensures
        last_dot(s) matches Some(i) ==> 0 <= i < s.len() && s[i] == '.' && forall|j: int|
            i < j < s.len() ==> s[j] != '.',
        last_dot(s) is None ==> forall|j: int| 0 <= j < s.len() ==> s[j] != '.',
    decreases s.len(),
{
    reveal(Seq::filter);
    if s.len() > 0 {
        let t = s.drop_last();
        lemma_last_dot(t);
        assert forall|j: int| 0 <= j < t.len() implies t[j] == s[j] by {}
    }
}

/// `Path::extension`.
pub fn extension(path: &str) -> (r: Option<String>)
    ensures
        r is Some == (file_name_spec(path@) matches Some(n) && extension_of(n) is Some),
        r matches Some(e) ==> (file_name_spec(path@) matches Some(n) && extension_of(n) == Some(e@)),
{
    let name = match file_name(path) {
        Some(n) => n,
        None => {
            return None;
        },
    };
    let v = to_chars(name.as_str());
    let mut i: usize = v.len();
    while i > 0 && v[i - 1] != '.'
        invariant
            i <= v.len(),
            forall|j: int| i <= j < v.len() ==> v@[j] != '.',
        decreases i,
    {
        i = i - 1;
    }
    proof {
        lemma_last_dot(v@);
        match last_dot(v@) {
            Some(d) => {
                if d + 1 < i {
                    assert(v@[i - 1] == '.');
                }
                if d + 1 > i && i > 0 {
                    assert(v@[i - 1] == '.');
                }
                if i == 0 {
                    assert(v@[d] == '.');
                }
            },
            None => {
                if i > 0 {
                    assert(v@[i - 1] == '.');
                }
            },
        }
    }
    if i <= 1 {
        return None;
    }
    let ext = crate::text::string_of_range(&v, i, v.len());
    Some(ext)
}

/// Whether a path names a `.pcdoc` document: its extension is `pcdoc`,
/// ignoring ASCII case.
pub fn is_pcdoc_path(path: &str) -> (r: bool)
    ensures
        r == (file_name_spec(path@) matches Some(n) && extension_of(n) matches Some(e) && ascii_lower(
            e,
        ) == "pcdoc"@),
{
    match extension(path) {
        Some(e) => {
            let lower = lower_chars(&to_chars(e.as_str()));
            let want = to_chars("pcdoc");
            chars_eq(&lower, &want)
        },
        None => false,
    }
}

/// Whether two paths are equal as `PathBuf`s.
pub fn paths_equal(a: &str, b: &str) -> (r: bool)
    ensures
        r == same_path(a@, b@),
{
    let ca = path_components(a);
    let cb = path_components(b);
    if ca.len() != cb.len() {
        return false;
    }
    let mut i: usize = 0;
    while i < ca.len()
        invariant
            ca.len() == cb.len(),
            ca@.len() == components(a@).len(),
            cb@.len() == components(b@).len(),
            forall|j: int| 0 <= j < ca@.len() ==> #[trigger] ca@[j]@ == components(a@)[j],
            forall|j: int| 0 <= j < cb@.len() ==> #[trigger] cb@[j]@ == components(b@)[j],
            i <= ca.len(),
            forall|j: int| 0 <= j < i ==> components(a@)[j] == components(b@)[j],
        decreases ca.len() - i,
    {
        if !chars_eq(&ca[i], &cb[i]) {
            assert(ca@[i as int]@ == components(a@)[i as int]);
            assert(cb@[i as int]@ == components(b@)[i as int]);
            return false;
        }
        assert(ca@[i as int]@ == components(a@)[i as int]);
        assert(cb@[i as int]@ == components(b@)[i as int]);
        i = i + 1;
    }
    assert(components(a@) =~= components(b@));
    true
}

/// The name of what `Path::with_file_name` makes of `path` and `name`.
pub uninterp spec fn with_file_name_result(path: Seq<char>, name: Seq<char>) -> Seq<char>;

/// `Path::with_file_name`: `path` with its file name replaced by `name`
/// (or `name` pushed onto it when it has no file name).
#[verifier::external_body]
fn path_with_file_name(path: &str, name: &str) -> (r: String)
    ensures
        r@ == with_file_name_result(path@, name@),
{
    std::path::Path::new(path).with_file_name(name).to_string_lossy().into_owned()
}

/// The name of the temporary sibling an atomic write writes first: the
/// file name (or `file`) followed by `.tmp`.
pub open spec fn tmp_file_name(path: Seq<char>) -> Seq<char> {
    match file_name_spec(path) {
        Some(n) => n + ".tmp"@,
        None => "file"@ + ".tmp"@,
    }
}

/// The temporary sibling of `path` that an atomic write writes before
/// renaming it over `path`.
pub fn tmp_path(path: &str) -> (r: String)
    ensures
        r@ == with_file_name_result(path@, tmp_file_name(path@)),
{
    let mut name = match file_name(path) {
        Some(n) => n,
        None => String::from_str("file"),
    };
    name.append(".tmp");
    path_with_file_name(path, name.as_str())
}

/// The longest recent-file list that is kept.
pub const MAX_RECENTS: usize = 50usize;

/// `s` without the entries that are the same path as `e`.
pub open spec fn without_path(s: Seq<Seq<char>>, e: Seq<char>) -> Seq<Seq<char>>
    decreases s.len(),
{
    if s.len() == 0 {
        Seq::empty()
    } else {
        let prev = without_path(s.drop_last(), e);
        if same_path(s.last(), e) {
            prev
        } else {
            prev.push(s.last())
        }
    }
}

/// The string views of a list of strings.
pub open spec fn views(v: Seq<String>) -> Seq<Seq<char>> {
    Seq::new(v.len(), |i: int| v[i]@)
}

/// `push_front_dedup`: `entry` first, then the other entries that are not
/// the same path as `entry`, in their order, cut to `MAX_RECENTS`.
pub open spec fn push_front_spec(recents: Seq<Seq<char>>, entry: Seq<char>) -> Seq<Seq<char>> {
    let all = seq![entry] + without_path(recents, entry);
    if all.len() > MAX_RECENTS {
        all.take(MAX_RECENTS as int)
    } else {
        all
    }
}

/// Puts `entry` at the front of the recent-file list, drops other entries
/// for the same path and keeps at most `MAX_RECENTS` entries.
pub fn push_front_dedup(recents: Vec<String>, entry: String) -> (r: Vec<String>)
    ensures
        views(r@) == push_front_spec(views(recents@), entry@),
        views(r@) == (seq![entry@] + views(recents@).filter(|p: Seq<char>| !same_path(p, entry@))).take(
            views(r@).len() as int,
        ),
        views(r@).len() == if 1 + views(recents@).filter(|p: Seq<char>| !same_path(p, entry@)).len()
            > MAX_RECENTS {
            MAX_RECENTS as nat
        } else {
            1 + views(recents@).filter(|p: Seq<char>| !same_path(p, entry@)).len()
        },
{
    let mut out: Vec<String> = Vec::new();
    let entry_view = owned(entry.as_str());
    out.push(entry);
    let mut i: usize = 0;
    while i < recents.len()
        invariant
            i <= recents.len(),
            entry_view@ == out@[0]@,
            out@.len() >= 1,
            views(out@) == seq![entry_view@] + without_path(views(recents@).take(i as int), entry_view@),
        decreases recents.len() - i,
    {
        let same = paths_equal(recents[i].as_str(), entry_view.as_str());
        proof {
            let t = views(recents@).take(i + 1);
            assert(t.drop_last() == views(recents@).take(i as int));
            assert(t.last() == recents@[i as int]@);
        }
        if !same {
            let ghost before = views(out@);
            out.push(owned(recents[i].as_str()));
            assert(views(out@) == before.push(recents@[i as int]@));
        }
        i = i + 1;
    }
    assert(views(recents@).take(recents@.len() as int) == views(recents@));
    out.truncate(MAX_RECENTS);
    assert(views(out@) =~= push_front_spec(views(recents@), entry_view@));
    proof {
        law_push_front_keeps_order(views(recents@), entry@);
    }
    out
}

/// `s` without the entries equal, as paths, to `a` or to `b`.
pub open spec fn without_paths(s: Seq<Seq<char>>, a: Seq<char>, b: Seq<char>) -> Seq<Seq<char>>
    decreases s.len(),
{
    if s.len() == 0 {
        Seq::empty()
    } else {
        let prev = without_paths(s.drop_last(), a, b);
        if same_path(s.last(), a) || same_path(s.last(), b) {
            prev
        } else {
            prev.push(s.last())
        }
    }
}

/// The recent-file list without a path: the entries that are neither the
/// given path nor its canonical form.
pub fn remove_recent_entries(recents: Vec<String>, path: &str, canonical: &str) -> (r: Vec<String>)
    ensures
        views(r@) == without_paths(views(recents@), path@, canonical@),
        views(r@) == views(recents@).filter(
            |p: Seq<char>| !same_path(p, path@) && !same_path(p, canonical@),
        ),
{
    let mut out: Vec<String> = Vec::new();
    let mut i: usize = 0;
    while i < recents.len()
        invariant
            i <= recents.len(),
            views(out@) == without_paths(views(recents@).take(i as int), path@, canonical@),
        decreases recents.len() - i,
    {
        let drop = paths_equal(recents[i].as_str(), path) || paths_equal(recents[i].as_str(), canonical);
        proof {
            let t = views(recents@).take(i + 1);
            assert(t.drop_last() == views(recents@).take(i as int));
            assert(t.last() == recents@[i as int]@);
        }
        if !drop {
            let ghost before = views(out@);
            out.push(owned(recents[i].as_str()));
            assert(views(out@) == before.push(recents@[i as int]@));
        }
        i = i + 1;
    }
    assert(views(recents@).take(recents@.len() as int) == views(recents@));
    proof {
        law_remove_recent_keeps_order(views(recents@), path@, canonical@);
    }
    out
}

/// After `push_front_dedup` the entry comes first, no later entry is the
/// same path, and the list holds at most `MAX_RECENTS` entries.
pub proof fn law_push_front_dedup(recents: Seq<Seq<char>>, entry: Seq<char>)
    ensures
        push_front_spec(recents, entry).len() >= 1,
        push_front_spec(recents, entry)[0] == entry,
        push_front_spec(recents, entry).len() <= MAX_RECENTS,
        forall|i: int| 1 <= i < push_front_spec(recents, entry).len() ==> !same_path(
            #[trigger] push_front_spec(recents, entry)[i],
            entry,
        ),
{
    lemma_without_path_excludes(recents, entry);
    let all = seq![entry] + without_path(recents, entry);
    assert forall|i: int| 1 <= i < push_front_spec(recents, entry).len() implies !same_path(
        #[trigger] push_front_spec(recents, entry)[i],
        entry,
    ) by {
        assert(push_front_spec(recents, entry)[i] == all[i]);
        assert(all[i] == without_path(recents, entry)[i - 1]);
    }
}

proof fn lemma_without_path_excludes(s: Seq<Seq<char>>, e: Seq<char>)
    ensures
        forall|i: int| 0 <= i < without_path(s, e).len() ==> !same_path(
            #[trigger] without_path(s, e)[i],
            e,
        ),
        without_path(s, e).len() <= s.len(),
    decreases s.len(),
{
    if s.len() > 0 {
        lemma_without_path_excludes(s.drop_last(), e);
    }
}

/// The name and path of the file the open document is bound to.
pub struct CurrentFileInfo {
    pub name: String,
    pub path: String,
}

/// What the editor shows of the file at `path`: its file name, or
/// `untitled`, and the path itself.
pub fn current_file_info(path: &str) -> (r: CurrentFileInfo)
    ensures
        r.name@ == match file_name_spec(path@) {
            Some(n) => n,
            None => "untitled"@,
        },
        r.path@ == path@,
{
    CurrentFileInfo { name: name_from_path(path), path: owned(path) }
}

/// The listing of the file at `path` with the size and modification time
/// read from disk: named by its file name; a path without one is not
/// listed.
pub fn document_meta(path: &str, size_bytes: u64, modified: Option<u64>) -> (r: Option<DocumentMeta>)
    ensures
        r is Some <==> file_name_spec(path@) is Some,
        r matches Some(m) ==> Some(m.name@) == file_name_spec(path@) && m.path@ == path@
            && m.size_bytes == size_bytes && m.modified == modified,
{
    match file_name(path) {
        Some(name) => Some(DocumentMeta { name, path: owned(path), size_bytes, modified }),
        None => None,
    }
}

/// The entries that are not the same path as `e`, in their order.
proof fn lemma_without_path_filter(s: Seq<Seq<char>>, e: Seq<char>)
    ensures
        without_path(s, e) == s.filter(|p: Seq<char>| !same_path(p, e)),
    decreases s.len(),
{
    reveal(Seq::filter);
    if s.len() > 0 {
        lemma_without_path_filter(s.drop_last(), e);
    }
}

/// The entries that are the same path as neither `a` nor `b`, in their
/// order.
proof fn lemma_without_paths_filter(s: Seq<Seq<char>>, a: Seq<char>, b: Seq<char>)
    ensures
        without_paths(s, a, b) == s.filter(|p: Seq<char>| !same_path(p, a) && !same_path(p, b)),
    decreases s.len(),
{
    reveal(Seq::filter);
    if s.len() > 0 {
        lemma_without_paths_filter(s.drop_last(), a, b);
    }
}

/// Filtering keeps every entry when the test holds of all of them.
proof fn lemma_filter_all<A>(s: Seq<A>, f: spec_fn(A) -> bool)
    requires
        forall|i: int| 0 <= i < s.len() ==> f(#[trigger] s[i]),
    ensures
        s.filter(f) == s,
    decreases s.len(),
{
    reveal(Seq::filter);
    if s.len() > 0 {
        let t = s.drop_last();
        assert forall|i: int| 0 <= i < t.len() implies f(#[trigger] t[i]) by {
            assert(t[i] == s[i]);
        }
        lemma_filter_all(t, f);
        assert(s.last() == s[s.len() - 1]);
        assert(t.push(s.last()) =~= s);
    }
}

/// Recording `entry` puts it first, followed by the old entries that are
/// not the same path as `entry`, in their old order, the list cut to
/// `MAX_RECENTS`. When no old entry is the same path and the list is short,
/// the result is `entry` followed by the whole old list.
pub proof fn law_push_front_keeps_order(recents: Seq<Seq<char>>, entry: Seq<char>)
    ensures
        ({
            let kept = recents.filter(|p: Seq<char>| !same_path(p, entry));
            let all = seq![entry] + kept;
            push_front_spec(recents, entry) == if all.len() > MAX_RECENTS {
                all.take(MAX_RECENTS as int)
            } else {
                all
            }
        }),
        (forall|i: int| 0 <= i < recents.len() ==> !same_path(#[trigger] recents[i], entry))
            && recents.len() < MAX_RECENTS ==> push_front_spec(recents, entry) == seq![entry]
            + recents,
{
    lemma_without_path_filter(recents, entry);
    if forall|i: int| 0 <= i < recents.len() ==> !same_path(#[trigger] recents[i], entry) {
        lemma_filter_all(recents, |p: Seq<char>| !same_path(p, entry));
    }
}

/// Removing a path from the recent-file list keeps every other entry, in
/// its order; when no entry is that path (or its canonical form) the list
/// is unchanged.
pub proof fn law_remove_recent_keeps_order(recents: Seq<Seq<char>>, path: Seq<char>, canonical: Seq<char>)
    ensures
        without_paths(recents, path, canonical) == recents.filter(
            |p: Seq<char>| !same_path(p, path) && !same_path(p, canonical),
        ),
        (forall|i: int|
            0 <= i < recents.len() ==> !same_path(#[trigger] recents[i], path) && !same_path(
                recents[i],
                canonical,
            )) ==> without_paths(recents, path, canonical) == recents,
{
    lemma_without_paths_filter(recents, path, canonical);
    if forall|i: int|
        0 <= i < recents.len() ==> !same_path(#[trigger] recents[i], path) && !same_path(
            recents[i],
            canonical,
        ) {
        lemma_filter_all(recents, |p: Seq<char>| !same_path(p, path) && !same_path(p, canonical));
    }
}

} // verus!
