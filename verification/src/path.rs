//! Absolute filesystem paths as character sequences, split into their normal
//! components the way a Unix path is read: `/` separates components, empty
//! components and `.` are skipped, `..` names the parent.
use vstd::prelude::*;

use crate::error::StorageError;
use crate::text::{chars_eq, chars_of, lemma_char_vec_deep_view, string_of};

verus! {

broadcast use lemma_char_vec_deep_view;

/// Ends the component being read: an empty component or `.` adds nothing.
pub open spec fn flush(done: Seq<Seq<char>>, current: Seq<char>) -> Seq<Seq<char>> {
    if current.len() == 0 || current == seq!['.'] {
        done
    } else {
        done.push(current)
    }
}

/// The components finished, and the component being read, after the first
/// `n` characters of `p`.
pub open spec fn split_prefix(p: Seq<char>, n: nat) -> (Seq<Seq<char>>, Seq<char>)
    decreases n,
{
    if n == 0 || n > p.len() {
        (Seq::empty(), Seq::empty())
    } else {
        let previous = split_prefix(p, (n - 1) as nat);
        if p[n - 1] == '/' {
            (flush(previous.0, previous.1), Seq::empty())
        } else {
            (previous.0, previous.1.push(p[n - 1]))
        }
    }
}

/// The named components of a path, in order (the root is not one of them).
pub open spec fn segments(p: Seq<char>) -> Seq<Seq<char>> {
    let state = split_prefix(p, p.len());
    flush(state.0, state.1)
}

/// Whether the path starts at the filesystem root.
pub open spec fn is_absolute(p: Seq<char>) -> bool {
    p.len() > 0 && p[0] == '/'
}

/// The parent-directory component.
pub open spec fn parent_component() -> Seq<char> {
    seq!['.', '.']
}

/// A path rendered from its components: the root, then each component
/// preceded by a separator.
pub open spec fn joined(segs: Seq<Seq<char>>) -> Seq<char>
    decreases segs.len(),
{
    if segs.len() == 0 {
        Seq::empty()
    } else {
        joined(segs.drop_last()) + seq!['/'] + segs.last()
    }
}

/// The canonical text of an absolute path with the given components.
pub open spec fn render(segs: Seq<Seq<char>>) -> Seq<char> {
    if segs.len() == 0 {
        seq!['/']
    } else {
        joined(segs)
    }
}

/// The lexical normal form of a path: defined only for an absolute path
/// with no parent component, and then the path rebuilt from its components.
pub open spec fn normalized(p: Seq<char>) -> Option<Seq<char>> {
    if is_absolute(p) && !segments(p).contains(parent_component()) {
        Some(render(segments(p)))
    } else {
        None
    }
}

/// Whether `p` lies at or below `base`, comparing whole components; both are
/// read as absolute paths.
pub open spec fn path_within(p: Seq<char>, base: Seq<char>) -> bool {
    is_absolute(p) && is_absolute(base) && segments(base).is_prefix_of(segments(p))
}

/// The components of a path.
pub fn path_segments(p: &[char]) -> (segs: Vec<Vec<char>>)
    ensures
        segs.deep_view() == segments(p@),
{
    let mut done: Vec<Vec<char>> = Vec::new();
    let mut current: Vec<char> = Vec::new();
    let mut i: usize = 0;
    while i < p.len()
        invariant
            i <= p@.len(),
            (done.deep_view(), current@) == split_prefix(p@, i as nat),
        decreases p.len() - i,
    {
        let c = p[i];
        if c == '/' {
            flush_into(&mut done, current);
            current = Vec::new();
        } else {
            current.push(c);
        }
        i = i + 1;
    }
    flush_into(&mut done, current);
    done
}

fn flush_into(done: &mut Vec<Vec<char>>, current: Vec<char>)
    ensures
        final(done).deep_view() == flush(old(done).deep_view(), current@),
{
    let skip = current.len() == 0 || (current.len() == 1 && current[0] == '.');
    if skip {
        if current.len() == 1 {
            assert(current@ == seq!['.']);
        }
    } else {
        if current.len() == 1 {
            assert(current@ != seq!['.']);
        }
        let ghost before = done.deep_view();
        done.push(current);
        assert(done.deep_view() == before.push(current@));
    }
}

/// Whether a path is absolute.
pub fn path_is_absolute(p: &[char]) -> (absolute: bool)
    ensures
        absolute == is_absolute(p@),
{
    p.len() > 0 && p[0] == '/'
}

/// Whether some component is the parent-directory component.
pub fn has_parent_component(segs: &Vec<Vec<char>>) -> (found: bool)
    ensures
        found == segs.deep_view().contains(parent_component()),
{
    let mut i: usize = 0;
    while i < segs.len()
        invariant
            i <= segs@.len(),
            forall|j: int| 0 <= j < i ==> segs.deep_view()[j] != parent_component(),
        decreases segs.len() - i,
    {
        let seg = &segs[i];
        if seg.len() == 2 && seg[0] == '.' && seg[1] == '.' {
            assert(seg@ == parent_component());
            assert(segs.deep_view()[i as int] == parent_component());
            return true;
        }
        assert(segs.deep_view()[i as int] == seg@);
        i = i + 1;
    }
    false
}

/// Renders components as an absolute path.
pub fn render_segments(segs: &Vec<Vec<char>>) -> (text: Vec<char>)
    ensures
        text@ == render(segs.deep_view()),
{
    if segs.len() == 0 {
        let mut root: Vec<char> = Vec::new();
        root.push('/');
        return root;
    }
    let mut text: Vec<char> = Vec::new();
    let mut i: usize = 0;
    while i < segs.len()
        invariant
            i <= segs@.len(),
            text@ == joined(segs.deep_view().subrange(0, i as int)),
        decreases segs.len() - i,
    {
        let ghost before = text@;
        text.push('/');
        let seg = &segs[i];
        let mut j: usize = 0;
        while j < seg.len()
            invariant
                j <= seg@.len(),
                text@ == before + seq!['/'] + seg@.subrange(0, j as int),
            decreases seg.len() - j,
        {
            text.push(seg[j]);
            assert(seg@.subrange(0, j + 1) == seg@.subrange(0, j as int).push(seg@[j as int]));
            j = j + 1;
        }
        assert(seg@.subrange(0, seg@.len() as int) == seg@);
        let ghost s = segs.deep_view().subrange(0, i + 1);
        assert(s.drop_last() == segs.deep_view().subrange(0, i as int));
        assert(s.last() == seg@);
        i = i + 1;
    }
    assert(segs.deep_view().subrange(0, segs@.len() as int) == segs.deep_view());
    text
}

/// The lexical normal form of an absolute path; a relative path or one that
/// names a parent directory is refused.
pub fn normalize(path: &str) -> (result: Result<String, StorageError>)
    ensures
        match result {
            Ok(text) => normalized(path@) == Some(text@),
            Err(e) => normalized(path@) is None && e == StorageError::CommandConflict,
        },
{
    let p = chars_of(path);
    if !path_is_absolute(&p) {
        return Err(StorageError::CommandConflict);
    }
    let segs = path_segments(&p);
    if has_parent_component(&segs) {
        return Err(StorageError::CommandConflict);
    }
    let text = render_segments(&segs);
    Ok(string_of(&text))
}

/// Whether one list of components begins with another.
pub fn segments_start_with(p: &Vec<Vec<char>>, base: &Vec<Vec<char>>) -> (within: bool)
    ensures
        within == base.deep_view().is_prefix_of(p.deep_view()),
{
    if base.len() > p.len() {
        return false;
    }
    let mut i: usize = 0;
    while i < base.len()
        invariant
            base@.len() <= p@.len(),
            i <= base@.len(),
            forall|j: int| 0 <= j < i ==> base.deep_view()[j] == p.deep_view()[j],
        decreases base.len() - i,
    {
        if !chars_eq(&base[i], &p[i]) {
            assert(base.deep_view()[i as int] != p.deep_view()[i as int]);
            return false;
        }
        i = i + 1;
    }
    assert(base.deep_view() =~= p.deep_view().subrange(0, base@.len() as int));
    true
}

/// Whether two lists of components are the same.
pub fn segments_equal(a: &Vec<Vec<char>>, b: &Vec<Vec<char>>) -> (same: bool)
    ensures
        same == (a.deep_view() == b.deep_view()),
{
    if a.len() != b.len() {
        assert(a.deep_view().len() != b.deep_view().len());
        return false;
    }
    let within = segments_start_with(a, b);
    if within {
        assert(a.deep_view() =~= b.deep_view());
    }
    within
}

/// Whether a path has a lexical normal form.
pub fn is_normalizable(p: &[char]) -> (ok: bool)
    ensures
        ok == (normalized(p@) is Some),
{
    if !path_is_absolute(p) {
        return false;
    }
    let segs = path_segments(p);
    !has_parent_component(&segs)
}

/// Whether the path with components `p_segs` lies within the path with
/// components `base_segs`, both paths being absolute.
pub fn within(p: &[char], p_segs: &Vec<Vec<char>>, base: Ghost<Seq<char>>, base_segs: &Vec<Vec<char>>) -> (inside: bool)
    requires
        p_segs.deep_view() == segments(p@),
        base_segs.deep_view() == segments(base@),
        is_absolute(base@),
    ensures
        inside == path_within(p@, base@),
{
    path_is_absolute(p) && segments_start_with(p_segs, base_segs)
}

/// The path of `name` inside the directory `base` (`Path::join` with a
/// relative, single-component name).
pub open spec fn join_path(base: Seq<char>, name: Seq<char>) -> Seq<char> {
    if base.len() == 0 {
        name
    } else if base.last() == '/' {
        base + name
    } else {
        base + seq!['/'] + name
    }
}

/// The path of `name` inside the directory `base`.
pub fn join(base: &str, name: &[char]) -> (path: String)
    ensures
        path@ == join_path(base@, name@),
{
    let b = chars_of(base);
    if b.len() == 0 {
        return string_of(name);
    }
    if b[b.len() - 1] == '/' {
        return string_of(&crate::text::concat_chars(&b, name));
    }
    let mut sep: Vec<char> = Vec::new();
    sep.push('/');
    let with_sep = crate::text::concat_chars(&b, &sep);
    assert(with_sep@ == b@ + seq!['/']);
    let joined = crate::text::concat_chars(&with_sep, name);
    string_of(&joined)
}

/// Whether two paths name the same location component by component (as
/// `Path` equality does).
pub open spec fn same_path(a: Seq<char>, b: Seq<char>) -> bool {
    is_absolute(a) == is_absolute(b) && segments(a) == segments(b)
}

/// Whether two paths name the same location component by component.
pub fn paths_equal(a: &str, b: &str) -> (same: bool)
    ensures
        same == same_path(a@, b@),
{
    let x = chars_of(a);
    let y = chars_of(b);
    path_is_absolute(&x) == path_is_absolute(&y) && segments_equal(&path_segments(&x), &path_segments(&y))
}

/// What the host found at one ancestor of a path, looked at from the path
/// itself up towards the root.
#[derive(Debug)]
pub enum AncestorFinding {
    /// Nothing is there, not even a symbolic link.
    Missing,
    /// A symbolic link is there, dangling or not.
    Link,
    /// Something is there that could not be inspected or canonicalized.
    Unreadable,
    /// Something that is not a link is there; it canonicalizes to this path.
    Canonical(String),
}

/// Components appended to a directory, one after another.
pub open spec fn appended(base: Seq<char>, names: Seq<Seq<char>>) -> Seq<char>
    decreases names.len(),
{
    if names.len() == 0 {
        base
    } else {
        join_path(appended(base, names.drop_last()), names.last())
    }
}

/// The index of the first finding, from `from` on, of something present.
pub open spec fn first_present(f: Seq<AncestorFinding>, from: int) -> Option<int>
    decreases f.len() - from,
{
    if from < 0 || from >= f.len() {
        None
    } else if f[from] is Missing {
        first_present(f, from + 1)
    } else {
        Some(from)
    }
}

/// Where a path resolves, given what was found at its ancestors (the path
/// in normal form, then each parent in turn, `findings[k]` for the ancestor
/// `k` components up): the deepest ancestor that is present must not be a
/// link and must canonicalize, and the missing components below it are
/// appended to its canonical path. `None` when the path has no normal
/// form, or no ancestor up to the root is found present.
pub open spec fn resolved_from(path: Seq<char>, findings: Seq<AncestorFinding>) -> Option<Seq<char>> {
    match normalized(path) {
        None => None,
        Some(p) => {
            let s = segments(p);
            match first_present(findings, 0) {
                Some(k) => if k <= s.len() {
                    match findings[k] {
                        AncestorFinding::Canonical(c) => Some(appended(c@, s.subrange(s.len() - k, s.len() as int))),
                        _ => None,
                    }
                } else {
                    None
                },
                None => None,
            }
        },
    }
}

/// Whether nothing was found.
fn is_missing(finding: &AncestorFinding) -> (missing: bool)
    ensures
        missing == finding is Missing,
{
    match finding {
        AncestorFinding::Missing => true,
        _ => false,
    }
}

/// Resolves a path from what was found at its ancestors (see
/// `resolved_from`).
pub fn resolve_ancestors(path: &str, findings: &Vec<AncestorFinding>) -> (resolved: Option<String>)
    ensures
        match resolved {
            Some(r) => resolved_from(path@, findings@) == Some(r@),
            None => resolved_from(path@, findings@) is None,
        },
{
    let normal = match normalize(path) {
        Ok(n) => n,
        Err(_) => {
            return None;
        },
    };
    let segs = path_segments(&chars_of(normal.as_str()));
    let ghost s = segments(normal@);
    let mut k: usize = 0;
    while k < findings.len() && is_missing(&findings[k])
        invariant
            k <= findings@.len(),
            first_present(findings@, 0) == first_present(findings@, k as int),
        decreases findings.len() - k,
    {
        k = k + 1;
    }
    if k == findings.len() || k > segs.len() {
        return None;
    }
    let canonical = match &findings[k] {
        AncestorFinding::Canonical(c) => c,
        _ => {
            return None;
        },
    };
    let start = segs.len() - k;
    let mut out = canonical.clone();
    let mut j: usize = start;
    assert(s.subrange(start as int, start as int) =~= Seq::<Seq<char>>::empty());
    while j < segs.len()
        invariant
            s == segs.deep_view(),
            start <= j <= segs@.len(),
            out@ == appended(canonical@, s.subrange(start as int, j as int)),
        decreases segs.len() - j,
    {
        let next = join(out.as_str(), segs[j].as_slice());
        proof {
            assert(s.subrange(start as int, j + 1).drop_last() =~= s.subrange(start as int, j as int));
            assert(segs@[j as int]@ == s[j as int]);
        }
        out = next;
        j = j + 1;
    }
    Some(out)
}

} // verus!
