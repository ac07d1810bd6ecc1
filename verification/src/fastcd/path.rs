//! Paths: joining a name, the parent, and the last component, as
//! `std::path` computes them; a `.` component after the first counts as
//! nothing, as `Path::components` skips it.  With
//! `windows` set, `\` separates components as `/` does, joins use `\`, and
//! a drive prefix such as `C:` starts the path; other Windows prefixes
//! (`\\server\share`, `\\?\`) are not told apart.

use vstd::prelude::*;
use crate::text::{chars_of, slice_of, string_of, extend};

verus! {

/// Whether `c` separates path components.
pub open spec fn is_sep(c: char, windows: bool) -> bool {
    c == '/' || (windows && c == '\\')
}

/// Whether `c` is an ASCII letter, as a drive letter is.
pub open spec fn is_drive_letter(c: char) -> bool {
    ('a' <= c && c <= 'z') || ('A' <= c && c <= 'Z')
}

/// The length of the drive prefix of `p` (`C:`): 2 on Windows when `p`
/// starts with a letter and a colon, else 0.
pub open spec fn prefix_len(p: Seq<char>, windows: bool) -> int {
    if windows && p.len() >= 2 && p[1] == ':' && is_drive_letter(p[0]) {
        2
    } else {
        0
    }
}

/// The separator that a join inserts.
pub open spec fn main_sep(windows: bool) -> char {
    if windows {
        '\\'
    } else {
        '/'
    }
}

/// `base` joined with `name` (`Path::join`): a `name` with a drive prefix
/// replaces `base`; a `name` that starts at the root keeps only the drive
/// prefix of `base`; otherwise a separator goes between them unless `base`
/// is empty, is only a drive prefix, or already ends with a separator.
pub open spec fn path_join(base: Seq<char>, name: Seq<char>, windows: bool) -> Seq<char> {
    if prefix_len(name, windows) > 0 {
        name
    } else if name.len() > 0 && is_sep(name[0], windows) {
        base.subrange(0, prefix_len(base, windows)) + name
    } else if base.len() > 0 && !is_sep(base.last(), windows) && prefix_len(base, windows) < base.len() {
        base + seq![main_sep(windows)] + name
    } else {
        base + name
    }
}

/// `p` without its trailing separators and `.` components (a `.` that
/// starts the path stays).
pub open spec fn trim_seps(p: Seq<char>, windows: bool) -> Seq<char>
    decreases p.len(),
{
    if p.len() > 0 && is_sep(p.last(), windows) {
        trim_seps(p.drop_last(), windows)
    } else if p.len() >= 2 && p.last() == '.' && is_sep(p[p.len() - 2], windows) {
        trim_seps(p.drop_last(), windows)
    } else {
        p
    }
}

/// The index of the last separator in `p`, or -1.
pub open spec fn last_sep(p: Seq<char>, windows: bool) -> int
    decreases p.len(),
{
    if p.len() == 0 {
        -1
    } else if is_sep(p.last(), windows) {
        p.len() - 1
    } else {
        last_sep(p.drop_last(), windows)
    }
}

/// The parent of `p` (`Path::parent`): none for a root, a bare drive
/// prefix or the empty path; the drive prefix (or the empty path) for a
/// single relative component; else `p` without its last component and the
/// separators before it (a root stays).
pub open spec fn path_parent(p: Seq<char>, windows: bool) -> Option<Seq<char>> {
    let n = prefix_len(p, windows);
    let pre = p.subrange(0, n);
    let t = trim_seps(p.subrange(n, p.len() as int), windows);
    if t.len() == 0 {
        None
    } else {
        let k = last_sep(t, windows);
        if k < 0 {
            Some(pre)
        } else {
            let h = trim_seps(t.subrange(0, k), windows);
            if h.len() == 0 {
                Some(pre + seq![t[0]])
            } else {
                Some(pre + h)
            }
        }
    }
}

/// The last component of `p` (`Path::file_name`): none for a root, a bare
/// drive prefix, the empty path, or a last component `.` or `..`.
pub open spec fn path_file_name(p: Seq<char>, windows: bool) -> Option<Seq<char>> {
    let n = prefix_len(p, windows);
    let t = trim_seps(p.subrange(n, p.len() as int), windows);
    if t.len() == 0 {
        None
    } else {
        let c = t.subrange(last_sep(t, windows) + 1, t.len() as int);
        if c == seq!['.', '.'] || c == seq!['.'] {
            None
        } else {
            Some(c)
        }
    }
}

/// The bounds of `last_sep`.
proof fn lemma_last_sep(p: Seq<char>, windows: bool)
    ensures
        -1 <= last_sep(p, windows) < p.len(),
        last_sep(p, windows) >= 0 ==> is_sep(p[last_sep(p, windows)], windows),
        forall|j: int| last_sep(p, windows) < j < p.len() ==> !is_sep(p[j], windows),
    decreases p.len(),
{
    if p.len() > 0 && !is_sep(p.last(), windows) {
        lemma_last_sep(p.drop_last(), windows);
        assert forall|j: int| last_sep(p, windows) < j < p.len() implies !is_sep(p[j], windows) by {
            if j < p.len() - 1 {
                assert(p[j] == p.drop_last()[j]);
            }
        }
    }
}

/// Whether `name` is a single plain component: not empty, without
/// separators or a drive prefix, and neither `.` nor `..` (as the names
/// that a directory listing gives are).
pub open spec fn is_plain_name(name: Seq<char>, windows: bool) -> bool {
    &&& name.len() > 0
    &&& forall|i: int| 0 <= i < name.len() ==> !is_sep(#[trigger] name[i], windows)
    &&& prefix_len(name, windows) == 0
    &&& name != seq!['.']
    &&& name != seq!['.', '.']
}

/// The last separator of two joined texts is the second's, or else the
/// first's.
proof fn lemma_last_sep_append(u: Seq<char>, v: Seq<char>, windows: bool)
    ensures
        last_sep(u + v, windows) == (if last_sep(v, windows) >= 0 {
            u.len() + last_sep(v, windows)
        } else {
            last_sep(u, windows)
        }),
    decreases v.len(),
{
    if v.len() == 0 {
        assert(u + v =~= u);
    } else {
        assert((u + v).drop_last() =~= u + v.drop_last());
        assert((u + v).last() == v.last());
        lemma_last_sep_append(u, v.drop_last(), windows);
    }
}

/// A text without separators has none to find.
proof fn lemma_last_sep_none(v: Seq<char>, windows: bool)
    requires
        forall|i: int| 0 <= i < v.len() ==> !is_sep(#[trigger] v[i], windows),
    ensures
        last_sep(v, windows) == -1,
{
    lemma_last_sep(v, windows);
    if last_sep(v, windows) >= 0 {
        assert(is_sep(v[last_sep(v, windows)], windows));
    }
}

/// Joining a plain name onto any path gives a path whose last component is
/// that name.
pub proof fn lemma_file_name_join(x: Seq<char>, name: Seq<char>, windows: bool)
    requires
        is_plain_name(name, windows),
    ensures
        path_file_name(path_join(x, name, windows), windows) == Some(name),
{
    let p = path_join(x, name, windows);
    let xs = p.subrange(0, p.len() - name.len());
    assert(!is_sep(name[0], windows));
    if !(x.len() > 0 && !is_sep(x.last(), windows) && prefix_len(x, windows) < x.len()) {
        assert(p == x + name);
    }
    assert(p =~= xs + name);
    let n = prefix_len(p, windows);
    assert(n <= xs.len()) by {
        if n == 2 && xs.len() < 2 {
            if xs.len() == 1 {
                assert(p[0] == xs[0]);
            }
        }
    }
    let r = xs.subrange(n, xs.len() as int);
    assert(r.len() == 0 || is_sep(r.last(), windows)) by {
        if r.len() > 0 {
            assert(r.last() == xs.last());
            if x.len() > 0 && !is_sep(x.last(), windows) && prefix_len(x, windows) < x.len() {
                assert(xs =~= x + seq![main_sep(windows)]);
            } else {
                assert(xs =~= x);
                if x.len() >= 2 {
                    assert(p[0] == x[0] && p[1] == x[1]);
                }
            }
        }
    }
    let t0 = p.subrange(n, p.len() as int);
    assert(t0 =~= r + name);
    assert(t0.last() == name.last());
    if name.len() >= 2 {
        assert(t0[t0.len() - 2] == name[name.len() - 2]);
    } else {
        assert(name =~= seq![name[0]]);
    }
    assert(trim_seps(t0, windows) == t0);
    lemma_last_sep_none(name, windows);
    lemma_last_sep_append(r, name, windows);
    if r.len() > 0 {
        assert(last_sep(r, windows) == r.len() - 1);
    }
    assert(t0.subrange(last_sep(t0, windows) + 1, t0.len() as int) =~= name);
}

/// Whether `c` separates path components.
fn sep(c: char, windows: bool) -> (r: bool)
    ensures
        r == is_sep(c, windows),
{
    c == '/' || (windows && c == '\\')
}

/// The length of the drive prefix of `v`.
fn prefix_of(v: &Vec<char>, windows: bool) -> (r: usize)
    ensures
        r as int == prefix_len(v@, windows),
{
    if windows && v.len() >= 2 && v[1] == ':' && (('a' <= v[0] && v[0] <= 'z') || ('A' <= v[0] && v[0] <= 'Z')) {
        2
    } else {
        0
    }
}

/// `v[lo..hi]` without trailing separators and `.` components, as an end
/// index.
fn trimmed_end(v: &Vec<char>, lo: usize, hi: usize, windows: bool) -> (r: usize)
    requires
        lo <= hi <= v.len(),
    ensures
        lo <= r <= hi,
        v@.subrange(lo as int, r as int) == trim_seps(v@.subrange(lo as int, hi as int), windows),
{
    let mut e = hi;
    while e > lo && (sep(v[e - 1], windows) || (e - lo >= 2 && v[e - 1] == '.' && sep(v[e - 2], windows)))
        invariant
            lo <= e <= hi <= v.len(),
            trim_seps(v@.subrange(lo as int, hi as int), windows) == trim_seps(v@.subrange(lo as int, e as int), windows),
        decreases e,
    {
        assert(v@.subrange(lo as int, e as int).drop_last() =~= v@.subrange(lo as int, e - 1));
        e = e - 1;
    }
    e
}

/// The index in `v` of the last separator in `v[lo..hi]`.
fn last_sep_in(v: &Vec<char>, lo: usize, hi: usize, windows: bool) -> (r: Option<usize>)
    requires
        lo <= hi <= v.len(),
    ensures
        last_sep(v@.subrange(lo as int, hi as int), windows) < 0 ==> r is None,
        last_sep(v@.subrange(lo as int, hi as int), windows) >= 0 ==> r == Some(
            (lo + last_sep(v@.subrange(lo as int, hi as int), windows)) as usize,
        ),
{
    let mut e = hi;
    while e > lo && !sep(v[e - 1], windows)
        invariant
            lo <= e <= hi <= v.len(),
            last_sep(v@.subrange(lo as int, hi as int), windows) == last_sep(v@.subrange(lo as int, e as int), windows),
        decreases e,
    {
        assert(v@.subrange(lo as int, e as int).drop_last() =~= v@.subrange(lo as int, e - 1));
        e = e - 1;
    }
    if e == lo {
        None
    } else {
        Some(e - 1)
    }
}

/// Joins a name onto a path.
pub fn join_path(base: &str, name: &str, windows: bool) -> (r: String)
    ensures
        r@ == path_join(base@, name@, windows),
{
    let b = chars_of(base);
    let n = chars_of(name);
    if prefix_of(&n, windows) > 0 {
        return string_of(n.as_slice());
    }
    if n.len() > 0 && sep(n[0], windows) {
        let k = prefix_of(&b, windows);
        let mut out = slice_of(&b, 0, k);
        extend(&mut out, n.as_slice());
        assert(out@ =~= path_join(base@, name@, windows));
        return string_of(out.as_slice());
    }
    let k = prefix_of(&b, windows);
    let mut out = b;
    if out.len() > 0 && !sep(out[out.len() - 1], windows) && k < out.len() {
        out.push(if windows { '\\' } else { '/' });
    }
    extend(&mut out, n.as_slice());
    assert(out@ =~= path_join(base@, name@, windows));
    string_of(out.as_slice())
}

/// The parent of a path.
pub fn parent_path(p: &str, windows: bool) -> (r: Option<String>)
    ensures
        r is None <==> path_parent(p@, windows) is None,
        r matches Some(s) ==> path_parent(p@, windows) == Some(s@),
{
    let v = chars_of(p);
    let n = prefix_of(&v, windows);
    let ghost r = v@.subrange(n as int, v@.len() as int);
    let e = trimmed_end(&v, n, v.len(), windows);
    let ghost t = v@.subrange(n as int, e as int);
    if e == n {
        return None;
    }
    match last_sep_in(&v, n, e, windows) {
        None => Some(string_of(slice_of(&v, 0, n).as_slice())),
        Some(k) => {
            proof {
                lemma_last_sep(t, windows);
            }
            let h = trimmed_end(&v, n, k, windows);
            assert(t.subrange(0, k - n) =~= v@.subrange(n as int, k as int));
            let mut out = slice_of(&v, 0, n);
            if h == n {
                assert(t[0] == v@[n as int]);
                out.push(v[n]);
            } else {
                let mid = slice_of(&v, n, h);
                extend(&mut out, mid.as_slice());
            }
            assert(out@ =~= path_parent(p@, windows).unwrap());
            Some(string_of(out.as_slice()))
        },
    }
}

/// The last component of a path.
pub fn file_name(p: &str, windows: bool) -> (r: Option<String>)
    ensures
        r is None <==> path_file_name(p@, windows) is None,
        r matches Some(s) ==> path_file_name(p@, windows) == Some(s@),
{
    let v = chars_of(p);
    let n = prefix_of(&v, windows);
    let e = trimmed_end(&v, n, v.len(), windows);
    let ghost t = v@.subrange(n as int, e as int);
    if e == n {
        return None;
    }
    proof {
        lemma_last_sep(t, windows);
    }
    let start = match last_sep_in(&v, n, e, windows) {
        None => n,
        Some(k) => k + 1,
    };
    let c = slice_of(&v, start, e);
    assert(c@ =~= t.subrange(last_sep(t, windows) + 1, t.len() as int));
    if c.len() == 2 && c[0] == '.' && c[1] == '.' {
        assert(c@ =~= seq!['.', '.']);
        return None;
    }
    if c.len() == 1 && c[0] == '.' {
        assert(c@ =~= seq!['.']);
        return None;
    }
    assert(c@ != seq!['.', '.'] && c@ != seq!['.']) by {
        if c@ == seq!['.', '.'] {
            assert(c@[0] == '.' && c@[1] == '.');
        }
        if c@ == seq!['.'] {
            assert(c@[0] == '.');
        }
    }
    Some(string_of(c.as_slice()))
}

} // verus!
