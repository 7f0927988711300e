//! File names, stems and extensions of slash-separated paths.
//!
//! A path is read as a sequence of components between separators. Empty
//! components and components that are a single dot count for nothing. The
//! file name is the last component that remains, unless that is `..`. Its
//! last dot, where it is not the first character, parts the stem from the
//! extension.

use crate::text::{from_chars, text_view, to_chars};
use vstd::prelude::*;

verus! {

/// The character that separates the components of a path.
pub const SEPARATOR: char = '/';

/// Whether `s` holds a separator.
pub open spec fn has_separator(s: Seq<char>) -> bool {
    exists|i: int| 0 <= i < s.len() && #[trigger] s[i] == SEPARATOR
}

/// Where the last component of `p` starts: behind the last separator, or at 0.
pub open spec fn component_start(p: Seq<char>) -> int
    decreases p.len(),
{
    if p.len() == 0 || p.last() == SEPARATOR {
        p.len() as int
    } else {
        component_start(p.drop_last())
    }
}

/// The last component starts inside the path, a separator stands before it
/// and none stands in it.
pub proof fn lemma_component_start(p: Seq<char>)
    ensures
        0 <= component_start(p) <= p.len(),
        p.len() > 0 && p.last() != SEPARATOR ==> component_start(p) < p.len(),
        component_start(p) > 0 ==> p[component_start(p) - 1] == SEPARATOR,
        forall|i: int| component_start(p) <= i < p.len() ==> #[trigger] p[i] != SEPARATOR,
    decreases p.len(),
{
    if !(p.len() == 0 || p.last() == SEPARATOR) {
        let q = p.drop_last();
        lemma_component_start(q);
        assert forall|i: int| component_start(p) <= i < p.len() implies #[trigger] p[i]
            != SEPARATOR by {
            if i < q.len() {
                assert(q[i] != SEPARATOR);
            }
        }
    }
}

/// The file name of a path: its last component other than `.`, if there is
/// one and it is not `..`.
pub open spec fn file_name_of(p: Seq<char>) -> Option<Seq<char>>
    decreases p.len(),
{
    if p.len() == 0 {
        None
    } else if p.last() == SEPARATOR {
        file_name_of(p.drop_last())
    } else {
        let start = component_start(p);
        let last = p.subrange(start, p.len() as int);
        if last == seq!['.'] {
            proof {
                lemma_component_start(p);
            }
            file_name_of(p.subrange(0, start))
        } else if last == seq!['.', '.'] {
            None
        } else {
            Some(last)
        }
    }
}

/// A file name is a piece of its path that is not empty, holds no separator
/// and is neither `.` nor `..`.
pub proof fn lemma_file_name(p: Seq<char>)
    ensures
        file_name_of(p) matches Some(n) ==> {
            &&& n.len() > 0
            &&& !has_separator(n)
            &&& n != seq!['.']
            &&& n != seq!['.', '.']
            &&& exists|a: int, b: int| 0 <= a < b <= p.len() && n == #[trigger] p.subrange(a, b)
        },
    decreases p.len(),
{
    if p.len() == 0 {
    } else if p.last() == SEPARATOR {
        let q = p.drop_last();
        lemma_file_name(q);
        if let Some(n) = file_name_of(q) {
            let (a, b) = choose|a: int, b: int|
                0 <= a < b <= q.len() && n == #[trigger] q.subrange(a, b);
            assert(q.subrange(a, b) =~= p.subrange(a, b));
        }
    } else {
        lemma_component_start(p);
        let start = component_start(p);
        let last = p.subrange(start, p.len() as int);
        if last == seq!['.'] {
            let q = p.subrange(0, start);
            lemma_file_name(q);
            if let Some(n) = file_name_of(q) {
                let (a, b) = choose|a: int, b: int|
                    0 <= a < b <= q.len() && n == #[trigger] q.subrange(a, b);
                assert(q.subrange(a, b) =~= p.subrange(a, b));
            }
        } else if last == seq!['.', '.'] {
        } else {
            assert forall|i: int| 0 <= i < last.len() implies #[trigger] last[i] != SEPARATOR by {
                assert(last[i] == p[start + i]);
            }
        }
    }
}

/// Where a separator stands just before position `start` and none from there
/// on, the last component starts at `start`.
pub proof fn lemma_start_of_last_component(p: Seq<char>, start: int)
    requires
        0 <= start <= p.len(),
        start > 0 ==> p[start - 1] == SEPARATOR,
        forall|i: int| start <= i < p.len() ==> #[trigger] p[i] != SEPARATOR,
    ensures
        component_start(p) == start,
    decreases p.len() - start,
{
    if start < p.len() {
        assert(p.last() != SEPARATOR);
        let q = p.drop_last();
        assert forall|i: int| start <= i < q.len() implies #[trigger] q[i] != SEPARATOR by {
            assert(q[i] == p[i]);
        }
        assert(start > 0 ==> q[start - 1] == p[start - 1]);
        lemma_start_of_last_component(q, start);
    } else if p.len() > 0 {
        assert(p.last() == SEPARATOR);
    }
}

/// A text that is not empty, holds no separator and is neither `.` nor `..`
/// is the file name of any path that ends with it, where nothing or a
/// separator stands before it.
pub proof fn lemma_single_component(directory: Seq<char>, name: Seq<char>)
    requires
        directory.len() == 0 || directory.last() == SEPARATOR,
        name.len() > 0,
        !has_separator(name),
        name != seq!['.'],
        name != seq!['.', '.'],
    ensures
        file_name_of(directory + name) == Some(name),
{
    let p = directory + name;
    let start = directory.len() as int;
    assert(p.len() == start + name.len());
    assert(start > 0 ==> p[start - 1] == directory.last());
    assert forall|i: int| start <= i < p.len() implies #[trigger] p[i] != SEPARATOR by {
        assert(p[i] == name[i - start]);
    }
    lemma_start_of_last_component(p, start);
    assert(p.subrange(start, p.len() as int) =~= name);
    assert(p.last() != SEPARATOR);
}

/// `name` put into `directory`: behind it, with a separator in between unless
/// the directory is empty or ends with one.
pub open spec fn joined(directory: Seq<char>, name: Seq<char>) -> Seq<char> {
    if directory.len() == 0 || directory.last() == SEPARATOR {
        directory + name
    } else {
        directory.push(SEPARATOR) + name
    }
}

/// `name` put into `directory`.
pub fn join(directory: &str, name: &str) -> (r: String)
    ensures
        r@ == joined(directory@, name@),
{
    let d = to_chars(directory);
    let mut out = directory.to_owned();
    if d.len() > 0 && d[d.len() - 1] != SEPARATOR {
        out.push(SEPARATOR);
    }
    out.append(name);
    out
}

/// The position of the last dot in `n`, or -1 where `n` holds none.
pub open spec fn last_dot(n: Seq<char>) -> int
    decreases n.len(),
{
    if n.len() == 0 {
        -1
    } else if n.last() == '.' {
        n.len() - 1
    } else {
        last_dot(n.drop_last())
    }
}

/// [`last_dot`] is the position of a dot behind which no dot stands.
pub proof fn lemma_last_dot(n: Seq<char>)
    ensures
        -1 <= last_dot(n) < n.len(),
        last_dot(n) >= 0 ==> n[last_dot(n)] == '.',
        forall|i: int| last_dot(n) < i < n.len() ==> #[trigger] n[i] != '.',
    decreases n.len(),
{
    if n.len() > 0 && n.last() != '.' {
        let m = n.drop_last();
        lemma_last_dot(m);
        assert forall|i: int| last_dot(n) < i < n.len() implies #[trigger] n[i] != '.' by {
            if i < m.len() {
                assert(m[i] != '.');
            }
        }
    }
}

/// The stem of a file name: what stands before its last dot, or the whole
/// name where it holds no dot or only a leading one.
pub open spec fn stem_in(n: Seq<char>) -> Seq<char> {
    if last_dot(n) <= 0 {
        n
    } else {
        n.subrange(0, last_dot(n))
    }
}

/// The extension of a file name: what stands behind its last dot, if it holds
/// one that is not its first character.
pub open spec fn extension_in(n: Seq<char>) -> Option<Seq<char>> {
    if last_dot(n) <= 0 {
        None
    } else {
        Some(n.subrange(last_dot(n) + 1, n.len() as int))
    }
}

/// The stem of the file name of a path, if it has a file name.
pub open spec fn stem_of(p: Seq<char>) -> Option<Seq<char>> {
    match file_name_of(p) {
        Some(n) => Some(stem_in(n)),
        None => None,
    }
}

/// The extension of the file name of a path, if it has a file name with one.
pub open spec fn extension_of(p: Seq<char>) -> Option<Seq<char>> {
    match file_name_of(p) {
        Some(n) => extension_in(n),
        None => None,
    }
}

/// A stem is not empty, and neither a stem nor an extension holds a
/// separator.
pub proof fn lemma_stem_and_extension(p: Seq<char>)
    ensures
        stem_of(p) matches Some(s) ==> s.len() > 0 && !has_separator(s),
        extension_of(p) matches Some(e) ==> !has_separator(e),
{
    lemma_file_name(p);
    if let Some(n) = file_name_of(p) {
        lemma_last_dot(n);
        let s = stem_in(n);
        assert forall|i: int| 0 <= i < s.len() implies #[trigger] s[i] != SEPARATOR by {
            assert(s[i] == n[i]);
        }
        if let Some(e) = extension_in(n) {
            assert forall|i: int| 0 <= i < e.len() implies #[trigger] e[i] != SEPARATOR by {
                assert(e[i] == n[last_dot(n) + 1 + i]);
            }
        }
    }
}

/// Whether a path starts at the root: with a separator.
pub open spec fn is_absolute_path(p: Seq<char>) -> bool {
    p.len() > 0 && p[0] == SEPARATOR
}

/// Whether `path` starts at the root.
pub fn is_absolute(path: &str) -> (r: bool)
    ensures
        r == is_absolute_path(path@),
{
    !path.is_empty() && path.get_char(0) == SEPARATOR
}

/// The bounds of the file name of `p` within `p`.
fn file_name_span(p: &Vec<char>) -> (r: Option<(usize, usize)>)
    ensures
        match r {
            Some((a, b)) => a < b <= p@.len() && file_name_of(p@) == Some(
                p@.subrange(a as int, b as int),
            ),
            None => file_name_of(p@) is None,
        },
{
    let mut end: usize = p.len();
    assert(p@.subrange(0, end as int) =~= p@);
    loop
        invariant
            end <= p@.len(),
            file_name_of(p@) == file_name_of(p@.subrange(0, end as int)),
        decreases end,
    {
        let ghost q = p@.subrange(0, end as int);
        if end == 0 {
            return None;
        }
        if p[end - 1] == SEPARATOR {
            assert(q.drop_last() =~= p@.subrange(0, end - 1));
            end -= 1;
            continue ;
        }
        let mut start: usize = end;
        while start > 0 && p[start - 1] != SEPARATOR
            invariant
                start <= end <= p@.len(),
                q == p@.subrange(0, end as int),
                component_start(q) == component_start(p@.subrange(0, start as int)),
            decreases start,
        {
            assert(p@.subrange(0, start as int).drop_last() =~= p@.subrange(0, start - 1));
            start -= 1;
        }
        proof {
            lemma_component_start(q);
            assert(q.subrange(start as int, end as int) =~= p@.subrange(start as int, end as int));
            assert(q.subrange(0, start as int) =~= p@.subrange(0, start as int));
        }
        let ghost last = p@.subrange(start as int, end as int);
        if end - start == 1 && p[start] == '.' {
            assert(last =~= seq!['.']);
            end = start;
        } else if end - start == 2 && p[start] == '.' && p[start + 1] == '.' {
            assert(last =~= seq!['.', '.']);
            return None;
        } else {
            proof {
                if last == seq!['.'] {
                    assert(last.len() == 1 && last[0] == '.');
                }
                if last == seq!['.', '.'] {
                    assert(last.len() == 2 && last[0] == '.' && last[1] == '.');
                }
            }
            return Some((start, end));
        }
    }
}

/// The position of the last dot of `p[a..b]` within `p`, or `a` where the
/// last dot is the first character or there is none.
fn split_point(p: &Vec<char>, a: usize, b: usize) -> (d: usize)
    requires
        a <= b <= p@.len(),
    ensures
        a <= d <= b,
        d > a ==> d < b,
        d > a <==> last_dot(p@.subrange(a as int, b as int)) > 0,
        d > a ==> d - a == last_dot(p@.subrange(a as int, b as int)),
{
    let ghost n = p@.subrange(a as int, b as int);
    let mut k: usize = b;
    assert(n.take(k - a) =~= n);
    while k > a && p[k - 1] != '.'
        invariant
            a <= k <= b <= p@.len(),
            n == p@.subrange(a as int, b as int),
            last_dot(n) == last_dot(n.take(k - a)),
        decreases k,
    {
        assert(n.take(k - a).drop_last() =~= n.take(k - a - 1));
        k -= 1;
    }
    if k > a {
        assert(n.take(k - a).last() == '.');
        k - 1
    } else {
        a
    }
}

/// The file name of `path`, if it has one.
pub fn file_name(path: &str) -> (r: Option<String>)
    ensures
        text_view(r) == file_name_of(path@),
{
    let p = to_chars(path);
    match file_name_span(&p) {
        Some((a, b)) => Some(from_chars(&p, a, b)),
        None => None,
    }
}

/// The stem of the file name of `path`, if it has a file name.
pub fn file_stem(path: &str) -> (r: Option<String>)
    ensures
        text_view(r) == stem_of(path@),
{
    let p = to_chars(path);
    match file_name_span(&p) {
        Some((a, b)) => {
            let d = split_point(&p, a, b);
            let ghost n = p@.subrange(a as int, b as int);
            if d > a {
                assert(n.subrange(0, d - a) =~= p@.subrange(a as int, d as int));
                Some(from_chars(&p, a, d))
            } else {
                Some(from_chars(&p, a, b))
            }
        },
        None => None,
    }
}

/// The extension of the file name of `path`, if it has a file name with one.
pub fn extension(path: &str) -> (r: Option<String>)
    ensures
        text_view(r) == extension_of(path@),
{
    let p = to_chars(path);
    match file_name_span(&p) {
        Some((a, b)) => {
            let d = split_point(&p, a, b);
            let ghost n = p@.subrange(a as int, b as int);
            if d > a {
                assert(n.subrange(d - a + 1, n.len() as int) =~= p@.subrange(d + 1, b as int));
                Some(from_chars(&p, d + 1, b))
            } else {
                None
            }
        },
        None => None,
    }
}

} // verus!
