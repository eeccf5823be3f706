//! Unix path strings: joining, and the parts of a path that `std::path`
//! computes (parent, extension, file stem).

use vstd::prelude::*;
use crate::text::{chars_of, copy_chars, push_all, string_of, index_of, join, join_chars, views, subseq, lemma_index_of_is, lemma_index_of_bounds, chars_eq};

verus! {

broadcast use vstd::string::group_string_axioms;

/// `Path::join` on Unix: an absolute `p` replaces `base`; otherwise a `/`
/// is inserted unless `base` is empty or already ends with one.
pub open spec fn path_join(base: Seq<char>, p: Seq<char>) -> Seq<char> {
    if p.len() > 0 && p[0] == '/' {
        p
    } else if base.len() == 0 {
        p
    } else if base.last() == '/' {
        base + p
    } else {
        base + seq!['/'] + p
    }
}

/// `Path::join` over characters.
pub fn join_path_chars(base: &Vec<char>, p: &Vec<char>) -> (r: Vec<char>)
    ensures
        r@ == path_join(base@, p@),
{
    if p.len() > 0 && p[0] == '/' {
        copy_chars(p)
    } else if base.len() == 0 {
        copy_chars(p)
    } else {
        let mut r = copy_chars(base);
        if base[base.len() - 1] != '/' {
            r.push('/');
        }
        push_all(&mut r, p);
        r
    }
}

/// `Path::join` over strings.
pub fn join_path(base: &str, p: &str) -> (r: String)
    ensures
        r@ == path_join(base@, p@),
{
    let b = chars_of(base);
    let q = chars_of(p);
    let r = join_path_chars(&b, &q);
    string_of(&r)
}

/// What `Path::parent` returns for `p`.
pub uninterp spec fn path_parent_of(p: Seq<char>) -> Option<Seq<char>>;

/// `Path::new(p).parent()`: the path without its final component, or
/// `None` for a root or empty path.
#[verifier::external_body]
pub(crate) fn path_parent(p: &str) -> (r: Option<String>)
    ensures
        match r {
            Some(q) => path_parent_of(p@) == Some(q@),
            None => path_parent_of(p@) is None,
        },
{
    match std::path::Path::new(p).parent() {
        Some(q) => match q.to_str() {
            Some(t) => Some(t.to_string()),
            None => None,
        },
        None => None,
    }
}

/// What `Path::extension` returns for `p`.
pub uninterp spec fn path_extension_of(p: Seq<char>) -> Option<Seq<char>>;

/// `Path::new(p).extension()`: the part of the file name after its last
/// `.`, if the file name has one that is not its first character.
#[verifier::external_body]
pub(crate) fn path_extension(p: &str) -> (r: Option<String>)
    ensures
        match r {
            Some(q) => path_extension_of(p@) == Some(q@),
            None => path_extension_of(p@) is None,
        },
{
    match std::path::Path::new(p).extension() {
        Some(q) => match q.to_str() {
            Some(t) => Some(t.to_string()),
            None => None,
        },
        None => None,
    }
}

/// What `Path::file_stem` returns for `p`.
pub uninterp spec fn path_file_stem_of(p: Seq<char>) -> Option<Seq<char>>;

/// `Path::new(p).file_stem()`: the file name without its extension.
#[verifier::external_body]
pub(crate) fn path_file_stem(p: &str) -> (r: Option<String>)
    ensures
        match r {
            Some(q) => path_file_stem_of(p@) == Some(q@),
            None => path_file_stem_of(p@) is None,
        },
{
    match std::path::Path::new(p).file_stem() {
        Some(q) => match q.to_str() {
            Some(t) => Some(t.to_string()),
            None => None,
        },
        None => None,
    }
}

// ---------------------------------------------------------------------------
// Path identity
// ---------------------------------------------------------------------------

/// The pieces of `s` between the occurrences of `c` (`str::split`).
pub open spec fn split_on(s: Seq<char>, c: char) -> Seq<Seq<char>>
    decreases s.len(),
{
    let i = index_of(s, c);
    proof {
        lemma_index_of_bounds(s, c);
    }
    if 0 <= i < s.len() {
        seq![s.take(i)] + split_on(s.skip(i + 1), c)
    } else {
        seq![s]
    }
}

/// A piece of a path that names a component: not empty and not `.`.
pub open spec fn names_component(x: Seq<char>) -> bool {
    x.len() > 0 && x != seq!['.']
}

/// The pieces that name components, in order.
pub open spec fn component_pieces(ps: Seq<Seq<char>>) -> Seq<Seq<char>>
    decreases ps.len(),
{
    if ps.len() == 0 {
        seq![]
    } else if names_component(ps.last()) {
        component_pieces(ps.drop_last()).push(ps.last())
    } else {
        component_pieces(ps.drop_last())
    }
}

/// The identity of a Unix path, as `Path` equality sees it (by
/// components): the root, a leading `.` of a relative path, and the named
/// components, written back as text.  Repeated and trailing `/` and inner
/// `.` components do not count.
pub open spec fn path_key(p: Seq<char>) -> Seq<char> {
    let ps = split_on(p, '/');
    let root = p.len() > 0 && p[0] == '/';
    let cur = !root && ps[0] == seq!['.'];
    let comps = component_pieces(ps);
    let body = join(comps, seq!['/']);
    if root {
        seq!['/'] + body
    } else if cur {
        if comps.len() > 0 {
            seq!['.', '/'] + body
        } else {
            seq!['.']
        }
    } else {
        body
    }
}

proof fn lemma_split_at(t: Seq<char>, c: char, j: int)
    requires
        0 <= j < t.len(),
        t[j] == c,
        forall|k: int| 0 <= k < j ==> t[k] != c,
    ensures
        split_on(t, c) == seq![t.take(j)] + split_on(t.skip(j + 1), c),
{
    lemma_index_of_is(t, c, j);
}

proof fn lemma_split_single(t: Seq<char>, c: char)
    requires
        forall|k: int| 0 <= k < t.len() ==> t[k] != c,
    ensures
        split_on(t, c) == seq![t],
{
    lemma_index_of_is(t, c, t.len() as int);
}

fn split_on_char(s: &Vec<char>, c: char) -> (r: Vec<Vec<char>>)
    ensures
        views(r@) == split_on(s@, c),
{
    let mut out: Vec<Vec<char>> = Vec::new();
    let mut start: usize = 0;
    let mut i: usize = 0;
    assert(s@.skip(0) =~= s@);
    assert(views(out@) + split_on(s@, c) =~= split_on(s@, c));
    while i < s.len()
        invariant
            start <= i <= s.len(),
            forall|k: int| start <= k < i ==> s@[k] != c,
            views(out@) + split_on(s@.skip(start as int), c) == split_on(s@, c),
        decreases s.len() - i,
    {
        if s[i] == c {
            let piece = subseq(s, start, i);
            proof {
                let t = s@.skip(start as int);
                assert forall|k: int| 0 <= k < i - start implies t[k] != c by {
                    assert(t[k] == s@[start + k]);
                }
                lemma_split_at(t, c, i - start);
                assert(t.take(i - start) =~= piece@);
                assert(t.skip(i - start + 1) =~= s@.skip(i + 1));
                assert(views(out@.push(piece)) =~= views(out@).push(piece@));
            }
            out.push(piece);
            start = i + 1;
            proof {
                assert(views(out@) + split_on(s@.skip(start as int), c) =~= split_on(s@, c));
            }
        }
        i = i + 1;
    }
    let piece = subseq(s, start, s.len());
    proof {
        let t = s@.skip(start as int);
        assert forall|k: int| 0 <= k < t.len() implies t[k] != c by {
            assert(t[k] == s@[start + k]);
        }
        lemma_split_single(t, c);
        assert(t =~= piece@);
        assert(views(out@.push(piece)) =~= views(out@).push(piece@));
    }
    out.push(piece);
    proof {
        assert(views(out@) =~= split_on(s@, c));
    }
    out
}

/// The identity of a path, as `Path` equality sees it.
pub fn path_key_of(p: &str) -> (r: String)
    ensures
        r@ == path_key(p@),
{
    let pv = chars_of(p);
    let ps = split_on_char(&pv, '/');
    let mut comps: Vec<Vec<char>> = Vec::new();
    let mut k: usize = 0;
    while k < ps.len()
        invariant
            k <= ps.len(),
            views(comps@) == component_pieces(views(ps@).take(k as int)),
        decreases ps.len() - k,
    {
        proof {
            assert(views(ps@).take(k + 1).drop_last() =~= views(ps@).take(k as int));
            assert(views(ps@).take(k + 1).last() == ps@[k as int]@);
        }
        let piece = &ps[k];
        let dot = piece.len() == 1 && piece[0] == '.';
        proof {
            if piece@.len() == 1 {
                assert(dot == (piece@ =~= seq!['.']));
            } else {
                assert(piece@ != seq!['.']);
            }
        }
        if piece.len() > 0 && !dot {
            let copy = copy_chars(piece);
            proof {
                assert(views(comps@.push(copy)) =~= views(comps@).push(piece@));
            }
            comps.push(copy);
        }
        k = k + 1;
    }
    assert(views(ps@).take(ps.len() as int) =~= views(ps@));
    let sep = vec!['/'];
    assert(sep@ =~= seq!['/']);
    let body = join_chars(&comps, &sep);
    let root = pv.len() > 0 && pv[0] == '/';
    proof {
        assert(split_on(pv@, '/').len() > 0);
    }
    let first = &ps[0];
    let cur = !root && first.len() == 1 && first[0] == '.';
    proof {
        if !root {
            if first@.len() == 1 {
                assert(cur == (first@ =~= seq!['.']));
            } else {
                assert(first@ != seq!['.']);
            }
        }
    }
    let mut out: Vec<char> = Vec::new();
    if root {
        out.push('/');
        push_all(&mut out, &body);
    } else if cur {
        out.push('.');
        if comps.len() > 0 {
            out.push('/');
            push_all(&mut out, &body);
        }
    } else {
        push_all(&mut out, &body);
    }
    proof {
        assert(out@ =~= path_key(p@));
    }
    string_of(&out)
}

} // verus!
