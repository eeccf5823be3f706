//! `@include` directive expansion.
//!
//! A line whose trimmed text starts with `@include ` names another file,
//! relative to the including file's directory, absolute, or `~`-prefixed
//! for the home directory.  The file is expanded in place, recursively, up
//! to a nesting depth of 10; a file already visited (by canonical path) is
//! skipped with a note, as are missing files and files over 40 KB.
//!
//! The file system is consulted through an `IncludeSnapshot`: the answers
//! known so far for canonical paths and file contents.  Expansion stops and
//! names the path it needs when an answer is missing; the caller reads it,
//! records it in the snapshot, and expands again.

use vstd::prelude::*;
use crate::text::{
    byte_len, char_len, char_utf8_len, chars_eq, chars_of, copy_chars, lines, push_all, push_str,
    split_lines, starts_with, starts_with_chars, string_of, subseq, trim, trim_chars, views,
    lemma_byte_len_concat, exceeds_bytes,
};
use crate::paths::{join_path_chars, path_join, path_parent, path_parent_of};

verus! {

broadcast use vstd::string::group_string_axioms;

/// Maximum `@include` nesting depth.
pub const MAX_INCLUDE_DEPTH: usize = 10;

/// Maximum size in bytes of a single included file.
pub const INCLUDE_FILE_SIZE_LIMIT: usize = 40960;

/// What is known of the file system: the canonical form of include paths,
/// and the contents of include paths (`None`: the file could not be read).
pub struct IncludeSnapshot {
    pub canonical: Vec<(String, String)>,
    pub contents: Vec<(String, Option<String>)>,
}

/// The first entry for `key`.
pub open spec fn lookup<V>(entries: Seq<(Seq<char>, V)>, key: Seq<char>) -> Option<V>
    decreases entries.len(),
{
    if entries.len() == 0 {
        None
    } else if entries[0].0 == key {
        Some(entries[0].1)
    } else {
        lookup(entries.drop_first(), key)
    }
}

pub open spec fn canonical_entries(s: Seq<(String, String)>) -> Seq<(Seq<char>, Seq<char>)> {
    s.map_values(|e: (String, String)| (e.0@, e.1@))
}

pub open spec fn content_entries(s: Seq<(String, Option<String>)>) -> Seq<
    (Seq<char>, Option<Seq<char>>),
> {
    s.map_values(
        |e: (String, Option<String>)|
            (
                e.0@,
                match e.1 {
                    Some(t) => Some(t@),
                    None => None,
                },
            ),
    )
}

/// The snapshot as plain values.
pub type SnapshotView = (Seq<(Seq<char>, Seq<char>)>, Seq<(Seq<char>, Option<Seq<char>>)>);

impl IncludeSnapshot {
    pub open spec fn view(&self) -> SnapshotView {
        (canonical_entries(self.canonical@), content_entries(self.contents@))
    }

    /// An empty snapshot.
    pub fn new() -> (r: Self)
        ensures
            r.view().0.len() == 0,
            r.view().1.len() == 0,
    {
        IncludeSnapshot { canonical: Vec::new(), contents: Vec::new() }
    }
}

/// Why an expansion stopped before finishing.
#[derive(Debug, PartialEq, Eq)]
pub enum IncludeStop {
    /// The canonical form of this include path is needed.
    NeedCanonical(String),
    /// The contents of this include path are needed.
    NeedContent(String),
}

/// `IncludeStop` as plain values.
pub enum StopView {
    NeedCanonical(Seq<char>),
    NeedContent(Seq<char>),
}

pub open spec fn stop_view(s: IncludeStop) -> StopView {
    match s {
        IncludeStop::NeedCanonical(p) => StopView::NeedCanonical(p@),
        IncludeStop::NeedContent(p) => StopView::NeedContent(p@),
    }
}

/// The path named by an `@include` line, if the line is one.
pub open spec fn directive(line: Seq<char>) -> Option<Seq<char>> {
    let t = trim(line);
    if starts_with(t, "@include "@) {
        Some(trim(t.skip(9)))
    } else {
        None
    }
}

/// The file an include path names: `~` the home directory itself, `~/x`
/// or `~x` the path `x` under `home`, an absolute path as is, anything else
/// under `base_dir`.
pub open spec fn include_target(p: Seq<char>, base_dir: Seq<char>, home: Seq<char>) -> Seq<char> {
    if p.len() == 1 && p[0] == '~' {
        home
    } else if p.len() > 1 && p[0] == '~' && p[1] == '/' {
        path_join(home, p.skip(2))
    } else if p.len() > 0 && p[0] == '~' {
        path_join(home, p.skip(1))
    } else if p.len() > 0 && p[0] == '/' {
        p
    } else {
        path_join(base_dir, p)
    }
}

pub open spec fn circular_note(p: Seq<char>) -> Seq<char> {
    "<!-- circular @include "@ + p + " skipped -->\n"@
}

pub open spec fn too_large_note(p: Seq<char>) -> Seq<char> {
    "<!-- @include "@ + p + " exceeds 40KB limit -->\n"@
}

pub open spec fn not_found_note(p: Seq<char>) -> Seq<char> {
    "<!-- @include "@ + p + " not found -->\n"@
}

/// Result of an expansion: the text or where it stopped, and the visited set.
pub type Expansion = (Result<Seq<char>, StopView>, Set<Seq<char>>);

pub open spec fn depth_measure(depth: nat) -> nat {
    if depth < MAX_INCLUDE_DEPTH {
        (MAX_INCLUDE_DEPTH - depth) as nat
    } else {
        0
    }
}

/// Expansion of a whole text at `depth`: at the maximum depth the text is
/// returned as it is; otherwise line by line.
pub open spec fn expand_text(
    snap: SnapshotView,
    home: Seq<char>,
    content: Seq<char>,
    base_dir: Seq<char>,
    visited: Set<Seq<char>>,
    depth: nat,
) -> Expansion
    decreases depth_measure(depth), 2nat, 0nat,
{
    if depth >= MAX_INCLUDE_DEPTH {
        (Ok(content), visited)
    } else {
        expand_lines(snap, home, lines(content), base_dir, visited, depth)
    }
}

/// Expansion of a sequence of lines, left to right.
pub open spec fn expand_lines(
    snap: SnapshotView,
    home: Seq<char>,
    ls: Seq<Seq<char>>,
    base_dir: Seq<char>,
    visited: Set<Seq<char>>,
    depth: nat,
) -> Expansion
    decreases depth_measure(depth), 1nat, ls.len(),
{
    if ls.len() == 0 {
        (Ok(Seq::<char>::empty()), visited)
    } else {
        let first = expand_line(snap, home, ls[0], base_dir, visited, depth);
        match first.0 {
            Err(e) => (Err(e), first.1),
            Ok(o1) => {
                let rest = expand_lines(snap, home, ls.drop_first(), base_dir, first.1, depth);
                match rest.0 {
                    Ok(o2) => (Ok(o1 + o2), rest.1),
                    Err(e) => (Err(e), rest.1),
                }
            },
        }
    }
}

/// Expansion of one line: a plain line is kept (with a line feed); an
/// `@include` line is replaced by the expanded file followed by a line
/// feed, or by a note when the file is circular, missing or too large.
pub open spec fn expand_line(
    snap: SnapshotView,
    home: Seq<char>,
    line: Seq<char>,
    base_dir: Seq<char>,
    visited: Set<Seq<char>>,
    depth: nat,
) -> Expansion
    decreases depth_measure(depth), 0nat, 0nat,
{
    match directive(line) {
        None => (Ok(line + seq!['\n']), visited),
        Some(p) => {
            let target = include_target(p, base_dir, home);
            match lookup(snap.0, target) {
                None => (Err(StopView::NeedCanonical(target)), visited),
                Some(canonical) => if visited.contains(canonical) {
                    (Ok(circular_note(p)), visited)
                } else {
                    match lookup(snap.1, target) {
                        None => (Err(StopView::NeedContent(target)), visited),
                        Some(None) => (Ok(not_found_note(p)), visited),
                        Some(Some(text)) => if byte_len(text) > INCLUDE_FILE_SIZE_LIMIT {
                            (Ok(too_large_note(p)), visited)
                        } else if depth >= MAX_INCLUDE_DEPTH {
                            (Ok(line + seq!['\n']), visited)
                        } else {
                            let parent = match path_parent_of(target) {
                                Some(q) => q,
                                None => base_dir,
                            };
                            let inner = expand_text(
                                snap,
                                home,
                                text,
                                parent,
                                visited.insert(canonical),
                                depth + 1,
                            );
                            match inner.0 {
                                Ok(o) => (Ok(o + seq!['\n']), inner.1),
                                Err(e) => (Err(e), inner.1),
                            }
                        },
                    }
                },
            }
        },
    }
}

/// The set of strings in a vector.
pub open spec fn string_set(v: Seq<String>) -> Set<Seq<char>> {
    Set::new(|s: Seq<char>| exists|i: int| 0 <= i < v.len() && v[i]@ == s)
}

fn lookup_canonical(entries: &Vec<(String, String)>, key: &Vec<char>) -> (r: Option<Vec<char>>)
    ensures
        match r {
            Some(v) => lookup(canonical_entries(entries@), key@) == Some(v@),
            None => lookup(canonical_entries(entries@), key@) is None,
        },
{
    let mut i: usize = 0;
    assert(canonical_entries(entries@).skip(0) =~= canonical_entries(entries@));
    while i < entries.len()
        invariant
            i <= entries.len(),
            lookup(canonical_entries(entries@), key@) == lookup(
                canonical_entries(entries@).skip(i as int),
                key@,
            ),
        decreases entries.len() - i,
    {
        let k = chars_of(entries[i].0.as_str());
        proof {
            let es = canonical_entries(entries@).skip(i as int);
            assert(es[0] == (entries@[i as int].0@, entries@[i as int].1@));
            assert(es.drop_first() =~= canonical_entries(entries@).skip(i + 1));
        }
        if chars_eq(&k, key) {
            return Some(chars_of(entries[i].1.as_str()));
        }
        i = i + 1;
    }
    proof {
        assert(canonical_entries(entries@).skip(i as int) =~= Seq::<(Seq<char>, Seq<char>)>::empty());
    }
    None
}

fn lookup_content(entries: &Vec<(String, Option<String>)>, key: &Vec<char>) -> (r: Option<
    Option<Vec<char>>,
>)
    ensures
        match r {
            Some(Some(v)) => lookup(content_entries(entries@), key@) == Some(Some(v@)),
            Some(None) => lookup(content_entries(entries@), key@) == Some(None::<Seq<char>>),
            None => lookup(content_entries(entries@), key@) is None,
        },
{
    let mut i: usize = 0;
    assert(content_entries(entries@).skip(0) =~= content_entries(entries@));
    while i < entries.len()
        invariant
            i <= entries.len(),
            lookup(content_entries(entries@), key@) == lookup(
                content_entries(entries@).skip(i as int),
                key@,
            ),
        decreases entries.len() - i,
    {
        let k = chars_of(entries[i].0.as_str());
        proof {
            let es = content_entries(entries@).skip(i as int);
            assert(es.drop_first() =~= content_entries(entries@).skip(i + 1));
        }
        if chars_eq(&k, key) {
            return match &entries[i].1 {
                Some(t) => Some(Some(chars_of(t.as_str()))),
                None => Some(None),
            };
        }
        i = i + 1;
    }
    proof {
        assert(content_entries(entries@).skip(i as int) =~= Seq::<
            (Seq<char>, Option<Seq<char>>),
        >::empty());
    }
    None
}

fn visited_contains(visited: &Vec<String>, key: &Vec<char>) -> (r: bool)
    ensures
        r == string_set(visited@).contains(key@),
{
    let mut i: usize = 0;
    while i < visited.len()
        invariant
            i <= visited.len(),
            forall|j: int| 0 <= j < i ==> visited@[j]@ != key@,
        decreases visited.len() - i,
    {
        let k = chars_of(visited[i].as_str());
        if chars_eq(&k, key) {
            return true;
        }
        i = i + 1;
    }
    false
}

fn note(prefix: &str, p: &Vec<char>, suffix: &str) -> (r: Vec<char>)
    ensures
        r@ == prefix@ + p@ + suffix@,
{
    let mut r = chars_of(prefix);
    push_all(&mut r, p);
    push_str(&mut r, suffix);
    r
}

/// The path an `@include` line names, if the line is one.
fn directive_of(line: &Vec<char>) -> (r: Option<Vec<char>>)
    ensures
        match r {
            Some(p) => directive(line@) == Some(p@),
            None => directive(line@) is None,
        },
{
    let t = trim_chars(line);
    let kw = chars_of("@include ");
    proof {
        reveal_strlit("@include ");
    }
    if starts_with_chars(&t, &kw) {
        let rest = subseq(&t, 9, t.len());
        proof {
            assert(rest@ =~= t@.skip(9));
        }
        Some(trim_chars(&rest))
    } else {
        None
    }
}

fn target_of(p: &Vec<char>, base_dir: &Vec<char>, home: &Vec<char>) -> (r: Vec<char>)
    ensures
        r@ == include_target(p@, base_dir@, home@),
{
    if p.len() == 1 && p[0] == '~' {
        copy_chars(home)
    } else if p.len() > 1 && p[0] == '~' && p[1] == '/' {
        let rest = subseq(p, 2, p.len());
        proof {
            assert(rest@ =~= p@.skip(2));
        }
        join_path_chars(home, &rest)
    } else if p.len() > 0 && p[0] == '~' {
        let rest = subseq(p, 1, p.len());
        proof {
            assert(rest@ =~= p@.skip(1));
        }
        join_path_chars(home, &rest)
    } else if p.len() > 0 && p[0] == '/' {
        copy_chars(p)
    } else {
        join_path_chars(base_dir, p)
    }
}

fn expand_line_exec(
    line: &Vec<char>,
    base_dir: &Vec<char>,
    visited: &mut Vec<String>,
    depth: usize,
    snap: &IncludeSnapshot,
    home: &Vec<char>,
) -> (r: Result<Vec<char>, IncludeStop>)
    requires
        depth < MAX_INCLUDE_DEPTH,
    ensures
        ({
            let e = expand_line(
                snap.view(),
                home@,
                line@,
                base_dir@,
                string_set(old(visited)@),
                depth as nat,
            );
            &&& string_set(final(visited)@) == e.1
            &&& match r {
                Ok(o) => e.0 == Ok::<Seq<char>, StopView>(o@),
                Err(s) => e.0 == Err::<Seq<char>, StopView>(stop_view(s)),
            }
        }),
    decreases MAX_INCLUDE_DEPTH - depth, 0nat,
{
    let p = match directive_of(line) {
        None => {
            let mut l = copy_chars(line);
            l.push('\n');
            assert(l@ =~= line@ + seq!['\n']);
            return Ok(l);
        },
        Some(p) => p,
    };
    let target = target_of(&p, base_dir, home);
    let canonical = match lookup_canonical(&snap.canonical, &target) {
        None => {
            return Err(IncludeStop::NeedCanonical(string_of(&target)));
        },
        Some(c) => c,
    };
    if visited_contains(visited, &canonical) {
        return Ok(note("<!-- circular @include ", &p, " skipped -->\n"));
    }
    let text = match lookup_content(&snap.contents, &target) {
        None => {
            return Err(IncludeStop::NeedContent(string_of(&target)));
        },
        Some(None) => {
            return Ok(note("<!-- @include ", &p, " not found -->\n"));
        },
        Some(Some(t)) => t,
    };
    if exceeds_bytes(&text, INCLUDE_FILE_SIZE_LIMIT) {
        return Ok(note("<!-- @include ", &p, " exceeds 40KB limit -->\n"));
    }
    let ghost before = visited@;
    visited.push(string_of(&canonical));
    proof {
        assert(string_set(visited@) =~= string_set(before).insert(canonical@)) by {
            assert forall|s: Seq<char>| string_set(before).insert(canonical@).contains(
                s,
            ) implies string_set(visited@).contains(s) by {
                if s == canonical@ {
                    assert(visited@[before.len() as int]@ == s);
                } else {
                    let j = choose|j: int| 0 <= j < before.len() && before[j]@ == s;
                    assert(visited@[j] == before[j]);
                }
            }
            assert forall|s: Seq<char>| string_set(visited@).contains(s) implies string_set(
                before,
            ).insert(canonical@).contains(s) by {
                let j = choose|j: int| 0 <= j < visited@.len() && visited@[j]@ == s;
                if j < before.len() {
                    assert(visited@[j] == before[j]);
                }
            }
        }
    }
    let tstr = string_of(&target);
    let parent = match path_parent(tstr.as_str()) {
        Some(q) => chars_of(q.as_str()),
        None => copy_chars(base_dir),
    };
    proof {
        assert(parent@ == (match path_parent_of(target@) {
            Some(q) => q,
            None => base_dir@,
        }));
    }
    match expand_exec(&text, &parent, visited, depth + 1, snap, home) {
        Ok(mut o) => {
            let ghost o0 = o@;
            o.push('\n');
            assert(o@ =~= o0 + seq!['\n']);
            Ok(o)
        },
        Err(e) => Err(e),
    }
}

fn expand_exec(
    content: &Vec<char>,
    base_dir: &Vec<char>,
    visited: &mut Vec<String>,
    depth: usize,
    snap: &IncludeSnapshot,
    home: &Vec<char>,
) -> (r: Result<Vec<char>, IncludeStop>)
    requires
        depth <= MAX_INCLUDE_DEPTH,
    ensures
        ({
            let e = expand_text(
                snap.view(),
                home@,
                content@,
                base_dir@,
                string_set(old(visited)@),
                depth as nat,
            );
            &&& string_set(final(visited)@) == e.1
            &&& match r {
                Ok(o) => e.0 == Ok::<Seq<char>, StopView>(o@),
                Err(s) => e.0 == Err::<Seq<char>, StopView>(stop_view(s)),
            }
        }),
    decreases MAX_INCLUDE_DEPTH - depth, 1nat,
{
    if depth >= MAX_INCLUDE_DEPTH {
        return Ok(copy_chars(content));
    }
    let ls = split_lines(content);
    let ghost all = views(ls@);
    let ghost v0 = string_set(visited@);
    let mut out: Vec<char> = Vec::new();
    let mut i: usize = 0;
    proof {
        assert(all.skip(0) =~= all);
        assert(Seq::<char>::empty() + Seq::<char>::empty() =~= Seq::<char>::empty());
    }
    while i < ls.len()
        invariant
            i <= ls.len(),
            depth < MAX_INCLUDE_DEPTH,
            all == views(ls@),
            all == lines(content@),
            v0 == string_set(old(visited)@),
            ({
                let whole = expand_lines(snap.view(), home@, all, base_dir@, v0, depth as nat);
                let rest = expand_lines(
                    snap.view(),
                    home@,
                    all.skip(i as int),
                    base_dir@,
                    string_set(visited@),
                    depth as nat,
                );
                &&& whole.1 == rest.1
                &&& match rest.0 {
                    Ok(o) => whole.0 == Ok::<Seq<char>, StopView>(out@ + o),
                    Err(e) => whole.0 == Err::<Seq<char>, StopView>(e),
                }
            }),
        decreases ls.len() - i,
    {
        let line = &ls[i];
        let ghost vi = string_set(visited@);
        let ghost rest = all.skip(i as int);
        proof {
            assert(rest[0] == line@);
            assert(rest.drop_first() =~= all.skip(i + 1));
        }
        let piece = match expand_line_exec(line, base_dir, visited, depth, snap, home) {
            Ok(x) => x,
            Err(e) => {
                return Err(e);
            },
        };
        let ghost out0 = out@;
        push_all(&mut out, &piece);
        i = i + 1;
        proof {
            let nxt = expand_lines(
                snap.view(),
                home@,
                all.skip(i as int),
                base_dir@,
                string_set(visited@),
                depth as nat,
            );
            match nxt.0 {
                Ok(o) => {
                    assert(out@ + o =~= out0 + (piece@ + o));
                },
                Err(_) => {},
            }
        }
    }
    proof {
        assert(all.skip(i as int) =~= Seq::<Seq<char>>::empty());
        assert(out@ + Seq::<char>::empty() =~= out@);
    }
    Ok(out)
}

/// Expand `@include` directives in `content` at nesting `depth`, with
/// relative paths resolved against `base_dir` and `~` against `home`.
/// `visited` holds the canonical paths already included; the paths this
/// expansion includes are added to it.  The expansion stops with
/// `NeedCanonical`/`NeedContent` when `snap` lacks an answer it needs.
pub fn expand_includes(
    content: &str,
    base_dir: &str,
    visited: &mut Vec<String>,
    depth: usize,
    snap: &IncludeSnapshot,
    home: &str,
) -> (r: Result<String, IncludeStop>)
    ensures
        ({
            let e = expand_text(
                snap.view(),
                home@,
                content@,
                base_dir@,
                string_set(old(visited)@),
                depth as nat,
            );
            &&& string_set(final(visited)@) == e.1
            &&& match r {
                Ok(o) => e.0 == Ok::<Seq<char>, StopView>(o@),
                Err(s) => e.0 == Err::<Seq<char>, StopView>(stop_view(s)),
            }
        }),
{
    let c = chars_of(content);
    if depth >= MAX_INCLUDE_DEPTH {
        return Ok(content.to_owned());
    }
    let b = chars_of(base_dir);
    let h = chars_of(home);
    match expand_exec(&c, &b, visited, depth, snap, &h) {
        Ok(o) => Ok(string_of(&o)),
        Err(e) => Err(e),
    }
}

// ---------------------------------------------------------------------------
// Laws
// ---------------------------------------------------------------------------

/// Expansion stops only for answers the snapshot lacks.
pub open spec fn asks_only_unknown(snap: SnapshotView, r: Result<Seq<char>, StopView>) -> bool {
    match r {
        Err(StopView::NeedCanonical(p)) => lookup(snap.0, p) is None,
        Err(StopView::NeedContent(p)) => lookup(snap.1, p) is None,
        _ => true,
    }
}

/// An expansion only asks for an answer that is missing from the snapshot
/// (so recording the answer and expanding again makes progress), and the
/// visited set only grows.
pub proof fn law_expand_text(
    snap: SnapshotView,
    home: Seq<char>,
    content: Seq<char>,
    base_dir: Seq<char>,
    visited: Set<Seq<char>>,
    depth: nat,
)
    ensures
        asks_only_unknown(snap, expand_text(snap, home, content, base_dir, visited, depth).0),
        visited.subset_of(expand_text(snap, home, content, base_dir, visited, depth).1),
    decreases depth_measure(depth), 2nat, 0nat,
{
    if depth < MAX_INCLUDE_DEPTH {
        law_expand_lines(snap, home, lines(content), base_dir, visited, depth);
    }
}

/// `law_expand_text` for a sequence of lines.
pub proof fn law_expand_lines(
    snap: SnapshotView,
    home: Seq<char>,
    ls: Seq<Seq<char>>,
    base_dir: Seq<char>,
    visited: Set<Seq<char>>,
    depth: nat,
)
    ensures
        asks_only_unknown(snap, expand_lines(snap, home, ls, base_dir, visited, depth).0),
        visited.subset_of(expand_lines(snap, home, ls, base_dir, visited, depth).1),
    decreases depth_measure(depth), 1nat, ls.len(),
{
    if ls.len() > 0 {
        law_expand_line(snap, home, ls[0], base_dir, visited, depth);
        let first = expand_line(snap, home, ls[0], base_dir, visited, depth);
        if first.0 is Ok {
            law_expand_lines(snap, home, ls.drop_first(), base_dir, first.1, depth);
        }
    }
}

/// `law_expand_text` for one line.
pub proof fn law_expand_line(
    snap: SnapshotView,
    home: Seq<char>,
    line: Seq<char>,
    base_dir: Seq<char>,
    visited: Set<Seq<char>>,
    depth: nat,
)
    ensures
        asks_only_unknown(snap, expand_line(snap, home, line, base_dir, visited, depth).0),
        visited.subset_of(expand_line(snap, home, line, base_dir, visited, depth).1),
    decreases depth_measure(depth), 0nat, 0nat,
{
    match directive(line) {
        None => {},
        Some(p) => {
            let target = include_target(p, base_dir, home);
            match lookup(snap.0, target) {
                None => {},
                Some(canonical) => {
                    if !visited.contains(canonical) {
                        match lookup(snap.1, target) {
                            Some(Some(text)) => {
                                if byte_len(text) <= INCLUDE_FILE_SIZE_LIMIT && depth
                                    < MAX_INCLUDE_DEPTH {
                                    let parent = match path_parent_of(target) {
                                        Some(q) => q,
                                        None => base_dir,
                                    };
                                    law_expand_text(
                                        snap,
                                        home,
                                        text,
                                        parent,
                                        visited.insert(canonical),
                                        depth + 1,
                                    );
                                }
                            },
                            _ => {},
                        }
                    }
                },
            }
        },
    }
}

/// Lines without a directive are kept, each followed by a line feed.
pub open spec fn plain_output(ls: Seq<Seq<char>>) -> Seq<char>
    decreases ls.len(),
{
    if ls.len() == 0 {
        seq![]
    } else {
        ls[0] + seq!['\n'] + plain_output(ls.drop_first())
    }
}

/// Text without `@include` lines expands to its lines, each ended by a line
/// feed, and visits nothing.
pub proof fn law_no_directives(
    snap: SnapshotView,
    home: Seq<char>,
    ls: Seq<Seq<char>>,
    base_dir: Seq<char>,
    visited: Set<Seq<char>>,
    depth: nat,
)
    requires
        forall|i: int| 0 <= i < ls.len() ==> directive(#[trigger] ls[i]) is None,
    ensures
        expand_lines(snap, home, ls, base_dir, visited, depth) == (
            Ok::<Seq<char>, StopView>(plain_output(ls)),
            visited,
        ),
    decreases ls.len(),
{
    if ls.len() > 0 {
        assert(directive(ls[0]) is None);
        assert forall|i: int| 0 <= i < ls.drop_first().len() implies directive(
            #[trigger] ls.drop_first()[i],
        ) is None by {
            assert(ls.drop_first()[i] == ls[i + 1]);
        }
        law_no_directives(snap, home, ls.drop_first(), base_dir, visited, depth);
        let first = expand_line(snap, home, ls[0], base_dir, visited, depth);
        assert(first == (Ok::<Seq<char>, StopView>(ls[0] + seq!['\n']), visited));
    } else {
        assert(plain_output(ls) =~= Seq::<char>::empty());
    }
}


/// A file named by an `@include` line (a relative path resolved against
/// `base_dir`; an absolute path or one under `~` as it is) is expanded with
/// its own directory as the base of its nested `@include` lines, not the
/// includer's: the line becomes the file's text expanded one level deeper,
/// with the file's canonical path visited and its parent directory (or
/// `base_dir` for a path without one) as base, followed by a line feed.
pub proof fn law_nested_include_base(
    snap: SnapshotView,
    home: Seq<char>,
    line: Seq<char>,
    base_dir: Seq<char>,
    visited: Set<Seq<char>>,
    depth: nat,
    p: Seq<char>,
    canonical: Seq<char>,
    text: Seq<char>,
)
    requires
        directive(line) == Some(p),
        lookup(snap.0, include_target(p, base_dir, home)) == Some(canonical),
        !visited.contains(canonical),
        lookup(snap.1, include_target(p, base_dir, home)) == Some(Some(text)),
        byte_len(text) <= INCLUDE_FILE_SIZE_LIMIT,
        depth < MAX_INCLUDE_DEPTH,
    ensures
        p.len() > 0 && p[0] != '~' && p[0] != '/' ==> include_target(p, base_dir, home)
            == path_join(base_dir, p),
        ({
            let target = include_target(p, base_dir, home);
            let dir = match path_parent_of(target) {
                Some(q) => q,
                None => base_dir,
            };
            let inner = expand_text(snap, home, text, dir, visited.insert(canonical), depth + 1);
            expand_line(snap, home, line, base_dir, visited, depth) == (
                match inner.0 {
                    Ok(o) => Ok::<Seq<char>, StopView>(o + seq!['\n']),
                    Err(e) => Err::<Seq<char>, StopView>(e),
                },
                inner.1,
            )
        }),
{
}

} // verus!
