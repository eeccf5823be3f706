//! AGENTS.md hierarchical memory files.
//!
//! Memory files are loaded in priority order: Managed → User → Project →
//! Local.  Each file may start with a small YAML-like frontmatter block and
//! may pull in other files with `@include` (see `includes`).  This module
//! holds the frontmatter parser, the order in which files are loaded, the
//! assembly of a loaded file, the prompt built from the files, and the
//! mtime-keyed cache; reading the file system is left to the caller.

use vstd::prelude::*;
use crate::text::{
    chars_of, copy_chars, index_of, is_blank, join, join_chars, lemma_index_of_bounds, lines,
    parse_u32, parse_u32_chars, push_all, split_lines, starts_with, starts_with_chars, string_of,
    subseq, trim, trim_chars, views, find, find_chars, lemma_find_from_spec, string_views,
    chars_eq,
};
use crate::paths::{join_path, join_path_chars, path_join, path_parent, path_parent_of, path_key, path_key_of};

verus! {

broadcast use vstd::string::group_string_axioms;

/// Memory file scope, in priority order.
#[derive(Debug, Clone, Copy, PartialEq, Eq, PartialOrd, Ord, Structural)]
pub enum MemoryScope {
    /// `~/.codex/rules/*.md` — global managed policy.
    Managed,
    /// `~/.codex/AGENTS.md` — user-level memory.
    User,
    /// `{project_root}/AGENTS.md` — project-level memory.
    Project,
    /// `{project_root}/.codex/AGENTS.md` — local override.
    Local,
}

/// Rank of a scope in the loading order.
pub open spec fn scope_rank(s: MemoryScope) -> nat {
    match s {
        MemoryScope::Managed => 0,
        MemoryScope::User => 1,
        MemoryScope::Project => 2,
        MemoryScope::Local => 3,
    }
}

/// The lower-case name of a scope.
pub open spec fn scope_name(s: MemoryScope) -> Seq<char> {
    match s {
        MemoryScope::Managed => "managed"@,
        MemoryScope::User => "user"@,
        MemoryScope::Project => "project"@,
        MemoryScope::Local => "local"@,
    }
}

impl MemoryScope {
    /// The lower-case name of the scope, as it is displayed.
    pub fn label(&self) -> (r: &'static str)
        ensures
            r@ == scope_name(*self),
    {
        match self {
            MemoryScope::Managed => "managed",
            MemoryScope::User => "user",
            MemoryScope::Project => "project",
            MemoryScope::Local => "local",
        }
    }
}

// ---------------------------------------------------------------------------
// Frontmatter
// ---------------------------------------------------------------------------

/// Frontmatter parsed from an AGENTS.md file.
#[derive(Debug)]
pub struct MemoryFrontmatter {
    pub memory_type: Option<String>,
    pub priority: Option<u32>,
    pub scope: Option<String>,
}

/// The frontmatter as plain values.
pub type FrontmatterView = (Option<Seq<char>>, Option<u32>, Option<Seq<char>>);

pub open spec fn opt_string_view(x: Option<String>) -> Option<Seq<char>> {
    match x {
        Some(s) => Some(s@),
        None => None,
    }
}

impl MemoryFrontmatter {
    pub open spec fn view(&self) -> FrontmatterView {
        (opt_string_view(self.memory_type), self.priority, opt_string_view(self.scope))
    }

    /// A frontmatter with no field set.
    pub fn empty() -> (r: Self)
        ensures
            r.view() == (None::<Seq<char>>, None::<u32>, None::<Seq<char>>),
    {
        MemoryFrontmatter { memory_type: None, priority: None, scope: None }
    }
}

impl Default for MemoryFrontmatter {
    fn default() -> (r: Self)
        ensures
            r.view() == (None::<Seq<char>>, None::<u32>, None::<Seq<char>>),
    {
        MemoryFrontmatter::empty()
    }
}

/// A frontmatter line `key: value` (first colon; key and value trimmed)
/// sets `memory_type`, `priority` (when it parses as a `u32`, cleared
/// otherwise) or `scope`; any other line is ignored.
pub open spec fn frontmatter_line(fm: FrontmatterView, line: Seq<char>) -> FrontmatterView {
    let l = trim(line);
    let i = index_of(l, ':');
    if i < l.len() {
        let key = trim(l.take(i));
        let val = trim(l.skip(i + 1));
        if key == "memory_type"@ {
            (Some(val), fm.1, fm.2)
        } else if key == "priority"@ {
            (fm.0, parse_u32(val), fm.2)
        } else if key == "scope"@ {
            (fm.0, fm.1, Some(val))
        } else {
            fm
        }
    } else {
        fm
    }
}

/// The frontmatter read from the lines of a YAML block, later lines
/// overriding earlier ones.
pub open spec fn frontmatter_of(ls: Seq<Seq<char>>) -> FrontmatterView
    decreases ls.len(),
{
    if ls.len() == 0 {
        (None, None, None)
    } else {
        frontmatter_line(frontmatter_of(ls.drop_last()), ls.last())
    }
}

/// Number of leading `\n` characters.
pub open spec fn leading_lf(s: Seq<char>) -> nat
    decreases s.len(),
{
    if s.len() > 0 && s[0] == '\n' {
        1 + leading_lf(s.drop_first())
    } else {
        0
    }
}

/// Where the frontmatter block ends: the first `"\n---"` after the opening `---`.
pub open spec fn frontmatter_end(content: Seq<char>) -> Option<int> {
    if starts_with(content, "---"@) {
        find(content.skip(3), seq!['\n', '-', '-', '-'])
    } else {
        None
    }
}

/// `(frontmatter, body)` of a memory file: with a `--- ... \n---` block at
/// the start, the block's lines are read as frontmatter and the body is
/// what follows the closing `---`, without leading line feeds; otherwise
/// the frontmatter is empty and the body is the whole content.
pub open spec fn split_frontmatter(content: Seq<char>) -> (FrontmatterView, Seq<char>) {
    match frontmatter_end(content) {
        Some(end) => {
            let after = content.skip(3);
            let yaml = trim(after.take(end));
            let body = after.skip(end + 4);
            (frontmatter_of(lines(yaml)), body.skip(leading_lf(body) as int))
        },
        None => ((None, None, None), content),
    }
}

fn frontmatter_line_exec(fm: &mut MemoryFrontmatter, line: &Vec<char>)
    ensures
        final(fm).view() == frontmatter_line(old(fm).view(), line@),
{
    let l = trim_chars(line);
    let mut i: usize = 0;
    while i < l.len() && l[i] != ':'
        invariant
            i <= l.len(),
            forall|k: int| 0 <= k < i ==> l@[k] != ':',
        decreases l.len() - i,
    {
        i = i + 1;
    }
    proof {
        lemma_index_of_bounds(l@, ':');
        crate::text::lemma_index_of_is(l@, ':', i as int);
    }
    if i < l.len() {
        let key = trim_chars(&subseq(&l, 0, i));
        let val = trim_chars(&subseq(&l, i + 1, l.len()));
        proof {
            assert(l@.subrange(0, i as int) =~= l@.take(i as int));
            assert(l@.subrange(i + 1, l@.len() as int) =~= l@.skip(i + 1));
        }
        if chars_eq(&key, &chars_of("memory_type")) {
            fm.memory_type = Some(string_of(&val));
        } else if chars_eq(&key, &chars_of("priority")) {
            fm.priority = parse_u32_chars(&val);
        } else if chars_eq(&key, &chars_of("scope")) {
            fm.scope = Some(string_of(&val));
        }
    }
}

/// Strip a `--- ... ---` frontmatter block from the start of `content` and
/// parse it.  Returns `(frontmatter, body_without_frontmatter)`.
pub fn parse_frontmatter(content: &str) -> (r: (MemoryFrontmatter, &str))
    ensures
        (r.0.view(), r.1@) == split_frontmatter(content@),
{
    let c = chars_of(content);
    let dashes = chars_of("---");
    if !starts_with_chars(&c, &dashes) {
        return (MemoryFrontmatter::empty(), content);
    }
    proof {
        reveal_strlit("---");
    }
    let after = subseq(&c, 3, c.len());
    let mut pat: Vec<char> = Vec::new();
    pat.push('\n');
    pat.push('-');
    pat.push('-');
    pat.push('-');
    assert(pat@ =~= seq!['\n', '-', '-', '-']);
    proof {
        assert(after@ =~= content@.skip(3));
    }
    match find_chars(&after, &pat) {
        None => (MemoryFrontmatter::empty(), content),
        Some(end) => {
            proof {
                lemma_find_from_spec(after@, pat@, 0);
            }
            let yaml = trim_chars(&subseq(&after, 0, end));
            proof {
                assert(after@.subrange(0, end as int) =~= after@.take(end as int));
            }
            let ls = split_lines(&yaml);
            let mut fm = MemoryFrontmatter::empty();
            let mut i: usize = 0;
            while i < ls.len()
                invariant
                    i <= ls.len(),
                    views(ls@) == lines(yaml@),
                    fm.view() == frontmatter_of(views(ls@).take(i as int)),
                decreases ls.len() - i,
            {
                proof {
                    assert(views(ls@).take(i + 1).drop_last() =~= views(ls@).take(i as int));
                    assert(views(ls@).take(i + 1).last() == ls@[i as int]@);
                }
                frontmatter_line_exec(&mut fm, &ls[i]);
                i = i + 1;
            }
            proof {
                assert(views(ls@).take(ls.len() as int) =~= views(ls@));
            }
            let mut start = 3 + end + 4;
            while start < c.len() && c[start] == '\n'
                invariant
                    3 + end + 4 <= start <= c.len(),
                    leading_lf(c@.skip(3 + end + 4)) == (start - (3 + end + 4)) + leading_lf(
                        c@.skip(start as int),
                    ),
                decreases c.len() - start,
            {
                proof {
                    assert(c@.skip(start as int).drop_first() =~= c@.skip(start + 1));
                }
                start = start + 1;
            }
            proof {
                let body = after@.skip(end + 4);
                assert(body =~= c@.skip(3 + end + 4));
                if start < c.len() {
                    assert(c@.skip(start as int)[0] == c@[start as int]);
                }
                assert(leading_lf(c@.skip(start as int)) == 0);
                assert(body.skip(leading_lf(body) as int) =~= c@.subrange(
                    start as int,
                    c@.len() as int,
                ));
            }
            let n = c.len();
            let body = content.substring_char(start, n);
            (fm, body)
        },
    }
}

// ---------------------------------------------------------------------------
// Loaded files and the prompt
// ---------------------------------------------------------------------------

/// A file modification time: seconds and nanoseconds relative to the epoch.
#[derive(Debug, Clone, Copy, PartialEq, Eq, Structural)]
pub struct FileTime {
    pub secs: i64,
    pub nanos: u32,
}

/// Loaded memory file with metadata.
#[derive(Debug)]
pub struct MemoryFileInfo {
    pub path: String,
    pub scope: MemoryScope,
    pub content: String,
    pub frontmatter: MemoryFrontmatter,
    pub mtime: Option<FileTime>,
}

/// The trimmed contents of the files that are not blank, in order.
pub open spec fn prompt_parts(contents: Seq<Seq<char>>) -> Seq<Seq<char>>
    decreases contents.len(),
{
    if contents.len() == 0 {
        seq![]
    } else if is_blank(contents.last()) {
        prompt_parts(contents.drop_last())
    } else {
        prompt_parts(contents.drop_last()).push(trim(contents.last()))
    }
}

/// The contents of a sequence of loaded files.
pub open spec fn file_contents(files: Seq<MemoryFileInfo>) -> Seq<Seq<char>> {
    files.map_values(|f: MemoryFileInfo| f.content@)
}

/// Concatenate the memory file contents into one system-prompt fragment:
/// the trimmed content of each non-blank file, separated by a blank line.
pub fn build_memory_prompt(files: &Vec<MemoryFileInfo>) -> (r: String)
    ensures
        r@ == join(prompt_parts(file_contents(files@)), seq!['\n', '\n']),
{
    let mut parts: Vec<Vec<char>> = Vec::new();
    let mut i: usize = 0;
    while i < files.len()
        invariant
            i <= files.len(),
            views(parts@) == prompt_parts(file_contents(files@).take(i as int)),
        decreases files.len() - i,
    {
        let c = chars_of(files[i].content.as_str());
        let t = trim_chars(&c);
        proof {
            assert(file_contents(files@).take(i + 1).drop_last() =~= file_contents(files@).take(
                i as int,
            ));
            assert(file_contents(files@).take(i + 1).last() == c@);
        }
        if t.len() > 0 {
            proof {
                assert(views(parts@.push(t)) =~= views(parts@).push(t@));
            }
            parts.push(t);
        }
        i = i + 1;
    }
    proof {
        assert(file_contents(files@).take(files.len() as int) =~= file_contents(files@));
    }
    let sep = vec!['\n', '\n'];
    assert(sep@ =~= seq!['\n', '\n']);
    let out = join_chars(&parts, &sep);
    string_of(&out)
}

// ---------------------------------------------------------------------------
// Loading order
// ---------------------------------------------------------------------------

/// Lexicographic order of paths by character (the order of `PathBuf::cmp`
/// on paths in one directory).
pub open spec fn path_lt(a: Seq<char>, b: Seq<char>) -> bool
    decreases a.len(),
{
    if a.len() == 0 {
        b.len() > 0
    } else if b.len() == 0 {
        false
    } else if a[0] != b[0] {
        (a[0] as u32) < (b[0] as u32)
    } else {
        path_lt(a.drop_first(), b.drop_first())
    }
}

pub proof fn lemma_path_lt_transitive(a: Seq<char>, b: Seq<char>, c: Seq<char>)
    requires
        path_lt(a, b),
        path_lt(b, c),
    ensures
        path_lt(a, c),
    decreases a.len(),
{
    if a.len() > 0 && b.len() > 0 && c.len() > 0 && a[0] == b[0] && b[0] == c[0] {
        lemma_path_lt_transitive(a.drop_first(), b.drop_first(), c.drop_first());
    }
}

pub proof fn lemma_path_lt_irreflexive(a: Seq<char>)
    ensures
        !path_lt(a, a),
    decreases a.len(),
{
    if a.len() > 0 {
        lemma_path_lt_irreflexive(a.drop_first());
    }
}

pub proof fn lemma_path_lt_asymmetric(a: Seq<char>, b: Seq<char>)
    requires
        path_lt(a, b),
    ensures
        !path_lt(b, a),
{
    if path_lt(b, a) {
        lemma_path_lt_transitive(a, b, a);
        lemma_path_lt_irreflexive(a);
    }
}

/// `path_lt` over characters.
pub fn path_less(a: &Vec<char>, b: &Vec<char>) -> (r: bool)
    ensures
        r == path_lt(a@, b@),
{
    let mut i: usize = 0;
    assert(a@.skip(0) =~= a@);
    assert(b@.skip(0) =~= b@);
    while i < a.len() && i < b.len() && a[i] == b[i]
        invariant
            i <= a.len(),
            i <= b.len(),
            path_lt(a@, b@) == path_lt(a@.skip(i as int), b@.skip(i as int)),
        decreases a.len() - i,
    {
        proof {
            assert(a@.skip(i as int).drop_first() =~= a@.skip(i + 1));
            assert(b@.skip(i as int).drop_first() =~= b@.skip(i + 1));
        }
        i = i + 1;
    }
    proof {
        if i < a.len() {
            assert(a@.skip(i as int)[0] == a@[i as int]);
        }
        if i < b.len() {
            assert(b@.skip(i as int)[0] == b@[i as int]);
        }
    }
    if i == a.len() {
        i < b.len()
    } else if i == b.len() {
        false
    } else {
        (a[i] as u32) < (b[i] as u32)
    }
}

/// No later path is smaller than an earlier one.
pub open spec fn paths_sorted(s: Seq<Seq<char>>) -> bool {
    forall|i: int, j: int| 0 <= i < j < s.len() ==> !path_lt(#[trigger] s[j], #[trigger] s[i])
}

/// The `rules/*.md` paths for the given directory entries: joined to the
/// rules directory, kept when their extension is `md`, in input order.
pub open spec fn rule_candidates(rules_dir: Seq<char>, names: Seq<Seq<char>>) -> Seq<Seq<char>>
    decreases names.len(),
{
    if names.len() == 0 {
        seq![]
    } else {
        let p = path_join(rules_dir, names.last());
        if crate::paths::path_extension_of(p) == Some("md"@) {
            rule_candidates(rules_dir, names.drop_last()).push(p)
        } else {
            rule_candidates(rules_dir, names.drop_last())
        }
    }
}

/// `dir/AGENTS.md` then the fallback file `dir/{fallback}`.
pub open spec fn scope_files(dir: Seq<char>, fallback: Seq<char>) -> Seq<Seq<char>> {
    seq![path_join(dir, "AGENTS.md"@), path_join(dir, fallback)]
}

/// The files to load, in order, each with its scope: the sorted
/// `rules/*.md` files of `codex_home` (Managed), then `AGENTS.md` and the
/// fallback file named `fallback` of `codex_home` (User), of
/// `project_root` (Project) and of `project_root/.codex` (Local).
pub open spec fn is_memory_plan(
    plan: Seq<(Seq<char>, MemoryScope)>,
    project_root: Seq<char>,
    codex_home: Seq<char>,
    rule_names: Seq<Seq<char>>,
    fallback: Seq<char>,
) -> bool {
    let rules = rule_candidates(path_join(codex_home, "rules"@), rule_names);
    let n = rules.len() as int;
    let local_dir = path_join(project_root, ".codex"@);
    &&& plan.len() == n + 6
    &&& paths_sorted(Seq::new(n as nat, |i: int| plan[i].0))
    &&& Seq::new(n as nat, |i: int| plan[i].0).to_multiset() == rules.to_multiset()
    &&& forall|i: int| 0 <= i < n ==> (#[trigger] plan[i]).1 == MemoryScope::Managed
    &&& plan[n] == (scope_files(codex_home, fallback)[0], MemoryScope::User)
    &&& plan[n + 1] == (scope_files(codex_home, fallback)[1], MemoryScope::User)
    &&& plan[n + 2] == (scope_files(project_root, fallback)[0], MemoryScope::Project)
    &&& plan[n + 3] == (scope_files(project_root, fallback)[1], MemoryScope::Project)
    &&& plan[n + 4] == (scope_files(local_dir, fallback)[0], MemoryScope::Local)
    &&& plan[n + 5] == (scope_files(local_dir, fallback)[1], MemoryScope::Local)
}

proof fn lemma_insert_multiset(s: Seq<Seq<char>>, pos: int, x: Seq<char>)
    requires
        0 <= pos <= s.len(),
    ensures
        s.insert(pos, x).to_multiset() =~= s.to_multiset().insert(x),
{
    broadcast use vstd::seq_lib::group_to_multiset_ensures;

    let s2 = s.insert(pos, x);
    assert(s2.remove(pos) =~= s);
    assert(s2[pos] == x);
    assert(s2.contains(x));
    assert(s2.to_multiset().count(x) > 0);
}

/// Sort paths by `path_lt`, keeping equal paths in input order.
fn sort_paths(v: Vec<Vec<char>>) -> (r: Vec<Vec<char>>)
    ensures
        paths_sorted(views(r@)),
        views(r@).to_multiset() == views(v@).to_multiset(),
{
    let mut out: Vec<Vec<char>> = Vec::new();
    let mut i: usize = 0;
    broadcast use vstd::seq_lib::group_to_multiset_ensures;

    while i < v.len()
        invariant
            i <= v.len(),
            paths_sorted(views(out@)),
            views(out@).to_multiset() == views(v@).take(i as int).to_multiset(),
        decreases v.len() - i,
    {
        let x = &v[i];
        let mut pos: usize = 0;
        while pos < out.len() && !path_less(x, &out[pos])
            invariant
                pos <= out.len(),
                forall|k: int| 0 <= k < pos ==> !path_lt(x@, #[trigger] views(out@)[k]),
            decreases out.len() - pos,
        {
            pos = pos + 1;
        }
        let ghost before = views(out@);
        proof {
            if pos < out.len() {
                assert(path_lt(x@, before[pos as int]));
            }
            assert forall|k: int| 0 <= k < pos implies !path_lt(x@, before[k]) by {
                assert(before[k] == views(out@)[k]);
            }
        }
        let copy = crate::text::copy_chars(x);
        out.insert(pos, copy);
        proof {
            assert(views(out@) =~= before.insert(pos as int, x@));
            let after = views(out@);
            assert forall|a: int, b: int| 0 <= a < b < after.len() implies !path_lt(
                #[trigger] after[b],
                #[trigger] after[a],
            ) by {
                if b < pos {
                    assert(after[a] == before[a]);
                    assert(after[b] == before[b]);
                } else if b == pos {
                    assert(after[a] == before[a]);
                    assert(after[b] == x@);
                } else if a < pos {
                    assert(after[a] == before[a]);
                    assert(after[b] == before[b - 1]);
                    assert(!path_lt(x@, before[a]));
                    assert(path_lt(x@, before[pos as int]));
                    if pos < b - 1 {
                        assert(!path_lt(before[b - 1], before[pos as int]));
                    }
                    if path_lt(before[b - 1], before[a]) {
                        if pos < b - 1 {
                            if path_lt(before[pos as int], before[b - 1]) {
                                lemma_path_lt_transitive(before[pos as int], before[b - 1], before[a]);
                                lemma_path_lt_transitive(x@, before[pos as int], before[a]);
                            } else {
                                assert(!path_lt(before[pos as int], before[a]));
                            }
                        }
                    }
                    if pos < b - 1 {
                        assert(!path_lt(before[b - 1], before[a]));
                    } else {
                        assert(!path_lt(before[b - 1], before[a]));
                    }
                } else if a == pos {
                    assert(after[a] == x@);
                    assert(after[b] == before[b - 1]);
                    assert(path_lt(x@, before[pos as int]));
                    if path_lt(before[b - 1], x@) {
                        if b - 1 == pos {
                            lemma_path_lt_asymmetric(x@, before[pos as int]);
                        } else {
                            lemma_path_lt_transitive(before[b - 1], x@, before[pos as int]);
                        }
                    }
                } else {
                    assert(after[a] == before[a - 1]);
                    assert(after[b] == before[b - 1]);
                }
            }
            lemma_insert_multiset(before, pos as int, x@);
            assert(views(v@)[i as int] == x@);
            assert(views(v@).take(i + 1) =~= views(v@).take(i as int).push(x@));
            vstd::seq_lib::to_multiset_build(views(v@).take(i as int), x@);
        }
        i = i + 1;
    }
    proof {
        assert(views(v@).take(v.len() as int) =~= views(v@));
    }
    out
}

/// The memory files to load, in order, each with its scope.  `rule_names`
/// are the entries of `codex_home/rules`; `fallback_name` is the file read
/// after `AGENTS.md` in each directory, for backward compatibility.
pub fn memory_file_plan(
    project_root: &str,
    codex_home: &str,
    rule_names: &Vec<String>,
    fallback_name: &str,
) -> (r: Vec<(String, MemoryScope)>)
    ensures
        is_memory_plan(
            r@.map_values(|e: (String, MemoryScope)| (e.0@, e.1)),
            project_root@,
            codex_home@,
            string_views(rule_names@),
            fallback_name@,
        ),
{
    let home = chars_of(codex_home);
    let rules_dir = join_path_chars(&home, &chars_of("rules"));
    let mut cands: Vec<Vec<char>> = Vec::new();
    let mut i: usize = 0;
    while i < rule_names.len()
        invariant
            i <= rule_names.len(),
            rules_dir@ == path_join(codex_home@, "rules"@),
            views(cands@) == rule_candidates(rules_dir@, string_views(rule_names@).take(i as int)),
        decreases rule_names.len() - i,
    {
        let p = join_path_chars(&rules_dir, &chars_of(rule_names[i].as_str()));
        let ps = string_of(&p);
        proof {
            let names = string_views(rule_names@).take(i + 1);
            assert(names.drop_last() =~= string_views(rule_names@).take(i as int));
            assert(names.last() == rule_names@[i as int]@);
        }
        let is_md = match crate::paths::path_extension(ps.as_str()) {
            Some(e) => chars_eq(&chars_of(e.as_str()), &chars_of("md")),
            None => false,
        };
        if is_md {
            proof {
                assert(views(cands@.push(p)) =~= views(cands@).push(p@));
            }
            cands.push(p);
        }
        i = i + 1;
    }
    proof {
        assert(string_views(rule_names@).take(rule_names.len() as int) =~= string_views(rule_names@));
    }
    let sorted = sort_paths(cands);
    let mut plan: Vec<(String, MemoryScope)> = Vec::new();
    let mut k: usize = 0;
    while k < sorted.len()
        invariant
            k <= sorted.len(),
            plan@.len() == k,
            forall|j: int| 0 <= j < k ==> (#[trigger] plan@[j]).0@ == views(sorted@)[j] && plan@[j].1
                == MemoryScope::Managed,
        decreases sorted.len() - k,
    {
        plan.push((string_of(&sorted[k]), MemoryScope::Managed));
        k = k + 1;
    }
    let root = chars_of(project_root);
    let local = join_path_chars(&root, &chars_of(".codex"));
    plan.push((join_path(codex_home, "AGENTS.md"), MemoryScope::User));
    plan.push((join_path(codex_home, fallback_name), MemoryScope::User));
    plan.push((join_path(project_root, "AGENTS.md"), MemoryScope::Project));
    plan.push((join_path(project_root, fallback_name), MemoryScope::Project));
    let ls = string_of(&local);
    plan.push((join_path(ls.as_str(), "AGENTS.md"), MemoryScope::Local));
    plan.push((join_path(ls.as_str(), fallback_name), MemoryScope::Local));
    proof {
        broadcast use vstd::seq_lib::group_to_multiset_ensures;

        let pv = plan@.map_values(|e: (String, MemoryScope)| (e.0@, e.1));
        let n = sorted@.len() as int;
        let rules = rule_candidates(path_join(codex_home@, "rules"@), string_views(rule_names@));
        assert(views(sorted@).len() == views(sorted@).to_multiset().len());
        assert(rules.len() == rules.to_multiset().len());
        assert(n == rules.len());
        assert(Seq::new(n as nat, |j: int| pv[j].0) =~= views(sorted@));
        assert(forall|j: int| 0 <= j < n ==> (#[trigger] pv[j]).1 == MemoryScope::Managed);
        assert(pv[n] == (scope_files(codex_home@, fallback_name@)[0], MemoryScope::User));
        assert(pv[n + 1] == (scope_files(codex_home@, fallback_name@)[1], MemoryScope::User));
        assert(pv[n + 2] == (scope_files(project_root@, fallback_name@)[0], MemoryScope::Project));
        assert(pv[n + 3] == (scope_files(project_root@, fallback_name@)[1], MemoryScope::Project));
        assert(pv[n + 4] == (scope_files(path_join(project_root@, ".codex"@), fallback_name@)[0], MemoryScope::Local));
        assert(pv[n + 5] == (scope_files(path_join(project_root@, ".codex"@), fallback_name@)[1], MemoryScope::Local));
    }
    plan
}

// ---------------------------------------------------------------------------
// Loading one file
// ---------------------------------------------------------------------------

/// Maximum size in bytes of a single memory file.
pub const MAX_FILE_SIZE: u64 = 40960;

/// A memory file larger than `MAX_FILE_SIZE` bytes is skipped.
pub fn memory_file_too_large(size: u64) -> (r: bool)
    ensures
        r == (size > MAX_FILE_SIZE),
{
    size > MAX_FILE_SIZE
}

/// The directory `@include` paths of a memory file are resolved against:
/// the file's parent, or `.`.
pub open spec fn memory_file_base(path: Seq<char>) -> Seq<char> {
    match path_parent_of(path) {
        Some(q) => q,
        None => "."@,
    }
}

/// Assemble a loaded memory file from its text `raw`: the frontmatter is
/// parsed off, and the body's `@include` directives are expanded against the
/// file's directory, with the file's own `canonical` path already visited.
pub fn load_memory_file(
    path: &str,
    scope: MemoryScope,
    raw: &str,
    canonical: &str,
    mtime: Option<FileTime>,
    snap: &crate::includes::IncludeSnapshot,
    home: &str,
) -> (r: Result<MemoryFileInfo, crate::includes::IncludeStop>)
    ensures
        ({
            let (fm, body) = split_frontmatter(raw@);
            let e = crate::includes::expand_text(
                snap.view(),
                home@,
                body,
                memory_file_base(path@),
                Set::empty().insert(canonical@),
                0,
            );
            match r {
                Ok(f) => {
                    &&& e.0 == Ok::<Seq<char>, crate::includes::StopView>(f.content@)
                    &&& f.path@ == path@
                    &&& f.scope == scope
                    &&& f.frontmatter.view() == fm
                    &&& f.mtime == mtime
                },
                Err(s) => e.0 == Err::<Seq<char>, crate::includes::StopView>(
                    crate::includes::stop_view(s),
                ),
            }
        }),
{
    let (frontmatter, body) = parse_frontmatter(raw);
    let mut visited: Vec<String> = Vec::new();
    visited.push(string_of(&chars_of(canonical)));
    proof {
        let ss = crate::includes::string_set(visited@);
        assert(visited@[0]@ == canonical@);
        assert forall|x: Seq<char>| ss.contains(x) <==> Set::<Seq<char>>::empty().insert(
            canonical@,
        ).contains(x) by {
            if x == canonical@ {
                assert(visited@[0]@ == x);
            }
        }
        assert(ss =~= Set::<Seq<char>>::empty().insert(canonical@));
    }
    let base = match path_parent(path) {
        Some(q) => q,
        None => string_of(&chars_of(".")),
    };
    let content = crate::includes::expand_includes(body, base.as_str(), &mut visited, 0, snap, home)?;
    Ok(
        MemoryFileInfo {
            path: string_of(&chars_of(path)),
            scope,
            content,
            frontmatter,
            mtime,
        },
    )
}

// ---------------------------------------------------------------------------
// Cache
// ---------------------------------------------------------------------------

/// One cached file: path (as its identity, see `path_key`), modification
/// time and content.
pub struct CacheEntry {
    pub path: String,
    pub mtime: FileTime,
    pub content: String,
}

/// Simple mtime-keyed file cache to avoid re-reading unchanged files.
pub struct MemoryCache {
    entries: Vec<CacheEntry>,
}

/// The first entry for `path`.
pub open spec fn cache_lookup(entries: Seq<CacheEntry>, path: Seq<char>) -> Option<(FileTime, Seq<char>)>
    decreases entries.len(),
{
    if entries.len() == 0 {
        None
    } else if entries[0].path@ == path {
        Some((entries[0].mtime, entries[0].content@))
    } else {
        cache_lookup(entries.drop_first(), path)
    }
}

/// What a lookup of `path` with the file's current modification time
/// `mtime` (`None`: unknown) finds in the cache `m`: the recorded content
/// when the recorded time equals `mtime`.
pub open spec fn cache_hit(
    m: Map<Seq<char>, (FileTime, Seq<char>)>,
    path: Seq<char>,
    mtime: Option<FileTime>,
) -> Option<Seq<char>> {
    match mtime {
        Some(t) => if m.contains_key(path) && m[path].0 == t {
            Some(m[path].1)
        } else {
            None
        },
        None => None,
    }
}

impl MemoryCache {
    /// What the cache holds for `path`: its recorded mtime and content.
    pub closed spec fn cached(&self, path: Seq<char>) -> Option<(FileTime, Seq<char>)> {
        cache_lookup(self.entries@, path)
    }

    /// The cache as a map from path identity (`path_key`) to recorded mtime
    /// and content.
    pub closed spec fn view(&self) -> Map<Seq<char>, (FileTime, Seq<char>)> {
        Map::new(|p: Seq<char>| self.cached(p) is Some, |p: Seq<char>| self.cached(p)->0)
    }

    proof fn lemma_view(&self, p: Seq<char>)
        ensures
            self@.contains_key(p) == self.cached(p) is Some,
            self@.contains_key(p) ==> Some(self@[p]) == self.cached(p),
    {
    }

    /// An empty cache.
    pub fn new() -> (r: Self)
        ensures
            r@ == Map::<Seq<char>, (FileTime, Seq<char>)>::empty(),
    {
        let r = MemoryCache { entries: Vec::new() };
        assert(r@ =~= Map::<Seq<char>, (FileTime, Seq<char>)>::empty());
        r
    }

    fn find(&self, path: &Vec<char>) -> (r: Option<usize>)
        ensures
            match r {
                Some(i) => i < self.entries@.len() && self.entries@[i as int].path@ == path@
                    && self.cached(path@) == Some(
                    (self.entries@[i as int].mtime, self.entries@[i as int].content@),
                ) && forall|j: int| 0 <= j < i ==> self.entries@[j].path@ != path@,
                None => self.cached(path@) is None && forall|j: int|
                    0 <= j < self.entries@.len() ==> self.entries@[j].path@ != path@,
            },
    {
        let mut i: usize = 0;
        assert(self.entries@.skip(0) =~= self.entries@);
        while i < self.entries.len()
            invariant
                i <= self.entries@.len(),
                self.cached(path@) == cache_lookup(self.entries@.skip(i as int), path@),
                forall|j: int| 0 <= j < i ==> self.entries@[j].path@ != path@,
            decreases self.entries@.len() - i,
        {
            proof {
                assert(self.entries@.skip(i as int).drop_first() =~= self.entries@.skip(i + 1));
                assert(self.entries@.skip(i as int)[0] == self.entries@[i as int]);
            }
            if chars_eq(&chars_of(self.entries[i].path.as_str()), path) {
                return Some(i);
            }
            i = i + 1;
        }
        assert(self.entries@.skip(i as int) =~= Seq::<CacheEntry>::empty());
        None
    }

    /// The cached content of `path`, if the file's current modification time
    /// `mtime` (`None`: unknown) equals the recorded one.  Paths are the
    /// same entry when they name the same components.
    pub fn get(&self, path: &str, mtime: Option<FileTime>) -> (r: Option<&str>)
        ensures
            match r {
                Some(c) => cache_hit(self@, path_key(path@), mtime) == Some(c@),
                None => cache_hit(self@, path_key(path@), mtime) is None,
            },
    {
        let key = path_key_of(path);
        proof {
            self.lemma_view(key@);
        }
        let now = match mtime {
            Some(t) => t,
            None => {
                return None;
            },
        };
        match self.find(&chars_of(key.as_str())) {
            Some(i) => {
                let e = &self.entries[i];
                if e.mtime.secs == now.secs && e.mtime.nanos == now.nanos {
                    Some(e.content.as_str())
                } else {
                    None
                }
            },
            None => None,
        }
    }

    /// Store `content` for `path` with the file's current modification time
    /// `mtime`; nothing is stored when the time is unknown.
    pub fn insert(&mut self, path: String, content: String, mtime: Option<FileTime>)
        ensures
            final(self)@ == match mtime {
                Some(t) => old(self)@.insert(path_key(path@), (t, content@)),
                None => old(self)@,
            },
    {
        let key = path_key_of(path.as_str());
        let ghost pv = key@;
        let ghost cv = content@;
        self.insert_entry(key, content, mtime);
        proof {
            let after = match mtime {
                Some(t) => old(self)@.insert(pv, (t, cv)),
                None => old(self)@,
            };
            assert forall|p: Seq<char>| #[trigger] self@.contains_key(p) == after.contains_key(p) && (self@.contains_key(p) ==> self@[p] == after[p]) by {
                self.lemma_view(p);
                old(self).lemma_view(p);
            }
            assert(self@ =~= after);
        }
    }

    fn insert_entry(&mut self, path: String, content: String, mtime: Option<FileTime>)
        ensures
            match mtime {
                Some(t) => final(self).cached(path@) == Some((t, content@)),
                None => forall|p: Seq<char>| final(self).cached(p) == old(self).cached(p),
            },
            forall|p: Seq<char>| p != path@ ==> final(self).cached(p) == old(self).cached(p),
    {
        let t = match mtime {
            Some(t) => t,
            None => {
                return ;
            },
        };
        let ghost old_entries = self.entries@;
        match self.find(&chars_of(path.as_str())) {
            Some(i) => {
                let ghost pv = path@;
                self.entries.set(i, CacheEntry { path, mtime: t, content });
                proof {
                    assert forall|p: Seq<char>| p != pv implies self.cached(p) == cache_lookup(
                        old_entries,
                        p,
                    ) by {
                        lemma_cache_lookup_update(old_entries, i as int, self.entries@, p);
                    }
                    lemma_cache_lookup_prefix(self.entries@, i as int, pv);
                }
            },
            None => {
                let ghost pv = path@;
                let ghost cv = content@;
                self.entries.push(CacheEntry { path, mtime: t, content });
                proof {
                    assert forall|p: Seq<char>| p != pv implies self.cached(p) == cache_lookup(
                        old_entries,
                        p,
                    ) by {
                        lemma_cache_lookup_push(old_entries, self.entries@, p);
                    }
                    lemma_cache_lookup_push_new(old_entries, self.entries@, pv);
                }
            },
        }
    }
}

proof fn lemma_cache_lookup_update(old_e: Seq<CacheEntry>, i: int, new_e: Seq<CacheEntry>, p: Seq<char>)
    requires
        0 <= i < old_e.len(),
        new_e.len() == old_e.len(),
        forall|j: int| 0 <= j < old_e.len() && j != i ==> new_e[j] == old_e[j],
        old_e[i].path@ != p,
        new_e[i].path@ != p,
    ensures
        cache_lookup(new_e, p) == cache_lookup(old_e, p),
    decreases old_e.len(),
{
    if old_e.len() > 0 {
        if i > 0 {
            lemma_cache_lookup_update(old_e.drop_first(), i - 1, new_e.drop_first(), p);
        } else {
            assert(old_e.drop_first() =~= new_e.drop_first());
        }
    }
}

proof fn lemma_cache_lookup_prefix(e: Seq<CacheEntry>, i: int, p: Seq<char>)
    requires
        0 <= i < e.len(),
        e[i].path@ == p,
        forall|j: int| 0 <= j < i ==> e[j].path@ != p,
    ensures
        cache_lookup(e, p) == Some((e[i].mtime, e[i].content@)),
    decreases i,
{
    if i > 0 {
        lemma_cache_lookup_prefix(e.drop_first(), i - 1, p);
    }
}

proof fn lemma_cache_lookup_push(old_e: Seq<CacheEntry>, new_e: Seq<CacheEntry>, p: Seq<char>)
    requires
        new_e.len() == old_e.len() + 1,
        forall|j: int| 0 <= j < old_e.len() ==> new_e[j] == old_e[j],
        new_e.last().path@ != p,
    ensures
        cache_lookup(new_e, p) == cache_lookup(old_e, p),
    decreases old_e.len(),
{
    if old_e.len() > 0 {
        assert(new_e[0] == old_e[0]);
        assert forall|j: int| 0 <= j < old_e.drop_first().len() implies new_e.drop_first()[j]
            == old_e.drop_first()[j] by {
            assert(new_e.drop_first()[j] == new_e[j + 1]);
        }
        assert(new_e.drop_first().last() == new_e.last());
        lemma_cache_lookup_push(old_e.drop_first(), new_e.drop_first(), p);
    } else {
        assert(new_e.drop_first() =~= Seq::<CacheEntry>::empty());
        assert(new_e.last() == new_e[0]);
        assert(cache_lookup(new_e.drop_first(), p) is None);
    }
}

proof fn lemma_cache_lookup_push_new(old_e: Seq<CacheEntry>, new_e: Seq<CacheEntry>, p: Seq<char>)
    requires
        new_e.len() == old_e.len() + 1,
        forall|j: int| 0 <= j < old_e.len() ==> new_e[j] == old_e[j],
        forall|j: int| 0 <= j < old_e.len() ==> old_e[j].path@ != p,
        new_e.last().path@ == p,
    ensures
        cache_lookup(new_e, p) == Some((new_e.last().mtime, new_e.last().content@)),
    decreases old_e.len(),
{
    if old_e.len() > 0 {
        assert(new_e[0] == old_e[0]);
        assert forall|j: int| 0 <= j < old_e.drop_first().len() implies new_e.drop_first()[j]
            == old_e.drop_first()[j] by {
            assert(new_e.drop_first()[j] == new_e[j + 1]);
        }
        assert(new_e.drop_first().last() == new_e.last());
        lemma_cache_lookup_push_new(old_e.drop_first(), new_e.drop_first(), p);
    }
}

/// A file read back from the cache with the modification time it was
/// stored with gives the stored content; storing one path leaves what a
/// lookup of any other path finds unchanged.
pub proof fn law_cache_read_after_write(
    m: Map<Seq<char>, (FileTime, Seq<char>)>,
    path: Seq<char>,
    content: Seq<char>,
    t: FileTime,
    other: Seq<char>,
    mtime: Option<FileTime>,
)
    ensures
        cache_hit(m.insert(path, (t, content)), path, Some(t)) == Some(content),
        other != path ==> cache_hit(m.insert(path, (t, content)), other, mtime) == cache_hit(
            m,
            other,
            mtime,
        ),
{
}

/// A cached file whose modification time changed is read again: a lookup
/// with another time than the stored one finds nothing.
pub proof fn law_cache_stale_entry_missed(
    m: Map<Seq<char>, (FileTime, Seq<char>)>,
    path: Seq<char>,
    content: Seq<char>,
    t: FileTime,
    now: FileTime,
)
    requires
        now != t,
    ensures
        cache_hit(m.insert(path, (t, content)), path, Some(now)) is None,
{
}

/// Memory files load in priority order: Managed, then User, then Project,
/// then Local; within each of the last three, `AGENTS.md` comes before
/// the fallback file.
pub proof fn law_plan_in_priority_order(
    plan: Seq<(Seq<char>, MemoryScope)>,
    project_root: Seq<char>,
    codex_home: Seq<char>,
    rule_names: Seq<Seq<char>>,
    fallback: Seq<char>,
)
    requires
        is_memory_plan(plan, project_root, codex_home, rule_names, fallback),
    ensures
        forall|i: int, j: int|
            0 <= i < j < plan.len() ==> scope_rank((#[trigger] plan[i]).1) <= scope_rank(
                (#[trigger] plan[j]).1,
            ),
        forall|i: int|
            0 <= i < plan.len() && (#[trigger] plan[i]).1 != MemoryScope::Managed ==> ({
                let k = i - (plan.len() - 6);
                plan[i].0 == scope_files(
                    if k < 2 {
                        codex_home
                    } else if k < 4 {
                        project_root
                    } else {
                        path_join(project_root, ".codex"@)
                    },
                    fallback,
                )[k % 2]
            }),
{
    let n = plan.len() - 6;
    assert forall|i: int, j: int| 0 <= i < j < plan.len() implies scope_rank((#[trigger] plan[i]).1)
        <= scope_rank((#[trigger] plan[j]).1) by {
        if i < n {
            assert(plan[i].1 == MemoryScope::Managed);
        }
        if j < n {
            assert(plan[j].1 == MemoryScope::Managed);
        }
    }
    assert forall|i: int| 0 <= i < plan.len() && (#[trigger] plan[i]).1 != MemoryScope::Managed implies ({
        let k = i - (plan.len() - 6);
        plan[i].0 == scope_files(
            if k < 2 {
                codex_home
            } else if k < 4 {
                project_root
            } else {
                path_join(project_root, ".codex"@)
            },
            fallback,
        )[k % 2]
    }) by {
        if i < n {
            assert(plan[i].1 == MemoryScope::Managed);
        }
    }
}

} // verus!
