//! Topic-based memory directory.
//!
//! Memories are stored as individual `.md` files under `topics/`, each with
//! YAML frontmatter.  This module frames and reads topic files, orders and
//! ranks topics, truncates the `MEMORY.md` index and assembles the prompt
//! section; reading and writing files, the clock, YAML and token
//! truncation are left to the caller.

use vstd::prelude::*;
use crate::text::{
    byte_len, exceeds_bytes, join, join_chars, last_index_of, lines, prefix_within, rfind_char,
    split_lines, truncate_to_bytes, views, lemma_last_index_of_bounds,
    alphanumeric, chars_of, contains, contains_chars, occurs_at, words, split_whitespace, copy_chars, decimal, decimal_chars, find, find_chars, is_alphanumeric,
    lemma_find_from_spec, lowercase_of, ascii_lower, ascii_upper, is_ascii_text, lemma_ascii_lower_ignores_case, push_all, push_str, starts_with, starts_with_chars,
    string_of, subseq, to_lowercase, trim_start, trim_start_chars,
};
use crate::paths::{join_path, path_extension, path_extension_of, path_file_stem, path_file_stem_of, path_join};

verus! {

broadcast use vstd::string::group_string_axioms;

/// Maximum number of topic files to scan.
pub const MAX_TOPIC_FILES: usize = 200;

/// Maximum lines for the `MEMORY.md` entrypoint index.
pub const MAX_ENTRYPOINT_LINES: usize = 200;

/// Maximum bytes for the `MEMORY.md` entrypoint index.
pub const MAX_ENTRYPOINT_BYTES: usize = 25000;

/// Maximum number of topics to include in the prompt.
pub const MAX_TOPICS_IN_PROMPT: usize = 8;

/// Token budget per individual topic when building the prompt.
pub const TOPIC_TOKEN_LIMIT: usize = 800;

/// Age threshold (in seconds) beyond which a freshness warning is added.
pub const FRESHNESS_AGE_SECONDS: u64 = 86400;

// ---------------------------------------------------------------------------
// Types
// ---------------------------------------------------------------------------

/// YAML frontmatter of a memory topic file.
#[derive(Debug)]
pub struct MemoryFrontmatter {
    pub name: String,
    pub description: String,
    /// The `type` key.
    pub memory_type: String,
    pub keywords: Vec<String>,
    pub source: String,
    /// `updated_at` as seconds and nanoseconds since the epoch (UTC).
    pub updated_at: Option<(i64, u32)>,
}

/// The frontmatter as plain values: name, description, type, keywords,
/// source and `updated_at`.
pub type TopicFields = (Seq<char>, Seq<char>, Seq<char>, Seq<Seq<char>>, Seq<char>, Option<(i64, u32)>);

impl MemoryFrontmatter {
    pub open spec fn view(&self) -> TopicFields {
        (
            self.name@,
            self.description@,
            self.memory_type@,
            crate::text::string_views(self.keywords@),
            self.source@,
            self.updated_at,
        )
    }
}

/// An in-memory representation of a single topic file.
#[derive(Debug)]
pub struct MemoryTopic {
    pub frontmatter: MemoryFrontmatter,
    pub content: String,
    pub path: String,
    /// File modification time in seconds since the epoch (for freshness).
    pub modified_secs: u64,
}

/// `type` of a topic whose frontmatter does not give one.
pub fn default_memory_type() -> (r: String)
    ensures
        r@ == "project"@,
{
    "project".to_string()
}

/// `source` of a topic whose frontmatter does not give one.
pub fn default_source() -> (r: String)
    ensures
        r@ == "auto"@,
{
    "auto".to_string()
}

/// The `topics/` subdirectory inside a memory root.
pub fn topics_dir(root: &str) -> (r: String)
    ensures
        r@ == path_join(root@, "topics"@),
{
    join_path(root, "topics")
}

/// Whether a directory entry is a topic file: its extension is `md`.
pub fn is_topic_file(path: &str) -> (r: bool)
    ensures
        r == (path_extension_of(path@) == Some("md"@)),
{
    match path_extension(path) {
        Some(e) => crate::text::chars_eq(&chars_of(e.as_str()), &chars_of("md")),
        None => false,
    }
}

// ---------------------------------------------------------------------------
// Reading a topic file
// ---------------------------------------------------------------------------

/// The YAML block and the body of a topic file: after leading whitespace
/// the file starts with `---`; the block runs up to the next `\n---`, and
/// the body is what follows that marker with leading whitespace removed.
/// `None` when the file has no such block.
pub open spec fn topic_split(raw: Seq<char>) -> Option<(Seq<char>, Seq<char>)> {
    let t = trim_start(raw);
    if starts_with(t, "---"@) {
        let rest = t.skip(3);
        match find(rest, "\n---"@) {
            Some(e) => Some((rest.take(e), trim_start(rest.skip(e + 4)))),
            None => None,
        }
    } else {
        None
    }
}

/// Split a topic file into its YAML frontmatter block and its body.
pub fn split_topic(raw: &str) -> (r: Option<(String, String)>)
    ensures
        match r {
            Some((y, b)) => topic_split(raw@) == Some((y@, b@)),
            None => topic_split(raw@) is None,
        },
{
    proof {
        reveal_strlit("---");
        reveal_strlit("\n---");
    }
    let rv = chars_of(raw);
    let t = trim_start_chars(&rv);
    if !starts_with_chars(&t, &chars_of("---")) {
        return None;
    }
    let rest = subseq(&t, 3, t.len());
    assert(rest@ =~= t@.skip(3));
    let marker = chars_of("\n---");
    match find_chars(&rest, &marker) {
        Some(e) => {
            proof {
                lemma_find_from_spec(rest@, marker@, 0);
            }
            let yaml = subseq(&rest, 0, e);
            let after = subseq(&rest, e + 4, rest.len());
            let body = trim_start_chars(&after);
            proof {
                assert(yaml@ =~= rest@.take(e as int));
                assert(after@ =~= rest@.skip(e + 4));
            }
            Some((string_of(&yaml), string_of(&body)))
        },
        None => None,
    }
}

/// The frontmatter of a topic file without a usable YAML block: named
/// after the file stem (`untitled` when there is none), described as
/// `Memory topic: {name}`, with the default type and source.
pub open spec fn fallback_fields(stem: Option<Seq<char>>) -> TopicFields {
    let name = match stem {
        Some(n) => n,
        None => "untitled"@,
    };
    (name, "Memory topic: "@ + name, "project"@, seq![], "auto"@, None)
}

/// The frontmatter and body of the topic file at `path` with content `raw`.
/// `parsed` is what the YAML parser made of the frontmatter block of `raw`
/// (see `split_topic`); when the file has no such block, or the parser
/// rejected it, the topic gets `fallback_fields` and the whole file as
/// its body.
pub fn parse_topic(path: &str, raw: &str, parsed: Option<MemoryFrontmatter>) -> (r: (
    MemoryFrontmatter,
    String,
))
    ensures
        match (topic_split(raw@), parsed) {
            (Some((_, body)), Some(fm)) => r.0 == fm && r.1@ == body,
            _ => r.0.view() == fallback_fields(path_file_stem_of(path@)) && r.1@ == raw@,
        },
{
    let split = split_topic(raw);
    match (split, parsed) {
        (Some((_, body)), Some(fm)) => {
            return (fm, body);
        },
        _ => {},
    }
    proof {
        reveal_strlit("untitled");
        reveal_strlit("Memory topic: ");
    }
    let name = match path_file_stem(path) {
        Some(n) => n,
        None => "untitled".to_string(),
    };
    let mut desc = chars_of("Memory topic: ");
    push_str(&mut desc, name.as_str());
    let fm = MemoryFrontmatter {
        name,
        description: string_of(&desc),
        memory_type: default_memory_type(),
        keywords: Vec::new(),
        source: default_source(),
        updated_at: None,
    };
    proof {
        assert(crate::text::string_views(fm.keywords@) =~= Seq::<Seq<char>>::empty());
    }
    (fm, raw.to_string())
}

// ---------------------------------------------------------------------------
// Ordering
// ---------------------------------------------------------------------------

/// `order` lists every position of `keys` once, with keys never increasing
/// along it and positions of equal keys in increasing order: the order a
/// stable sort by descending key produces.
pub open spec fn is_stable_desc_order(keys: Seq<u64>, order: Seq<int>) -> bool {
    &&& order.len() == keys.len()
    &&& forall|i: int| 0 <= i < order.len() ==> 0 <= #[trigger] order[i] < keys.len()
    &&& forall|i: int, j: int|
        0 <= i < j < order.len() ==> keys[#[trigger] order[i]] > keys[#[trigger] order[j]] || (
        keys[order[i]] == keys[order[j]] && order[i] < order[j])
}

/// The keys of a sequence of keyed items.
pub open spec fn keys_of<T>(items: Seq<(u64, T)>) -> Seq<u64> {
    items.map_values(|e: (u64, T)| e.0)
}

/// `items` sorted by descending key, equal keys in input order, then cut
/// to its first `limit` entries.
pub open spec fn sorted_desc_prefix<T>(items: Seq<(u64, T)>, limit: nat, r: Seq<(u64, T)>) -> bool {
    exists|order: Seq<int>|
        is_stable_desc_order(keys_of(items), order) && r.len() == (if items.len() < limit {
            items.len()
        } else {
            limit
        }) && forall|i: int| 0 <= i < r.len() ==> #[trigger] r[i] == items[order[i]]
}

/// Stable sort by descending key (`sort_by(|a, b| b.0.cmp(&a.0))`),
/// then `truncate(limit)`.
pub fn sort_desc_truncate<T>(items: Vec<(u64, T)>, limit: usize) -> (r: Vec<(u64, T)>)
    ensures
        sorted_desc_prefix(items@, limit as nat, r@),
{
    let ghost orig = items@;
    let ghost keys = keys_of(orig);
    let mut input = items;
    let mut out: Vec<(u64, T)> = Vec::new();
    let ghost mut perm: Seq<int> = seq![];
    while input.len() > 0
        invariant
            input@ == orig.take(input@.len() as int),
            input@.len() <= orig.len(),
            keys == keys_of(orig),
            out@.len() == perm.len(),
            perm.len() + input@.len() == orig.len(),
            forall|j: int|
                0 <= j < perm.len() ==> input@.len() <= #[trigger] perm[j] < orig.len() && out@[j]
                    == orig[perm[j]],
            forall|i: int, j: int|
                0 <= i < j < perm.len() ==> keys[#[trigger] perm[i]] > keys[#[trigger] perm[j]]
                    || (keys[perm[i]] == keys[perm[j]] && perm[i] < perm[j]),
        decreases input@.len(),
    {
        let ghost k = input@.len() - 1;
        let t = input.pop().unwrap();
        assert(t == orig[k]);
        let mut pos: usize = 0;
        while pos < out.len() && out[pos].0 > t.0
            invariant
                pos <= out@.len(),
                forall|j: int| 0 <= j < pos ==> (#[trigger] out@[j]).0 > t.0,
            decreases out@.len() - pos,
        {
            pos = pos + 1;
        }
        proof {
            assert forall|j: int| pos <= j < out@.len() implies (#[trigger] out@[j]).0 <= t.0 by {
                if pos < j {
                    let a = perm[pos as int];
                    let b = perm[j];
                    assert(keys[a] == orig[a].0);
                    assert(keys[b] == orig[b].0);
                }
            }
        }
        let ghost old_perm = perm;
        let ghost old_out = out@;
        out.insert(pos, t);
        proof {
            perm = old_perm.insert(pos as int, k);
            assert(keys[k] == t.0);
            assert forall|j: int| 0 <= j < perm.len() implies input@.len() <= #[trigger] perm[j]
                < orig.len() && out@[j] == orig[perm[j]] by {
                if j < pos {
                    assert(perm[j] == old_perm[j]);
                } else if j > pos {
                    assert(perm[j] == old_perm[j - 1]);
                }
            }
            assert forall|i: int, j: int| 0 <= i < j < perm.len() implies keys[#[trigger] perm[i]]
                > keys[#[trigger] perm[j]] || (keys[perm[i]] == keys[perm[j]] && perm[i]
                < perm[j]) by {
                if i < pos && j < pos {
                    assert(perm[i] == old_perm[i] && perm[j] == old_perm[j]);
                } else if i < pos && j == pos {
                    assert(perm[i] == old_perm[i]);
                    assert(keys[old_perm[i]] == old_out[i].0);
                } else if i < pos && j > pos {
                    assert(perm[i] == old_perm[i] && perm[j] == old_perm[j - 1]);
                } else if i == pos {
                    assert(perm[j] == old_perm[j - 1]);
                    assert(keys[old_perm[j - 1]] == old_out[j - 1].0);
                } else {
                    assert(perm[i] == old_perm[i - 1] && perm[j] == old_perm[j - 1]);
                }
            }
        }
    }
    let ghost full = perm;
    let ghost sorted = out@;
    out.truncate(limit);
    proof {
        assert(orig.take(0) =~= Seq::<(u64, T)>::empty());
        assert(is_stable_desc_order(keys, full));
        assert forall|i: int| 0 <= i < out@.len() implies #[trigger] out@[i] == orig[full[i]] by {
            assert(out@[i] == sorted[i]);
        }
    }
    out
}

/// Topics keyed by their modification time.
pub open spec fn by_modified(topics: Seq<MemoryTopic>) -> Seq<(u64, MemoryTopic)> {
    topics.map_values(|t: MemoryTopic| (t.modified_secs, t))
}

/// The scanned topics as the scan returns them: newest first (stable for
/// equal times), at most `MAX_TOPIC_FILES` of them.
pub fn order_topics(topics: Vec<MemoryTopic>) -> (r: Vec<MemoryTopic>)
    ensures
        sorted_desc_prefix(by_modified(topics@), MAX_TOPIC_FILES as nat, by_modified(r@)),
{
    let ghost orig = topics@;
    let mut input = topics;
    let mut keyed: Vec<(u64, MemoryTopic)> = Vec::new();
    while input.len() > 0
        invariant
            input@ == orig.take(input@.len() as int),
            input@.len() <= orig.len(),
            keyed@ == by_modified(orig).skip(input@.len() as int),
        decreases input@.len(),
    {
        let t = input.pop().unwrap();
        let m = t.modified_secs;
        keyed.insert(0, (m, t));
        proof {
            assert(keyed@ =~= by_modified(orig).skip(input@.len() as int));
        }
    }
    assert(by_modified(orig).skip(0) =~= by_modified(orig));
    let sorted = sort_desc_truncate(keyed, MAX_TOPIC_FILES);
    let ghost sv = sorted@;
    proof {
        let order = choose|order: Seq<int>|
            is_stable_desc_order(keys_of(by_modified(orig)), order) && sv.len() == (if by_modified(orig).len() < MAX_TOPIC_FILES as nat {
                by_modified(orig).len()
            } else {
                MAX_TOPIC_FILES as nat
            }) && forall|i: int| 0 <= i < sv.len() ==> #[trigger] sv[i] == by_modified(orig)[order[i]];
        assert forall|i: int| 0 <= i < sv.len() implies (#[trigger] sv[i]).0 == sv[i].1.modified_secs by {
            assert(sv[i] == by_modified(orig)[order[i]]);
        }
    }
    let mut pairs = sorted;
    let mut out: Vec<MemoryTopic> = Vec::new();
    while pairs.len() > 0
        invariant
            pairs@ == sv.take(pairs@.len() as int),
            pairs@.len() <= sv.len(),
            sorted_desc_prefix(by_modified(orig), MAX_TOPIC_FILES as nat, sv),
            forall|i: int| 0 <= i < sv.len() ==> (#[trigger] sv[i]).0 == sv[i].1.modified_secs,
            by_modified(out@) == sv.skip(pairs@.len() as int),
        decreases pairs@.len(),
    {
        let ghost k = pairs@.len() - 1;
        let ghost old_out = out@;
        assert(sv[k].0 == sv[k].1.modified_secs);
        let (_, t) = pairs.pop().unwrap();
        out.insert(0, t);
        proof {
            assert(t == sv[k].1);
            assert(by_modified(out@) =~= seq![sv[k]] + by_modified(old_out));
            assert(sv.skip(k) =~= seq![sv[k]] + sv.skip(k + 1));
        }
    }
    assert(sv.skip(0) =~= sv);
    out
}

// ---------------------------------------------------------------------------
// The MEMORY.md index
// ---------------------------------------------------------------------------

/// Marker appended when the index is cut.
pub open spec fn truncated_marker() -> Seq<char> {
    "\n\n... (truncated)\n"@
}

/// The lines of the index: all lines of `raw`, or, beyond
/// `MAX_ENTRYPOINT_LINES` of them, the first `MAX_ENTRYPOINT_LINES` and a
/// `\n... (truncated)\n` line.
pub open spec fn entrypoint_lines(raw: Seq<char>) -> Seq<Seq<char>> {
    let ls = lines(raw);
    if ls.len() > MAX_ENTRYPOINT_LINES {
        ls.take(MAX_ENTRYPOINT_LINES as int).push("\n... (truncated)\n"@)
    } else {
        ls
    }
}

/// The index as it enters the prompt: its lines joined by `\n`; when that
/// is longer than `MAX_ENTRYPOINT_BYTES` bytes, the longest prefix within
/// the budget, cut before its last line feed (if it has one), followed by
/// `truncated_marker()`.
pub open spec fn entrypoint_text(raw: Seq<char>) -> Seq<char> {
    let joined = join(entrypoint_lines(raw), "\n"@);
    if byte_len(joined) > MAX_ENTRYPOINT_BYTES {
        let prefix = prefix_within(joined, MAX_ENTRYPOINT_BYTES as nat);
        let cut = match last_index_of(prefix, '\n') {
            Some(i) => i,
            None => prefix.len() as int,
        };
        prefix.take(cut) + truncated_marker()
    } else {
        joined
    }
}

/// Truncate entrypoint content to the line and byte caps.
pub fn truncate_entrypoint(raw: &str) -> (r: String)
    ensures
        r@ == entrypoint_text(raw@),
{
    let rv = chars_of(raw);
    let mut ls = split_lines(&rv);
    if ls.len() > MAX_ENTRYPOINT_LINES {
        ls.truncate(MAX_ENTRYPOINT_LINES);
        let marker = chars_of("\n... (truncated)\n");
        proof {
            assert(views(ls@.push(marker)) =~= views(ls@).push(marker@));
        }
        ls.push(marker);
        proof {
            assert(views(ls@) =~= entrypoint_lines(raw@));
        }
    }
    let joined = join_chars(&ls, &chars_of("\n"));
    if exceeds_bytes(&joined, MAX_ENTRYPOINT_BYTES) {
        let prefix = truncate_to_bytes(&joined, MAX_ENTRYPOINT_BYTES);
        let cut = match rfind_char(&prefix, '\n') {
            Some(i) => i,
            None => prefix.len(),
        };
        proof {
            if let Some(i) = last_index_of(prefix@, '\n') {
                lemma_last_index_of_bounds(prefix@, '\n');
            }
        }
        let mut out = subseq(&prefix, 0, cut);
        push_str(&mut out, "\n\n... (truncated)\n");
        assert(out@ =~= entrypoint_text(raw@));
        string_of(&out)
    } else {
        string_of(&joined)
    }
}

/// The `MEMORY.md` index for the prompt, from the file's content: `None`
/// when it is empty after truncation.
pub fn memory_index_text(raw: &str) -> (r: Option<String>)
    ensures
        match r {
            Some(t) => t@ == entrypoint_text(raw@) && t@.len() > 0,
            None => entrypoint_text(raw@).len() == 0,
        },
{
    let t = truncate_entrypoint(raw);
    if chars_of(t.as_str()).len() == 0 {
        None
    } else {
        Some(t)
    }
}

/// The index never takes more than `MAX_ENTRYPOINT_BYTES` bytes of the
/// prompt, plus the truncation marker (18 bytes).
pub proof fn law_index_within_budget(raw: Seq<char>)
    ensures
        byte_len(entrypoint_text(raw)) <= MAX_ENTRYPOINT_BYTES + 18,
{
    let joined = join(entrypoint_lines(raw), "\n"@);
    if byte_len(joined) > MAX_ENTRYPOINT_BYTES {
        let prefix = prefix_within(joined, MAX_ENTRYPOINT_BYTES as nat);
        crate::text::lemma_prefix_within(joined, MAX_ENTRYPOINT_BYTES as nat);
        crate::text::lemma_last_index_of_bounds(prefix, '\n');
        let cut = match last_index_of(prefix, '\n') {
            Some(i) => i,
            None => prefix.len() as int,
        };
        crate::text::lemma_byte_len_take(prefix, cut);
        crate::text::lemma_byte_len_concat(prefix.take(cut), truncated_marker());
        reveal_strlit("\n\n... (truncated)\n");
        assert(truncated_marker().len() == 18);
        crate::text::lemma_byte_len_ascii(truncated_marker());
    }
}

// ---------------------------------------------------------------------------
// Relevance
// ---------------------------------------------------------------------------

/// How many of the words `ws` occur in `hay`.
pub open spec fn count_in(hay: Seq<char>, ws: Seq<Seq<char>>) -> nat
    decreases ws.len(),
{
    if ws.len() == 0 {
        0
    } else {
        count_in(hay, ws.drop_last()) + if contains(hay, ws.last()) {
            1nat
        } else {
            0nat
        }
    }
}

/// How many of the words `ws` occur in the keyword `kw` or contain it.
pub open spec fn count_related(kw: Seq<char>, ws: Seq<Seq<char>>) -> nat
    decreases ws.len(),
{
    if ws.len() == 0 {
        0
    } else {
        count_related(kw, ws.drop_last()) + if contains(kw, ws.last()) || contains(ws.last(), kw) {
            1nat
        } else {
            0nat
        }
    }
}

/// Keyword part of the score, given the lower-cased keywords `kls`: for
/// each, 5 when the lower-cased query `q` contains it, and 2 for each query
/// word related to it.
pub open spec fn keyword_score(kls: Seq<Seq<char>>, q: Seq<char>, ws: Seq<Seq<char>>) -> nat
    decreases kls.len(),
{
    if kls.len() == 0 {
        0
    } else {
        let kl = kls.last();
        keyword_score(kls.drop_last(), q, ws) + (if contains(q, kl) {
            5nat
        } else {
            0nat
        }) + 2 * count_related(kl, ws)
    }
}

/// Each of `kws` lower-cased by `str::to_lowercase`.
pub open spec fn lower_all(kws: Seq<Seq<char>>) -> Seq<Seq<char>> {
    kws.map_values(|k: Seq<char>| lowercase_of(k))
}

/// Each of `kws` lower-cased by `str::to_ascii_lowercase`.
pub open spec fn ascii_lower_all(kws: Seq<Seq<char>>) -> Seq<Seq<char>> {
    kws.map_values(|k: Seq<char>| ascii_lower(k))
}

/// Each of `kws` upper-cased by `str::to_ascii_uppercase`.
pub open spec fn ascii_upper_all(kws: Seq<Seq<char>>) -> Seq<Seq<char>> {
    kws.map_values(|k: Seq<char>| ascii_upper(k))
}

/// Every keyword is ASCII text.
pub open spec fn all_ascii(kws: Seq<Seq<char>>) -> bool {
    forall|i: int| 0 <= i < kws.len() ==> is_ascii_text(#[trigger] kws[i])
}

/// The score from lower-cased name `n`, description `d`, keywords `kls`,
/// content `c` and query `q`: 10 when the name contains the query and 3 per
/// query word in the name, 8 and 2 likewise for the description, the
/// keyword part, and 1 per query word in the content.
pub open spec fn score_of_lowered(
    n: Seq<char>,
    d: Seq<char>,
    kls: Seq<Seq<char>>,
    c: Seq<char>,
    q: Seq<char>,
) -> nat {
    let ws = words(q);
    (if contains(n, q) {
        10nat
    } else {
        0nat
    }) + 3 * count_in(n, ws) + (if contains(d, q) {
        8nat
    } else {
        0nat
    }) + 2 * count_in(d, ws) + keyword_score(kls, q, ws) + count_in(c, ws)
}

/// Relevance of a topic to a query: 1 for an empty query; otherwise, on
/// lower-cased text, 10 when the name contains the query and 3 per query
/// word in the name, 8 and 2 likewise for the description, the keyword
/// part, and 1 per query word in the content.
pub open spec fn relevance(fields: TopicFields, content: Seq<char>, query: Seq<char>) -> nat {
    if query.len() == 0 {
        1
    } else {
        lowered_relevance(fields, content, lowercase_of(query))
    }
}

/// The non-empty case of `relevance`, given the lower-cased query `q`.
pub open spec fn lowered_relevance(fields: TopicFields, content: Seq<char>, q: Seq<char>) -> nat {
    score_of_lowered(
        lowercase_of(fields.0),
        lowercase_of(fields.1),
        lower_all(fields.3),
        lowercase_of(content),
        q,
    )
}

/// The relevance of a topic whose keywords are ASCII, each keyword
/// lower-cased by `str::to_ascii_lowercase`.
pub open spec fn ascii_keyword_relevance(fields: TopicFields, content: Seq<char>, query: Seq<char>) -> nat {
    if query.len() == 0 {
        1
    } else {
        score_of_lowered(
            lowercase_of(fields.0),
            lowercase_of(fields.1),
            ascii_lower_all(fields.3),
            lowercase_of(content),
            lowercase_of(query),
        )
    }
}

/// `fields` with the keywords `kws` in place of its own.
pub open spec fn with_keywords(fields: TopicFields, kws: Seq<Seq<char>>) -> TopicFields {
    (fields.0, fields.1, fields.2, kws, fields.4, fields.5)
}

/// Relevance ignores the case of ASCII keywords: a topic whose keywords
/// are written in capitals, or in small letters, scores the same against
/// every query.
pub proof fn law_relevance_ignores_keyword_case(fields: TopicFields, content: Seq<char>, query: Seq<char>)
    ensures
        ascii_keyword_relevance(with_keywords(fields, ascii_upper_all(fields.3)), content, query)
            == ascii_keyword_relevance(fields, content, query),
        ascii_keyword_relevance(with_keywords(fields, ascii_lower_all(fields.3)), content, query)
            == ascii_keyword_relevance(fields, content, query),
{
    let kws = fields.3;
    assert forall|i: int| 0 <= i < kws.len() implies ascii_lower_all(ascii_upper_all(kws))[i]
        == ascii_lower_all(kws)[i] && ascii_lower_all(ascii_lower_all(kws))[i] == ascii_lower_all(kws)[i] by {
        lemma_ascii_lower_ignores_case(kws[i]);
    }
    assert(ascii_lower_all(ascii_upper_all(kws)) =~= ascii_lower_all(kws));
    assert(ascii_lower_all(ascii_lower_all(kws)) =~= ascii_lower_all(kws));
}

/// The relevance of a topic to an ASCII query, whose lower-casing is
/// `str::to_ascii_lowercase`.
pub open spec fn ascii_query_relevance(topic: MemoryTopic, query: Seq<char>) -> nat {
    if query.len() == 0 {
        1
    } else {
        lowered_relevance(topic.frontmatter.view(), topic.content@, ascii_lower(query))
    }
}

/// Relevance ignores the case of an ASCII query: the query, its upper-case
/// form and its lower-case form score the same against every topic.
pub proof fn law_relevance_ignores_ascii_case(topic: MemoryTopic, query: Seq<char>)
    ensures
        ascii_query_relevance(topic, ascii_upper(query)) == ascii_query_relevance(topic, query),
        ascii_query_relevance(topic, ascii_lower(query)) == ascii_query_relevance(topic, query),
{
    lemma_ascii_lower_ignores_case(query);
}

/// The relevance of a topic to a query.
pub open spec fn topic_relevance(topic: MemoryTopic, query: Seq<char>) -> nat {
    relevance(topic.frontmatter.view(), topic.content@, query)
}

/// `n` as a `usize`, or `None` when it does not fit.
pub open spec fn fit(n: nat) -> Option<usize> {
    if n <= usize::MAX {
        Some(n as usize)
    } else {
        None
    }
}

fn add_fit(a: Option<usize>, b: Option<usize>, Ghost(x): Ghost<nat>, Ghost(y): Ghost<nat>) -> (r:
    Option<usize>)
    requires
        a == fit(x),
        b == fit(y),
    ensures
        r == fit(x + y),
{
    match (a, b) {
        (Some(p), Some(q)) => p.checked_add(q),
        _ => None,
    }
}

fn mul_fit(k: usize, b: Option<usize>, Ghost(y): Ghost<nat>) -> (r: Option<usize>)
    requires
        b == fit(y),
    ensures
        r == fit(k as nat * y),
{
    match b {
        Some(q) => k.checked_mul(q),
        None => {
            proof {
                if k > 0 {
                    assert(k * y >= y) by (nonlinear_arith)
                        requires
                            k > 0,
                    ;
                }
            }
            if k == 0 {
                Some(0)
            } else {
                None
            }
        },
    }
}

fn count_in_exec(hay: &Vec<char>, ws: &Vec<Vec<char>>) -> (r: usize)
    ensures
        r == count_in(hay@, views(ws@)),
{
    let mut n: usize = 0;
    let mut i: usize = 0;
    while i < ws.len()
        invariant
            i <= ws.len(),
            n <= i,
            n == count_in(hay@, views(ws@).take(i as int)),
        decreases ws.len() - i,
    {
        proof {
            assert(views(ws@).take(i + 1).drop_last() =~= views(ws@).take(i as int));
        }
        if contains_chars(hay, &ws[i]) {
            n = n + 1;
        }
        i = i + 1;
    }
    assert(views(ws@).take(ws.len() as int) =~= views(ws@));
    n
}

fn count_related_exec(kw: &Vec<char>, ws: &Vec<Vec<char>>) -> (r: usize)
    ensures
        r == count_related(kw@, views(ws@)),
{
    let mut n: usize = 0;
    let mut i: usize = 0;
    while i < ws.len()
        invariant
            i <= ws.len(),
            n <= i,
            n == count_related(kw@, views(ws@).take(i as int)),
        decreases ws.len() - i,
    {
        proof {
            assert(views(ws@).take(i + 1).drop_last() =~= views(ws@).take(i as int));
        }
        if contains_chars(kw, &ws[i]) || contains_chars(&ws[i], kw) {
            n = n + 1;
        }
        i = i + 1;
    }
    assert(views(ws@).take(ws.len() as int) =~= views(ws@));
    n
}

fn flag(b: bool, v: usize) -> (r: Option<usize>)
    ensures
        r == fit(if b {
            v as nat
        } else {
            0nat
        }),
{
    if b {
        Some(v)
    } else {
        Some(0)
    }
}

/// The relevance of `topic` to `query`, or `None` when it does not fit in
/// a `usize`.
fn relevance_fit(topic: &MemoryTopic, query: &str) -> (r: Option<usize>)
    ensures
        r == fit(topic_relevance(*topic, query@)),
        is_ascii_text(query@) ==> r == fit(ascii_query_relevance(*topic, query@)),
        all_ascii(topic.frontmatter.view().3) ==> r == fit(
            ascii_keyword_relevance(topic.frontmatter.view(), topic.content@, query@),
        ),
{
    let qv = chars_of(query);
    if qv.len() == 0 {
        return Some(1);
    }
    let q = chars_of(to_lowercase(query).as_str());
    let ws = split_whitespace(&q);
    let n = chars_of(to_lowercase(topic.frontmatter.name.as_str()).as_str());
    let d = chars_of(to_lowercase(topic.frontmatter.description.as_str()).as_str());
    let c = chars_of(to_lowercase(topic.content.as_str()).as_str());
    let ghost wsv = views(ws@);
    let a1 = flag(contains_chars(&n, &q), 10);
    let cn = count_in_exec(&n, &ws);
    let a2 = mul_fit(3, Some(cn), Ghost(cn as nat));
    let s12 = add_fit(a1, a2, Ghost(if contains(n@, q@) { 10nat } else { 0nat }), Ghost(3 * cn as nat));
    let a3 = flag(contains_chars(&d, &q), 8);
    let s123 = add_fit(s12, a3, Ghost((if contains(n@, q@) { 10nat } else { 0nat }) + 3 * cn as nat), Ghost(if contains(d@, q@) { 8nat } else { 0nat }));
    let cd = count_in_exec(&d, &ws);
    let a4 = mul_fit(2, Some(cd), Ghost(cd as nat));
    let ghost p3: nat = (if contains(n@, q@) { 10nat } else { 0nat }) + 3 * cn as nat + (if contains(d@, q@) { 8nat } else { 0nat });
    let s4 = add_fit(s123, a4, Ghost(p3), Ghost(2 * cd as nat));
    let kws = &topic.frontmatter.keywords;
    let mut ks: Option<usize> = Some(0);
    let mut i: usize = 0;
    let ghost kv = crate::text::string_views(kws@);
    let ghost lv = lower_all(kv);
    while i < kws.len()
        invariant
            i <= kws.len(),
            kv == crate::text::string_views(kws@),
            lv == lower_all(kv),
            wsv == views(ws@),
            ks == fit(keyword_score(lv.take(i as int), q@, wsv)),
            all_ascii(kv) ==> forall|j: int| 0 <= j < i ==> #[trigger] lv[j] == ascii_lower(kv[j]),
        decreases kws.len() - i,
    {
        let kl = chars_of(to_lowercase(kws[i].as_str()).as_str());
        assert(kv[i as int] == kws@[i as int]@);
        assert(all_ascii(kv) ==> is_ascii_text(kv[i as int]));
        let f = flag(contains_chars(&q, &kl), 5);
        let cr = count_related_exec(&kl, &ws);
        let m = mul_fit(2, Some(cr), Ghost(cr as nat));
        let ghost fx: nat = if contains(q@, kl@) { 5nat } else { 0nat };
        let ghost prev = keyword_score(lv.take(i as int), q@, wsv);
        let t = add_fit(ks, f, Ghost(prev), Ghost(fx));
        ks = add_fit(t, m, Ghost(prev + fx), Ghost(2 * cr as nat));
        proof {
            assert(lv.take(i + 1).drop_last() =~= lv.take(i as int));
            assert(lv.take(i + 1).last() == lowercase_of(kws@[i as int]@));
        }
        i = i + 1;
    }
    proof {
        assert(lv.take(kws.len() as int) =~= lv);
        if all_ascii(kv) {
            assert(lv =~= ascii_lower_all(kv));
        }
    }
    let ghost p4: nat = p3 + 2 * cd as nat;
    let s5 = add_fit(s4, ks, Ghost(p4), Ghost(keyword_score(lv, q@, wsv)));
    let cc = count_in_exec(&c, &ws);
    let total = add_fit(s5, Some(cc), Ghost(p4 + keyword_score(lv, q@, wsv)), Ghost(cc as nat));
    total
}

/// Compute a simple relevance score between a topic and the current user
/// message (or empty string if no message is available yet).
pub fn relevance_score(topic: &MemoryTopic, query: &str) -> (r: usize)
    requires
        topic_relevance(*topic, query@) <= usize::MAX,
    ensures
        r == topic_relevance(*topic, query@),
        is_ascii_text(query@) ==> r == ascii_query_relevance(*topic, query@),
        all_ascii(topic.frontmatter.view().3) ==> r == ascii_keyword_relevance(
            topic.frontmatter.view(),
            topic.content@,
            query@,
        ),
{
    match relevance_fit(topic, query) {
        Some(v) => v,
        None => 0,
    }
}

/// The relevance score, or `None` where it would overflow a `usize`.
pub fn relevance_score_checked(topic: &MemoryTopic, query: &str) -> (r: Option<usize>)
    ensures
        r == fit(topic_relevance(*topic, query@)),
        is_ascii_text(query@) ==> r == fit(ascii_query_relevance(*topic, query@)),
        all_ascii(topic.frontmatter.view().3) ==> r == fit(
            ascii_keyword_relevance(topic.frontmatter.view(), topic.content@, query@),
        ),
{
    if relevance_fit(topic, query).is_some() {
        Some(relevance_score(topic, query))
    } else {
        None
    }
}

/// Scored topics keyed by score.
pub open spec fn by_score(scored: Seq<(usize, MemoryTopic)>) -> Seq<(u64, MemoryTopic)> {
    scored.map_values(|e: (usize, MemoryTopic)| (e.0 as u64, e.1))
}

/// Scored topics by descending score (stable for equal scores), at most
/// `limit` of them.
pub fn rank_scored(scored: Vec<(usize, MemoryTopic)>, limit: usize) -> (r: Vec<(usize, MemoryTopic)>)
    ensures
        sorted_desc_prefix(by_score(scored@), limit as nat, by_score(r@)),
        forall|i: int| 0 <= i < r@.len() ==> (#[trigger] r@[i]).0 <= usize::MAX,
{
    let ghost orig = scored@;
    let mut input = scored;
    let mut keyed: Vec<(u64, MemoryTopic)> = Vec::new();
    while input.len() > 0
        invariant
            input@ == orig.take(input@.len() as int),
            input@.len() <= orig.len(),
            keyed@ == by_score(orig).skip(input@.len() as int),
        decreases input@.len(),
    {
        let (k, t) = input.pop().unwrap();
        keyed.insert(0, (k as u64, t));
        proof {
            assert(keyed@ =~= by_score(orig).skip(input@.len() as int));
        }
    }
    assert(by_score(orig).skip(0) =~= by_score(orig));
    let sorted = sort_desc_truncate(keyed, limit);
    let ghost sv = sorted@;
    proof {
        let order = choose|order: Seq<int>|
            is_stable_desc_order(keys_of(by_score(orig)), order) && sv.len() == (if by_score(orig).len() < limit as nat {
                by_score(orig).len()
            } else {
                limit as nat
            }) && forall|i: int| 0 <= i < sv.len() ==> #[trigger] sv[i] == by_score(orig)[order[i]];
        assert forall|i: int| 0 <= i < sv.len() implies (#[trigger] sv[i]).0 <= usize::MAX by {
            assert(sv[i] == by_score(orig)[order[i]]);
        }
    }
    let mut pairs = sorted;
    let mut out: Vec<(usize, MemoryTopic)> = Vec::new();
    while pairs.len() > 0
        invariant
            pairs@ == sv.take(pairs@.len() as int),
            pairs@.len() <= sv.len(),
            forall|i: int| 0 <= i < sv.len() ==> (#[trigger] sv[i]).0 <= usize::MAX,
            by_score(out@) == sv.skip(pairs@.len() as int),
            forall|i: int| 0 <= i < out@.len() ==> (#[trigger] out@[i]).0 <= usize::MAX,
        decreases pairs@.len(),
    {
        let ghost k = pairs@.len() - 1;
        let ghost old_out = out@;
        assert(sv[k].0 <= usize::MAX);
        let (key, t) = pairs.pop().unwrap();
        out.insert(0, (key as usize, t));
        proof {
            assert(by_score(out@) =~= seq![sv[k]] + by_score(old_out));
            assert(sv.skip(k) =~= seq![sv[k]] + sv.skip(k + 1));
        }
    }
    assert(sv.skip(0) =~= sv);
    out
}

/// Scored topics with their truncated content, keyed by score.
pub open spec fn entry_scores(entries: Seq<(usize, MemoryTopic, String)>) -> Seq<(u64, (MemoryTopic, String))> {
    entries.map_values(|e: (usize, MemoryTopic, String)| (e.0 as u64, (e.1, e.2)))
}

fn select_entries(scored: Vec<(usize, MemoryTopic, String)>, limit: usize) -> (r: Vec<(usize, MemoryTopic, String)>)
    ensures
        sorted_desc_prefix(entry_scores(scored@), limit as nat, entry_scores(r@)),
        forall|i: int| 0 <= i < r@.len() ==> (#[trigger] r@[i]).0 <= usize::MAX,
{
    let ghost orig = scored@;
    let mut input = scored;
    let mut keyed: Vec<(u64, (MemoryTopic, String))> = Vec::new();
    while input.len() > 0
        invariant
            input@ == orig.take(input@.len() as int),
            input@.len() <= orig.len(),
            keyed@ == entry_scores(orig).skip(input@.len() as int),
        decreases input@.len(),
    {
        let (k, t, c) = input.pop().unwrap();
        keyed.insert(0, (k as u64, (t, c)));
        proof {
            assert(keyed@ =~= entry_scores(orig).skip(input@.len() as int));
        }
    }
    assert(entry_scores(orig).skip(0) =~= entry_scores(orig));
    let sorted = sort_desc_truncate(keyed, limit);
    let ghost sv = sorted@;
    proof {
        let order = choose|order: Seq<int>|
            is_stable_desc_order(keys_of(entry_scores(orig)), order) && sv.len() == (if entry_scores(orig).len() < limit as nat {
                entry_scores(orig).len()
            } else {
                limit as nat
            }) && forall|i: int| 0 <= i < sv.len() ==> #[trigger] sv[i] == entry_scores(orig)[order[i]];
        assert forall|i: int| 0 <= i < sv.len() implies (#[trigger] sv[i]).0 <= usize::MAX by {
            assert(sv[i] == entry_scores(orig)[order[i]]);
        }
    }
    let mut pairs = sorted;
    let mut out: Vec<(usize, MemoryTopic, String)> = Vec::new();
    while pairs.len() > 0
        invariant
            pairs@ == sv.take(pairs@.len() as int),
            pairs@.len() <= sv.len(),
            forall|i: int| 0 <= i < sv.len() ==> (#[trigger] sv[i]).0 <= usize::MAX,
            entry_scores(out@) == sv.skip(pairs@.len() as int),
            forall|i: int| 0 <= i < out@.len() ==> (#[trigger] out@[i]).0 <= usize::MAX,
        decreases pairs@.len(),
    {
        let ghost k = pairs@.len() - 1;
        let ghost old_out = out@;
        assert(sv[k].0 <= usize::MAX);
        let (key, (t, c)) = pairs.pop().unwrap();
        out.insert(0, (key as usize, t, c));
        proof {
            assert(entry_scores(out@) =~= seq![sv[k]] + entry_scores(old_out));
            assert(sv.skip(k) =~= seq![sv[k]] + sv.skip(k + 1));
        }
    }
    assert(sv.skip(0) =~= sv);
    out
}

/// The topics that enter the prompt: by descending score (stable for equal
/// scores), at most `MAX_TOPICS_IN_PROMPT` of them.
pub fn select_topics(scored: Vec<(usize, MemoryTopic)>) -> (r: Vec<(usize, MemoryTopic)>)
    ensures
        sorted_desc_prefix(by_score(scored@), MAX_TOPICS_IN_PROMPT as nat, by_score(r@)),
        forall|i: int| 0 <= i < r@.len() ==> (#[trigger] r@[i]).0 <= usize::MAX,
{
    rank_scored(scored, MAX_TOPICS_IN_PROMPT)
}

// ---------------------------------------------------------------------------
// The prompt section
// ---------------------------------------------------------------------------

/// Freshness warning for a memory `days` days old.
pub open spec fn freshness_text(days: nat) -> Seq<char> {
    "<system-reminder>This memory is "@ + decimal(days) + FRESHNESS_TAIL@
}

/// The fixed end of the freshness warning.
pub const FRESHNESS_TAIL: &'static str = " day(s) old. Memories are point-in-time observations, not live state \u{2014} claims about code behavior may be outdated. Verify against current code before asserting as fact.</system-reminder>\n\n";

/// Whole days elapsed from `modified_secs` to `now_secs` (0 when the
/// modification time is in the future).
pub open spec fn age_days(now_secs: u64, modified_secs: u64) -> nat {
    if now_secs >= modified_secs {
        ((now_secs - modified_secs) as nat / FRESHNESS_AGE_SECONDS as nat) as nat
    } else {
        0
    }
}

/// Freshness warning text for a stale memory, at time `now_secs`.
pub fn memory_freshness_text(now_secs: u64, modified_secs: u64) -> (r: String)
    ensures
        r@ == freshness_text(age_days(now_secs, modified_secs)),
{
    let days = now_secs.saturating_sub(modified_secs) / FRESHNESS_AGE_SECONDS;
    let mut v = chars_of("<system-reminder>This memory is ");
    let d = decimal_chars(days as u128);
    push_all(&mut v, &d);
    push_str(&mut v, FRESHNESS_TAIL);
    string_of(&v)
}

/// A topic modified more than `FRESHNESS_AGE_SECONDS` before `now_secs`
/// (a zero modification time means unknown, never stale).
pub open spec fn is_stale(now_secs: u64, modified_secs: u64) -> bool {
    modified_secs > 0 && now_secs >= modified_secs && now_secs - modified_secs
        > FRESHNESS_AGE_SECONDS
}

/// The prompt section of one selected topic: a heading with its name,
/// type, source and score, the freshness warning when it is stale, and its
/// (already truncated) content.
pub open spec fn topic_section(entry: (usize, MemoryTopic, String), now_secs: u64) -> Seq<char> {
    let (score, topic, truncated) = entry;
    let f = topic.frontmatter.view();
    let fresh = if is_stale(now_secs, topic.modified_secs) {
        freshness_text(age_days(now_secs, topic.modified_secs))
    } else {
        seq![]
    };
    "## Topic: "@ + f.0 + "\nType: "@ + f.2 + " | Source: "@ + f.4 + " | Score: "@ + decimal(
        score as nat,
    ) + "\n"@ + fresh + truncated@
}

/// The parts of the memory prompt: the index, then either the sections of
/// the selected topics or, when there are none, the legacy summary (when
/// it is not empty).
pub open spec fn memory_prompt_parts(
    index: Option<Seq<char>>,
    topics: Seq<(usize, MemoryTopic, String)>,
    legacy: Option<Seq<char>>,
    now_secs: u64,
) -> Seq<Seq<char>> {
    let head: Seq<Seq<char>> = match index {
        Some(i) => seq!["## Memory Index (MEMORY.md)\n"@ + i],
        None => seq![],
    };
    let body: Seq<Seq<char>> = if topics.len() > 0 {
        topics.map_values(|e: (usize, MemoryTopic, String)| topic_section(e, now_secs))
    } else {
        match legacy {
            Some(l) => if l.len() > 0 {
                seq!["## Legacy Memory Summary\n"@ + l]
            } else {
                seq![]
            },
            None => seq![],
        }
    };
    head + body
}

/// The index always comes first, and with no selected topics a non-empty
/// legacy summary comes last, whether or not there is an index; with
/// selected topics the legacy summary is left out.
pub proof fn law_prompt_parts_index_and_legacy(
    index: Option<Seq<char>>,
    topics: Seq<(usize, MemoryTopic, String)>,
    legacy: Seq<char>,
    now_secs: u64,
)
    ensures
        index matches Some(i) ==> memory_prompt_parts(index, topics, Some(legacy), now_secs)[0]
            == "## Memory Index (MEMORY.md)\n"@ + i,
        topics.len() == 0 && legacy.len() > 0 ==> memory_prompt_parts(
            index,
            topics,
            Some(legacy),
            now_secs,
        ) == match index {
            Some(i) => seq!["## Memory Index (MEMORY.md)\n"@ + i, "## Legacy Memory Summary\n"@ + legacy],
            None => seq!["## Legacy Memory Summary\n"@ + legacy],
        },
        topics.len() == 0 && legacy.len() == 0 ==> memory_prompt_parts(
            index,
            topics,
            Some(legacy),
            now_secs,
        ) == memory_prompt_parts(index, topics, None, now_secs),
        topics.len() > 0 ==> memory_prompt_parts(index, topics, Some(legacy), now_secs)
            == memory_prompt_parts(index, topics, None, now_secs),
        memory_prompt_parts(index, topics, None, now_secs).len() == (if index is Some {
            1int
        } else {
            0int
        }) + topics.len(),
{
    let head: Seq<Seq<char>> = match index {
        Some(i) => seq!["## Memory Index (MEMORY.md)\n"@ + i],
        None => seq![],
    };
    if topics.len() == 0 && legacy.len() > 0 {
        match index {
            Some(i) => {
                assert(memory_prompt_parts(index, topics, Some(legacy), now_secs) =~= seq![
                    "## Memory Index (MEMORY.md)\n"@ + i,
                    "## Legacy Memory Summary\n"@ + legacy,
                ]);
            },
            None => {
                assert(memory_prompt_parts(index, topics, Some(legacy), now_secs) =~= seq![
                    "## Legacy Memory Summary\n"@ + legacy,
                ]);
            },
        }
    }
    if topics.len() == 0 && legacy.len() == 0 {
        assert(memory_prompt_parts(index, topics, Some(legacy), now_secs) =~= memory_prompt_parts(index, topics, None, now_secs));
    }
}

pub open spec fn opt_view(x: Option<String>) -> Option<Seq<char>> {
    match x {
        Some(s) => Some(s@),
        None => None,
    }
}

fn topic_section_exec(entry: &(usize, MemoryTopic, String), now_secs: u64) -> (r: Vec<char>)
    ensures
        r@ == topic_section(*entry, now_secs),
{
    let topic = &entry.1;
    let mut v = chars_of("## Topic: ");
    push_str(&mut v, topic.frontmatter.name.as_str());
    push_str(&mut v, "\nType: ");
    push_str(&mut v, topic.frontmatter.memory_type.as_str());
    push_str(&mut v, " | Source: ");
    push_str(&mut v, topic.frontmatter.source.as_str());
    push_str(&mut v, " | Score: ");
    let d = decimal_chars(entry.0 as u128);
    push_all(&mut v, &d);
    push_str(&mut v, "\n");
    let ghost before = v@;
    if topic.modified_secs > 0 && now_secs >= topic.modified_secs && now_secs - topic.modified_secs
        > FRESHNESS_AGE_SECONDS {
        let f = memory_freshness_text(now_secs, topic.modified_secs);
        push_str(&mut v, f.as_str());
    } else {
        assert(before + Seq::<char>::empty() =~= before);
    }
    push_str(&mut v, entry.2.as_str());
    v
}

fn assemble_prompt(
    index: Option<String>,
    topics: &Vec<(usize, MemoryTopic, String)>,
    legacy: Option<String>,
    now_secs: u64,
) -> (r: Option<String>)
    ensures
        ({
            let parts = memory_prompt_parts(opt_view(index), topics@, opt_view(legacy), now_secs);
            match r {
                Some(t) => parts.len() > 0 && t@ == join(parts, "\n\n"@),
                None => parts.len() == 0,
            }
        }),
{
    let mut parts: Vec<Vec<char>> = Vec::new();
    let ghost head: Seq<Seq<char>> = match opt_view(index) {
        Some(i) => seq!["## Memory Index (MEMORY.md)\n"@ + i],
        None => seq![],
    };
    match &index {
        Some(i) => {
            let mut v = chars_of("## Memory Index (MEMORY.md)\n");
            push_str(&mut v, i.as_str());
            parts.push(v);
        },
        None => {},
    }
    assert(views(parts@) =~= head);
    if topics.len() > 0 {
        let mut k: usize = 0;
        while k < topics.len()
            invariant
                k <= topics.len(),
                views(parts@) == head + topics@.take(k as int).map_values(
                    |e: (usize, MemoryTopic, String)| topic_section(e, now_secs),
                ),
            decreases topics.len() - k,
        {
            let sec = topic_section_exec(&topics[k], now_secs);
            proof {
                assert(views(parts@.push(sec)) =~= views(parts@).push(sec@));
                assert(topics@.take(k + 1).map_values(
                    |e: (usize, MemoryTopic, String)| topic_section(e, now_secs),
                ) =~= topics@.take(k as int).map_values(
                    |e: (usize, MemoryTopic, String)| topic_section(e, now_secs),
                ).push(topic_section(topics@[k as int], now_secs)));
            }
            parts.push(sec);
            k = k + 1;
        }
        assert(topics@.take(topics.len() as int) =~= topics@);
    } else {
        match &legacy {
            Some(l) => {
                let lv = chars_of(l.as_str());
                if lv.len() > 0 {
                    let mut v = chars_of("## Legacy Memory Summary\n");
                    push_all(&mut v, &lv);
                    proof {
                        assert(views(parts@.push(v)) =~= views(parts@).push(v@));
                    }
                    parts.push(v);
                }
            },
            None => {},
        }
    }
    proof {
        let body = memory_prompt_parts(opt_view(index), topics@, opt_view(legacy), now_secs);
        assert(views(parts@) =~= body);
    }
    if parts.len() == 0 {
        return None;
    }
    let out = join_chars(&parts, &chars_of("\n\n"));
    Some(string_of(&out))
}

// ---------------------------------------------------------------------------
// Writing topics
// ---------------------------------------------------------------------------

/// The file-safe form of a (lower-cased) topic name: spaces become `_`,
/// and only alphanumeric characters, `_` and `-` are kept.
pub open spec fn safe_name_chars(s: Seq<char>) -> Seq<char>
    decreases s.len(),
{
    if s.len() == 0 {
        seq![]
    } else {
        let rest = safe_name_chars(s.drop_last());
        let c = s.last();
        if c == ' ' {
            rest.push('_')
        } else if alphanumeric(c) || c == '_' || c == '-' {
            rest.push(c)
        } else {
            rest
        }
    }
}

/// The file name of the topic called `name`.
pub open spec fn topic_file_name_of(name: Seq<char>) -> Seq<char> {
    safe_name_chars(lowercase_of(name)) + ".md"@
}

/// The file name under `topics/` for a topic called `name`: lower-cased,
/// spaces to `_`, other characters than alphanumerics, `_` and `-`
/// dropped, and `.md` appended.
pub fn topic_file_name(name: &str) -> (r: String)
    ensures
        r@ == topic_file_name_of(name@),
{
    let lower = chars_of(to_lowercase(name).as_str());
    let mut out: Vec<char> = Vec::new();
    let mut i: usize = 0;
    while i < lower.len()
        invariant
            i <= lower.len(),
            out@ == safe_name_chars(lower@.take(i as int)),
        decreases lower.len() - i,
    {
        let c = lower[i];
        proof {
            assert(lower@.take(i + 1).drop_last() =~= lower@.take(i as int));
            assert(lower@.take(i + 1).last() == c);
        }
        if c == ' ' {
            out.push('_');
        } else if is_alphanumeric(c) || c == '_' || c == '-' {
            out.push(c);
        }
        i = i + 1;
    }
    assert(lower@.take(lower.len() as int) =~= lower@);
    push_str(&mut out, ".md");
    string_of(&out)
}

/// Every character of a safe topic name is alphanumeric, `_` or `-`.
pub proof fn law_topic_file_name_safe(name: Seq<char>)
    ensures
        forall|i: int|
            0 <= i < safe_name_chars(lowercase_of(name)).len() ==> ({
                let c = #[trigger] safe_name_chars(lowercase_of(name))[i];
                alphanumeric(c) || c == '_' || c == '-'
            }),
{
    lemma_safe_name_chars(lowercase_of(name));
}

proof fn lemma_safe_name_chars(s: Seq<char>)
    ensures
        forall|i: int|
            0 <= i < safe_name_chars(s).len() ==> ({
                let c = #[trigger] safe_name_chars(s)[i];
                alphanumeric(c) || c == '_' || c == '-'
            }),
    decreases s.len(),
{
    if s.len() > 0 {
        lemma_safe_name_chars(s.drop_last());
        let rest = safe_name_chars(s.drop_last());
        let r = safe_name_chars(s);
        assert forall|i: int| 0 <= i < r.len() implies ({
            let c = #[trigger] r[i];
            alphanumeric(c) || c == '_' || c == '-'
        }) by {
            if i < rest.len() {
                assert(r[i] == rest[i]);
            }
        }
    }
}

/// The path of the topic file for `name` under the memory root `root`.
pub fn topic_path(root: &str, name: &str) -> (r: String)
    ensures
        r@ == path_join(path_join(root@, "topics"@), topic_file_name_of(name@)),
{
    let dir = topics_dir(root);
    let file = topic_file_name(name);
    join_path(dir.as_str(), file.as_str())
}

/// The text of a topic file with serialized frontmatter `yaml` and body
/// `content`.
pub open spec fn topic_file_text_of(yaml: Seq<char>, content: Seq<char>) -> Seq<char> {
    "---\n"@ + yaml + "---\n\n"@ + content + "\n"@
}

/// Frame a topic file: `---`, the YAML frontmatter (which ends with a line
/// feed), `---`, a blank line, the content and a final line feed.
pub fn topic_file_text(yaml: &str, content: &str) -> (r: String)
    ensures
        r@ == topic_file_text_of(yaml@, content@),
{
    let mut v = chars_of("---\n");
    push_str(&mut v, yaml);
    push_str(&mut v, "---\n\n");
    push_str(&mut v, content);
    push_str(&mut v, "\n");
    string_of(&v)
}

/// The names of the given topics, in order.
pub fn topic_names(topics: &Vec<MemoryTopic>) -> (r: Vec<String>)
    ensures
        r@.len() == topics@.len(),
        forall|i: int| 0 <= i < r@.len() ==> #[trigger] r@[i] == topics@[i].frontmatter.name,
{
    let mut out: Vec<String> = Vec::new();
    let mut i: usize = 0;
    while i < topics.len()
        invariant
            i <= topics.len(),
            out@.len() == i,
            forall|j: int| 0 <= j < i ==> #[trigger] out@[j] == topics@[j].frontmatter.name,
        decreases topics.len() - i,
    {
        out.push(topics[i].frontmatter.name.clone());
        i = i + 1;
    }
    out
}

/// A topic file written with a YAML block that ends with a line feed and
/// holds no line starting with `---` reads back as that block (after the
/// opening marker's line feed, without its own final line feed) and the
/// content with a final line feed, leading whitespace removed.
pub proof fn law_topic_file_read_back(yaml: Seq<char>, content: Seq<char>)
    requires
        yaml.len() > 0,
        yaml.last() == '\n',
        !contains(seq!['\n'] + yaml.drop_last(), "\n---"@),
    ensures
        topic_split(topic_file_text_of(yaml, content)) == Some(
            (seq!['\n'] + yaml.drop_last(), trim_start(content + seq!['\n'])),
        ),
{
    reveal_strlit("---\n");
    reveal_strlit("---\n\n");
    reveal_strlit("\n");
    reveal_strlit("---");
    reveal_strlit("\n---");
    let raw = topic_file_text_of(yaml, content);
    assert(!crate::text::is_ws(raw[0]));
    assert(trim_start(raw) == raw);
    assert(raw.take(3) =~= "---"@);
    let rest = raw.skip(3);
    let y = yaml.drop_last();
    let k = yaml.len() as int;
    let needle = "\n---"@;
    assert(rest =~= seq!['\n'] + y + needle + seq!['\n', '\n'] + content + seq!['\n']);
    let head = seq!['\n'] + y;
    assert(head.len() == k);
    assert(rest.subrange(k, k + 4) =~= needle);
    assert forall|j: int| 0 <= j < k implies !occurs_at(rest, needle, j) by {
        if occurs_at(rest, needle, j) {
            if j + 4 <= k {
                assert(head.subrange(j, j + 4) =~= rest.subrange(j, j + 4));
                assert(occurs_at(head, needle, j));
            } else {
                assert(rest.subrange(j, j + 4)[k - j] == rest[k]);
                assert(rest[k] == '\n');
            }
        }
    }
    crate::text::lemma_find_from_skip(rest, needle, 0, k);
    assert(rest.take(k) =~= head);
    assert(rest.skip(k + 4) =~= seq!['\n', '\n'] + content + seq!['\n']);
    crate::text::lemma_trim_start_skip(seq!['\n', '\n'] + content + seq!['\n'], 2);
    assert((seq!['\n', '\n'] + content + seq!['\n']).skip(2) =~= content + seq!['\n']);
}

/// The legacy summary as it is cut to its token budget: trimmed.
pub fn legacy_summary_text(raw: &str) -> (r: String)
    ensures
        r@ == crate::text::trim(raw@),
{
    string_of(&crate::text::trim_chars(&chars_of(raw)))
}

/// Each topic with its relevance to `query`, in order; `None` when a score
/// does not fit in a `usize`.
pub fn score_topics(topics: Vec<MemoryTopic>, query: &str) -> (r: Option<Vec<(usize, MemoryTopic)>>)
    ensures
        match r {
            Some(v) => v@.len() == topics@.len() && forall|i: int|
                0 <= i < v@.len() ==> (#[trigger] v@[i]).1 == topics@[i] && v@[i].0
                    == topic_relevance(topics@[i], query@),
            None => exists|i: int|
                0 <= i < topics@.len() && topic_relevance(#[trigger] topics@[i], query@)
                    > usize::MAX,
        },
{
    let ghost orig = topics@;
    let mut input = topics;
    let mut out: Vec<(usize, MemoryTopic)> = Vec::new();
    while input.len() > 0
        invariant
            orig == topics@,
            input@ == orig.take(input@.len() as int),
            input@.len() <= orig.len(),
            out@.len() + input@.len() == orig.len(),
            forall|j: int|
                0 <= j < out@.len() ==> (#[trigger] out@[j]).1 == orig[input@.len() + j]
                    && out@[j].0 == topic_relevance(orig[input@.len() + j], query@),
        decreases input@.len(),
    {
        let ghost k = input@.len() - 1;
        let t = input.pop().unwrap();
        assert(t == orig[k]);
        match relevance_score_checked(&t, query) {
            Some(sc) => {
                let ghost before = out@;
                out.insert(0, (sc, t));
                proof {
                    assert forall|j: int| 0 <= j < out@.len() implies (#[trigger] out@[j]).1
                        == orig[input@.len() + j] && out@[j].0 == topic_relevance(
                        orig[input@.len() + j],
                        query@,
                    ) by {
                        if j > 0 {
                            assert(out@[j] == before[j - 1]);
                        }
                    }
                }
            },
            None => {
                proof {
                    assert(0 <= k < orig.len() && topic_relevance(orig[k], query@) > usize::MAX);
                    assert(exists|i: int|
                        0 <= i < orig.len() && topic_relevance(#[trigger] orig[i], query@)
                            > usize::MAX);
                }
                return None;
            },
        }
    }
    Some(out)
}

/// Build the memory content that is injected into the system prompt from
/// the `MEMORY.md` index (see `memory_index_text`), the scanned topics in
/// scan order, each with its score (see `score_topics`) and its content
/// truncated to the per-topic token budget, and the trimmed, truncated
/// legacy summary (used only when there are no topics).  The topics that
/// enter are the `MAX_TOPICS_IN_PROMPT` best by descending score, equal
/// scores in scan order.  `None` when nothing is left.
pub fn build_memory_prompt_content(
    index: Option<String>,
    topics: Vec<(usize, MemoryTopic, String)>,
    legacy: Option<String>,
    now_secs: u64,
) -> (r: Option<String>)
    ensures
        exists|chosen: Seq<(usize, MemoryTopic, String)>|
            #![trigger entry_scores(chosen)]
            {
                &&& sorted_desc_prefix(
                    entry_scores(topics@),
                    MAX_TOPICS_IN_PROMPT as nat,
                    entry_scores(chosen),
                )
                &&& ({
                    let parts = memory_prompt_parts(
                        opt_view(index),
                        chosen,
                        opt_view(legacy),
                        now_secs,
                    );
                    match r {
                        Some(t) => parts.len() > 0 && t@ == join(parts, "\n\n"@),
                        None => parts.len() == 0,
                    }
                })
            },
{
    let chosen = select_entries(topics, MAX_TOPICS_IN_PROMPT);
    let ghost cv = chosen@;
    let r = assemble_prompt(index, &chosen, legacy, now_secs);
    proof {
        assert(sorted_desc_prefix(entry_scores(topics@), MAX_TOPICS_IN_PROMPT as nat, entry_scores(cv)));
    }
    r
}

} // verus!
