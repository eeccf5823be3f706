//! The built-in memory tools of the agent: what each tool answers.
//!
//! A handler receives the tool call's payload, parses its arguments, does
//! its file work and answers the model.  This module holds the decisions
//! and texts of each handler: which payloads are accepted, what is written
//! and what the model is told; the caller parses the JSON arguments and
//! performs the reads and writes.

use vstd::prelude::*;
use crate::text::{
    chars_of, decimal, decimal_chars, join, join_chars, lowercase_of, push_all, push_str,
    string_of, string_views, to_lowercase, trim, trim_chars, trim_end, trim_end_chars, trim_start,
    trim_start_chars, views, chars_eq,
};
use crate::memdir::{MemoryFrontmatter, MemoryTopic, TopicFields};
use crate::notepad::NotepadSection;

verus! {

broadcast use vstd::string::group_string_axioms;

/// Kind of a tool handler.
#[derive(Debug, Clone, Copy, PartialEq, Eq, Structural)]
pub enum ToolKind {
    /// A function tool called with JSON arguments.
    Function,
    /// A tool served by an MCP server.
    Mcp,
}

/// The payload of a tool call: the JSON arguments of a function call, or
/// another kind of call.
#[derive(Debug)]
pub enum ToolPayload {
    Function { arguments: String },
    Other,
}

/// An error answered to the model.
#[derive(Debug)]
pub enum FunctionCallError {
    RespondToModel(String),
}

/// The text answer of a function tool, with whether it succeeded.
#[derive(Debug)]
pub struct FunctionToolOutput {
    pub text: String,
    pub success: Option<bool>,
}

impl FunctionToolOutput {
    /// A text answer.
    pub fn from_text(text: String, success: Option<bool>) -> (r: Self)
        ensures
            r.text == text,
            r.success == success,
    {
        FunctionToolOutput { text, success }
    }
}

/// A successful answer with this text.
pub open spec fn answers(o: FunctionToolOutput, text: Seq<char>) -> bool {
    o.text@ == text && o.success == Some(true)
}

/// An error answer with this text.
pub open spec fn refuses(e: FunctionCallError, text: Seq<char>) -> bool {
    match e {
        FunctionCallError::RespondToModel(m) => m@ == text,
    }
}

/// The arguments of a function call; any other payload is refused with
/// `{tool} handler received unsupported payload`.
pub open spec fn payload_arguments(tool: Seq<char>, payload: ToolPayload) -> Result<Seq<char>, Seq<char>> {
    match payload {
        ToolPayload::Function { arguments } => Ok(arguments@),
        ToolPayload::Other => Err(tool + " handler received unsupported payload"@),
    }
}

fn function_arguments(tool: &str, payload: ToolPayload) -> (r: Result<String, FunctionCallError>)
    ensures
        match (r, payload_arguments(tool@, payload)) {
            (Ok(a), Ok(b)) => a@ == b,
            (Err(e), Err(m)) => refuses(e, m),
            _ => false,
        },
{
    match payload {
        ToolPayload::Function { arguments } => Ok(arguments),
        ToolPayload::Other => {
            let mut m = chars_of(tool);
            push_str(&mut m, " handler received unsupported payload");
            Err(FunctionCallError::RespondToModel(string_of(&m)))
        },
    }
}

fn answer(text: Vec<char>) -> (r: FunctionToolOutput)
    ensures
        answers(r, text@),
{
    FunctionToolOutput::from_text(string_of(&text), Some(true))
}

fn answer_str(text: &str) -> (r: FunctionToolOutput)
    ensures
        answers(r, text@),
{
    FunctionToolOutput::from_text(text.to_string(), Some(true))
}

fn refusal(prefix: &str, err: &str) -> (r: FunctionCallError)
    ensures
        refuses(r, prefix@ + err@),
{
    let mut m = chars_of(prefix);
    push_str(&mut m, err);
    FunctionCallError::RespondToModel(string_of(&m))
}

// ---------------------------------------------------------------------------
// memory_read
// ---------------------------------------------------------------------------

/// Reads the memory index, the most relevant topics and the notepad
/// priority section.
#[derive(Debug)]
pub struct MemoryReadHandler;

/// Arguments of `memory_read`.
#[derive(Debug)]
pub struct MemoryReadArgs {
    /// Optional query for relevance scoring of topics.
    pub query: Option<String>,
}

/// Answer of `memory_read` when there is nothing to show.
pub const NO_MEMORIES: &'static str = "No memories found. Use `memory_write` to create a topic or `notepad_write_priority` to set priority context.";

/// The section of one topic in the `memory_read` answer.
pub open spec fn read_topic_part(e: (usize, MemoryTopic)) -> Seq<char> {
    let f = e.1.frontmatter.view();
    "## Topic: "@ + f.0 + " (type: "@ + f.2 + ", score: "@ + decimal(e.0 as nat) + ")\n"@ + e.1.content@
}

/// The sections of the `memory_read` answer: the index, the ranked topics
/// with their full content, and the notepad priority section.
pub open spec fn read_parts(
    index: Option<Seq<char>>,
    topics: Seq<(usize, MemoryTopic)>,
    priority: Option<Seq<char>>,
) -> Seq<Seq<char>> {
    let head: Seq<Seq<char>> = match index {
        Some(i) => seq!["## Memory Index\n"@ + i],
        None => seq![],
    };
    let tail: Seq<Seq<char>> = match priority {
        Some(p) => seq!["## Notepad Priority\n"@ + p],
        None => seq![],
    };
    head + topics.map_values(|e: (usize, MemoryTopic)| read_topic_part(e)) + tail
}

pub open spec fn opt_string(x: Option<String>) -> Option<Seq<char>> {
    match x {
        Some(s) => Some(s@),
        None => None,
    }
}

fn read_topic_part_exec(e: &(usize, MemoryTopic)) -> (r: Vec<char>)
    ensures
        r@ == read_topic_part(*e),
{
    let mut v = chars_of("## Topic: ");
    push_str(&mut v, e.1.frontmatter.name.as_str());
    push_str(&mut v, " (type: ");
    push_str(&mut v, e.1.frontmatter.memory_type.as_str());
    push_str(&mut v, ", score: ");
    let d = decimal_chars(e.0 as u128);
    push_all(&mut v, &d);
    push_str(&mut v, ")\n");
    push_str(&mut v, e.1.content.as_str());
    v
}

impl MemoryReadHandler {
    pub fn kind(&self) -> (r: ToolKind)
        ensures
            r == ToolKind::Function,
    {
        ToolKind::Function
    }

    /// The JSON arguments of the call.
    pub fn arguments(&self, payload: ToolPayload) -> (r: Result<String, FunctionCallError>)
        ensures
            match (r, payload_arguments("memory_read"@, payload)) {
                (Ok(a), Ok(b)) => a@ == b,
                (Err(e), Err(m)) => refuses(e, m),
                _ => false,
            },
    {
        function_arguments("memory_read", payload)
    }

    /// The query topics are ranked by (empty when none is given).
    pub fn query(args: &MemoryReadArgs) -> (r: String)
        ensures
            r@ == match args.query {
                Some(q) => q@,
                None => Seq::<char>::empty(),
            },
    {
        match &args.query {
            Some(q) => q.clone(),
            None => String::new(),
        }
    }

    /// The answer from the index (see `memdir::memory_index_text`), the
    /// ranked topics (see `memdir::select_topics`) and the notepad priority
    /// section: the sections separated by blank lines, or `NO_MEMORIES`.
    pub fn respond(
        &self,
        index: Option<String>,
        topics: &Vec<(usize, MemoryTopic)>,
        priority: Option<String>,
    ) -> (r: FunctionToolOutput)
        ensures
            ({
                let parts = read_parts(opt_string(index), topics@, opt_string(priority));
                answers(
                    r,
                    if parts.len() == 0 {
                        NO_MEMORIES@
                    } else {
                        join(parts, "\n\n"@)
                    },
                )
            }),
    {
        let mut parts: Vec<Vec<char>> = Vec::new();
        let ghost head: Seq<Seq<char>> = match opt_string(index) {
            Some(i) => seq!["## Memory Index\n"@ + i],
            None => seq![],
        };
        match &index {
            Some(i) => {
                let mut v = chars_of("## Memory Index\n");
                push_str(&mut v, i.as_str());
                parts.push(v);
            },
            None => {},
        }
        assert(views(parts@) =~= head);
        let mut k: usize = 0;
        while k < topics.len()
            invariant
                k <= topics.len(),
                views(parts@) == head + topics@.take(k as int).map_values(
                    |e: (usize, MemoryTopic)| read_topic_part(e),
                ),
            decreases topics.len() - k,
        {
            let sec = read_topic_part_exec(&topics[k]);
            proof {
                assert(views(parts@.push(sec)) =~= views(parts@).push(sec@));
                assert(topics@.take(k + 1).map_values(|e: (usize, MemoryTopic)| read_topic_part(e))
                    =~= topics@.take(k as int).map_values(
                    |e: (usize, MemoryTopic)| read_topic_part(e),
                ).push(read_topic_part(topics@[k as int])));
            }
            parts.push(sec);
            k = k + 1;
        }
        assert(topics@.take(topics.len() as int) =~= topics@);
        match &priority {
            Some(p) => {
                let mut v = chars_of("## Notepad Priority\n");
                push_str(&mut v, p.as_str());
                proof {
                    assert(views(parts@.push(v)) =~= views(parts@).push(v@));
                }
                parts.push(v);
            },
            None => {},
        }
        proof {
            assert(views(parts@) =~= read_parts(opt_string(index), topics@, opt_string(priority)));
        }
        if parts.len() == 0 {
            return answer_str(NO_MEMORIES);
        }
        answer(join_chars(&parts, &chars_of("\n\n")))
    }
}

// ---------------------------------------------------------------------------
// memory_search
// ---------------------------------------------------------------------------

/// Searches the topics by relevance to a query.
#[derive(Debug)]
pub struct MemorySearchHandler;

/// Arguments of `memory_search`.
#[derive(Debug)]
pub struct MemorySearchArgs {
    /// Search query.
    pub query: String,
    /// Maximum number of results (default 5, at most 20 are given).
    pub limit: usize,
}

/// Number of results when the call gives no limit.
pub fn default_limit() -> (r: usize)
    ensures
        r == 5,
{
    5
}

/// Most results a search gives.
pub const MAX_SEARCH_RESULTS: usize = 20;

/// One result line of `memory_search`.
pub open spec fn search_line(e: (usize, MemoryTopic)) -> Seq<char> {
    let f = e.1.frontmatter.view();
    "- **"@ + f.0 + "** (type: "@ + f.2 + ", score: "@ + decimal(e.0 as nat) + "): "@ + f.1
}

/// The `memory_search` answer: a header with the number of results, then
/// one line per ranked topic.
pub open spec fn search_text(ranked: Seq<(usize, MemoryTopic)>) -> Seq<char> {
    "Found "@ + decimal(ranked.len()) + " matching topics:\n"@ + join(
        ranked.map_values(|e: (usize, MemoryTopic)| search_line(e)),
        "\n"@,
    )
}

fn search_line_exec(e: &(usize, MemoryTopic)) -> (r: Vec<char>)
    ensures
        r@ == search_line(*e),
{
    let mut v = chars_of("- **");
    push_str(&mut v, e.1.frontmatter.name.as_str());
    push_str(&mut v, "** (type: ");
    push_str(&mut v, e.1.frontmatter.memory_type.as_str());
    push_str(&mut v, ", score: ");
    let d = decimal_chars(e.0 as u128);
    push_all(&mut v, &d);
    push_str(&mut v, "): ");
    push_str(&mut v, e.1.frontmatter.description.as_str());
    v
}

/// The scored topics that match the query (score above 0), in order.
pub open spec fn matching(scored: Seq<(usize, MemoryTopic)>) -> Seq<(usize, MemoryTopic)>
    decreases scored.len(),
{
    if scored.len() == 0 {
        seq![]
    } else if scored[0].0 > 0 {
        seq![scored[0]] + matching(scored.drop_first())
    } else {
        matching(scored.drop_first())
    }
}

impl MemorySearchHandler {
    /// The results of a search: the topics that match (score above 0), by
    /// descending score (stable for equal scores), at most `limit` of them.
    pub fn rank(scored: Vec<(usize, MemoryTopic)>, limit: usize) -> (r: Vec<(usize, MemoryTopic)>)
        ensures
            crate::memdir::sorted_desc_prefix(
                crate::memdir::by_score(matching(scored@)),
                limit as nat,
                crate::memdir::by_score(r@),
            ),
    {
        let ghost orig = scored@;
        let mut input = scored;
        let mut kept: Vec<(usize, MemoryTopic)> = Vec::new();
        assert(orig.skip(orig.len() as int) =~= Seq::<(usize, MemoryTopic)>::empty());
        while input.len() > 0
            invariant
                input@ == orig.take(input@.len() as int),
                input@.len() <= orig.len(),
                kept@ == matching(orig.skip(input@.len() as int)),
            decreases input@.len(),
        {
            let ghost k = input@.len() - 1;
            proof {
                assert(orig.skip(k).drop_first() =~= orig.skip(k + 1));
                assert(orig.skip(k)[0] == orig[k]);
            }
            let e = input.pop().unwrap();
            if e.0 > 0 {
                kept.insert(0, e);
                proof {
                    assert(kept@ =~= seq![orig[k]] + matching(orig.skip(k + 1)));
                }
            }
        }
        assert(orig.skip(0) =~= orig);
        crate::memdir::rank_scored(kept, limit)
    }

    pub fn kind(&self) -> (r: ToolKind)
        ensures
            r == ToolKind::Function,
    {
        ToolKind::Function
    }

    /// The JSON arguments of the call.
    pub fn arguments(&self, payload: ToolPayload) -> (r: Result<String, FunctionCallError>)
        ensures
            match (r, payload_arguments("memory_search"@, payload)) {
                (Ok(a), Ok(b)) => a@ == b,
                (Err(e), Err(m)) => refuses(e, m),
                _ => false,
            },
    {
        function_arguments("memory_search", payload)
    }

    /// How many results to give: the requested limit, at most `MAX_SEARCH_RESULTS`.
    pub fn limit(args: &MemorySearchArgs) -> (r: usize)
        ensures
            r == if args.limit < MAX_SEARCH_RESULTS {
                args.limit
            } else {
                MAX_SEARCH_RESULTS
            },
    {
        if args.limit < MAX_SEARCH_RESULTS {
            args.limit
        } else {
            MAX_SEARCH_RESULTS
        }
    }

    /// The answer: `No memory topics found.` when the scan found no topic,
    /// otherwise the matching topics ranked by `rank`.
    pub fn respond(&self, found_any: bool, ranked: &Vec<(usize, MemoryTopic)>) -> (r: FunctionToolOutput)
        ensures
            answers(
                r,
                if found_any {
                    search_text(ranked@)
                } else {
                    "No memory topics found."@
                },
            ),
    {
        if !found_any {
            return answer_str("No memory topics found.");
        }
        let mut lines: Vec<Vec<char>> = Vec::new();
        let mut k: usize = 0;
        while k < ranked.len()
            invariant
                k <= ranked.len(),
                views(lines@) == ranked@.take(k as int).map_values(
                    |e: (usize, MemoryTopic)| search_line(e),
                ),
            decreases ranked.len() - k,
        {
            let l = search_line_exec(&ranked[k]);
            proof {
                assert(views(lines@.push(l)) =~= views(lines@).push(l@));
                assert(ranked@.take(k + 1).map_values(|e: (usize, MemoryTopic)| search_line(e))
                    =~= ranked@.take(k as int).map_values(
                    |e: (usize, MemoryTopic)| search_line(e),
                ).push(search_line(ranked@[k as int])));
            }
            lines.push(l);
            k = k + 1;
        }
        assert(ranked@.take(ranked.len() as int) =~= ranked@);
        let mut v = chars_of("Found ");
        let n = decimal_chars(ranked.len() as u128);
        push_all(&mut v, &n);
        push_str(&mut v, " matching topics:\n");
        let body = join_chars(&lines, &chars_of("\n"));
        push_all(&mut v, &body);
        answer(v)
    }
}

// ---------------------------------------------------------------------------
// notepad_read
// ---------------------------------------------------------------------------

/// Reads the notepad, or one of its sections.
#[derive(Debug)]
pub struct NotepadReadHandler;

/// Arguments of `notepad_read`.
#[derive(Debug)]
pub struct NotepadReadArgs {
    /// Optional section filter: "priority", "working", "manual".
    pub section: Option<String>,
}

/// The section a `section` argument names, compared lower-cased; any other
/// value, like no value, asks for the whole notepad.
pub open spec fn section_named(arg: Option<Seq<char>>) -> Option<NotepadSection> {
    match arg {
        Some(a) => {
            let l = lowercase_of(a);
            if l == "priority"@ {
                Some(NotepadSection::Priority)
            } else if l == "working"@ {
                Some(NotepadSection::Working)
            } else if l == "manual"@ {
                Some(NotepadSection::Manual)
            } else {
                None
            }
        },
        None => None,
    }
}

impl NotepadReadHandler {
    pub fn kind(&self) -> (r: ToolKind)
        ensures
            r == ToolKind::Function,
    {
        ToolKind::Function
    }

    /// The JSON arguments of the call.
    pub fn arguments(&self, payload: ToolPayload) -> (r: Result<String, FunctionCallError>)
        ensures
            match (r, payload_arguments("notepad_read"@, payload)) {
                (Ok(a), Ok(b)) => a@ == b,
                (Err(e), Err(m)) => refuses(e, m),
                _ => false,
            },
    {
        function_arguments("notepad_read", payload)
    }

    /// The section the call asks for.
    pub fn section(args: &NotepadReadArgs) -> (r: Option<NotepadSection>)
        ensures
            r == section_named(opt_string(args.section)),
    {
        match &args.section {
            Some(a) => {
                let l = chars_of(to_lowercase(a.as_str()).as_str());
                if chars_eq(&l, &chars_of("priority")) {
                    Some(NotepadSection::Priority)
                } else if chars_eq(&l, &chars_of("working")) {
                    Some(NotepadSection::Working)
                } else if chars_eq(&l, &chars_of("manual")) {
                    Some(NotepadSection::Manual)
                } else {
                    None
                }
            },
            None => None,
        }
    }

    /// The answer from what `notepad::read_notepad` returned.
    pub fn respond(&self, content: Option<String>) -> (r: FunctionToolOutput)
        ensures
            answers(
                r,
                match content {
                    Some(c) => c@,
                    None => "Notepad is empty or the requested section has no content."@,
                },
            ),
    {
        match content {
            Some(c) => FunctionToolOutput::from_text(c, Some(true)),
            None => answer_str("Notepad is empty or the requested section has no content."),
        }
    }
}

// ---------------------------------------------------------------------------
// notepad_write_priority, notepad_write_working, notepad_prune
// ---------------------------------------------------------------------------

/// Sets the notepad priority section.
#[derive(Debug)]
pub struct NotepadWritePriorityHandler;

/// Arguments of `notepad_write_priority`.
#[derive(Debug)]
pub struct NotepadWritePriorityArgs {
    /// Priority content (truncated to the section's limit).
    pub content: String,
}

impl NotepadWritePriorityHandler {
    pub fn kind(&self) -> (r: ToolKind)
        ensures
            r == ToolKind::Function,
    {
        ToolKind::Function
    }

    /// The JSON arguments of the call.
    pub fn arguments(&self, payload: ToolPayload) -> (r: Result<String, FunctionCallError>)
        ensures
            match (r, payload_arguments("notepad_write_priority"@, payload)) {
                (Ok(a), Ok(b)) => a@ == b,
                (Err(e), Err(m)) => refuses(e, m),
                _ => false,
            },
    {
        function_arguments("notepad_write_priority", payload)
    }

    /// The answer after the write.
    pub fn done(&self) -> (r: FunctionToolOutput)
        ensures
            answers(r, "Notepad priority section updated."@),
    {
        answer_str("Notepad priority section updated.")
    }

    /// The answer when the write failed with `err`.
    pub fn failed(&self, err: &str) -> (r: FunctionCallError)
        ensures
            refuses(r, "failed to write notepad priority: "@ + err@),
    {
        refusal("failed to write notepad priority: ", err)
    }
}

/// Appends an entry to the notepad working memory.
#[derive(Debug)]
pub struct NotepadWriteWorkingHandler;

/// Arguments of `notepad_write_working`.
#[derive(Debug)]
pub struct NotepadWriteWorkingArgs {
    /// Working memory entry.
    pub entry: String,
}

impl NotepadWriteWorkingHandler {
    pub fn kind(&self) -> (r: ToolKind)
        ensures
            r == ToolKind::Function,
    {
        ToolKind::Function
    }

    /// The JSON arguments of the call.
    pub fn arguments(&self, payload: ToolPayload) -> (r: Result<String, FunctionCallError>)
        ensures
            match (r, payload_arguments("notepad_write_working"@, payload)) {
                (Ok(a), Ok(b)) => a@ == b,
                (Err(e), Err(m)) => refuses(e, m),
                _ => false,
            },
    {
        function_arguments("notepad_write_working", payload)
    }

    /// The answer after the write.
    pub fn done(&self) -> (r: FunctionToolOutput)
        ensures
            answers(r, "Entry added to notepad working memory."@),
    {
        answer_str("Entry added to notepad working memory.")
    }

    /// The answer when the write failed with `err`.
    pub fn failed(&self, err: &str) -> (r: FunctionCallError)
        ensures
            refuses(r, "failed to append to notepad working memory: "@ + err@),
    {
        refusal("failed to append to notepad working memory: ", err)
    }
}

/// Prunes old entries from the notepad working memory.
#[derive(Debug)]
pub struct NotepadPruneHandler;

/// Arguments of `notepad_prune`.
#[derive(Debug)]
pub struct NotepadPruneArgs {
    /// Maximum age in days for working memory entries (default: 7).
    pub max_age_days: Option<u64>,
}

impl NotepadPruneHandler {
    pub fn kind(&self) -> (r: ToolKind)
        ensures
            r == ToolKind::Function,
    {
        ToolKind::Function
    }

    /// The JSON arguments of the call.
    pub fn arguments(&self, payload: ToolPayload) -> (r: Result<String, FunctionCallError>)
        ensures
            match (r, payload_arguments("notepad_prune"@, payload)) {
                (Ok(a), Ok(b)) => a@ == b,
                (Err(e), Err(m)) => refuses(e, m),
                _ => false,
            },
    {
        function_arguments("notepad_prune", payload)
    }

    /// The answer after `removed` entries were pruned.
    pub fn done(&self, removed: usize) -> (r: FunctionToolOutput)
        ensures
            answers(r, "Pruned "@ + decimal(removed as nat) + " old working memory entries."@),
    {
        let mut v = chars_of("Pruned ");
        let d = decimal_chars(removed as u128);
        push_all(&mut v, &d);
        push_str(&mut v, " old working memory entries.");
        answer(v)
    }

    /// The answer when pruning failed with `err`.
    pub fn failed(&self, err: &str) -> (r: FunctionCallError)
        ensures
            refuses(r, "failed to prune notepad: "@ + err@),
    {
        refusal("failed to prune notepad: ", err)
    }
}

// ---------------------------------------------------------------------------
// memory_write
// ---------------------------------------------------------------------------

/// Writes (or merges into) a topic file.
#[derive(Debug)]
pub struct MemoryWriteHandler;

/// Arguments of `memory_write`.
#[derive(Debug)]
pub struct MemoryWriteArgs {
    /// Topic name (used as file name).
    pub name: String,
    /// Short description for relevance scoring.
    pub description: Option<String>,
    /// Topic type (`type`): user, feedback, project, reference.
    pub memory_type: String,
    /// Keywords for relevance scoring.
    pub keywords: Option<Vec<String>>,
    /// Topic content (markdown).
    pub content: String,
    /// Merge with an existing topic (true) or replace it (false).
    pub merge: bool,
}

/// `type` of a written topic when the call gives none.
pub fn default_memory_type() -> (r: String)
    ensures
        r@ == "project"@,
{
    "project".to_string()
}

/// ASCII case folding of one character, as a code point.
pub open spec fn ascii_fold(c: char) -> u32 {
    if 'A' <= c && c <= 'Z' {
        (c as u32 + 32) as u32
    } else {
        c as u32
    }
}

/// `str::eq_ignore_ascii_case`.
pub open spec fn eq_ignore_ascii_case(a: Seq<char>, b: Seq<char>) -> bool {
    a.len() == b.len() && forall|i: int| 0 <= i < a.len() ==> ascii_fold(#[trigger] a[i]) == ascii_fold(b[i])
}

fn ascii_fold_exec(c: char) -> (r: u32)
    ensures
        r == ascii_fold(c),
{
    if 'A' <= c && c <= 'Z' {
        c as u32 + 32
    } else {
        c as u32
    }
}

/// `str::eq_ignore_ascii_case`.
pub fn equal_ignore_ascii_case(a: &str, b: &str) -> (r: bool)
    ensures
        r == eq_ignore_ascii_case(a@, b@),
{
    let x = chars_of(a);
    let y = chars_of(b);
    if x.len() != y.len() {
        return false;
    }
    let mut i: usize = 0;
    while i < x.len()
        invariant
            i <= x.len(),
            x.len() == y.len(),
            x@ == a@,
            y@ == b@,
            forall|k: int| 0 <= k < i ==> ascii_fold(#[trigger] x@[k]) == ascii_fold(y@[k]),
        decreases x.len() - i,
    {
        if ascii_fold_exec(x[i]) != ascii_fold_exec(y[i]) {
            return false;
        }
        i = i + 1;
    }
    true
}

/// The first topic whose name equals `name` ignoring ASCII case.
pub fn find_topic_ignore_ascii_case(topics: &Vec<MemoryTopic>, name: &str) -> (r: Option<usize>)
    ensures
        match r {
            Some(i) => i < topics@.len() && eq_ignore_ascii_case(topics@[i as int].frontmatter.name@, name@)
                && forall|j: int| 0 <= j < i ==> !eq_ignore_ascii_case(#[trigger] topics@[j].frontmatter.name@, name@),
            None => forall|j: int| 0 <= j < topics@.len() ==> !eq_ignore_ascii_case(#[trigger] topics@[j].frontmatter.name@, name@),
        },
{
    let mut i: usize = 0;
    while i < topics.len()
        invariant
            i <= topics.len(),
            forall|j: int| 0 <= j < i ==> !eq_ignore_ascii_case(#[trigger] topics@[j].frontmatter.name@, name@),
        decreases topics.len() - i,
    {
        if equal_ignore_ascii_case(topics[i].frontmatter.name.as_str(), name) {
            return Some(i);
        }
        i = i + 1;
    }
    None
}

fn copy_strings(v: &Vec<String>) -> (r: Vec<String>)
    ensures
        string_views(r@) == string_views(v@),
{
    let mut out: Vec<String> = Vec::new();
    let mut i: usize = 0;
    while i < v.len()
        invariant
            i <= v.len(),
            string_views(out@) == string_views(v@).take(i as int),
        decreases v.len() - i,
    {
        let c = v[i].clone();
        assert(c@ == v@[i as int]@);
        let ghost before = out@;
        out.push(c);
        proof {
            assert(out@ == before.push(c));
            assert(string_views(out@) =~= string_views(before).push(c@));
            assert(string_views(v@).take(i + 1) =~= string_views(v@).take(i as int).push(v@[i as int]@));
        }
        i = i + 1;
    }
    assert(string_views(v@).take(v.len() as int) =~= string_views(v@));
    out
}

/// The frontmatter and content that `memory_write` writes.  When the call
/// merges into an existing topic: the call's name unless empty, its
/// description unless missing or empty, its type unless it is the default
/// while the existing type is not, its keywords unless missing or empty
/// (each falling back to the existing topic's), and the existing content
/// (trailing whitespace removed), a blank line and the new content
/// (trimmed).  Otherwise: the call's fields, the name standing for a
/// missing description and no keywords for missing ones, and the new
/// content.  Either way the source is `agent` and `updated_at` is `now`.
pub open spec fn written_topic(args: MemoryWriteArgs, existing: Option<MemoryTopic>, now: (i64, u32)) -> (TopicFields, Seq<char>) {
    match (args.merge, existing) {
        (true, Some(e)) => {
            let f = e.frontmatter.view();
            let name = if args.name@.len() == 0 { f.0 } else { args.name@ };
            let desc = match args.description {
                Some(d) => if d@.len() > 0 { d@ } else { f.1 },
                None => f.1,
            };
            let ty = if args.memory_type@ == "project"@ && f.2 != "project"@ { f.2 } else { args.memory_type@ };
            let kws = match args.keywords {
                Some(k) => if k@.len() > 0 { string_views(k@) } else { f.3 },
                None => f.3,
            };
            (
                (name, desc, ty, kws, "agent"@, Some(now)),
                trim_end(e.content@) + "\n\n"@ + trim(args.content@),
            )
        },
        _ => {
            let desc = match args.description {
                Some(d) => d@,
                None => args.name@,
            };
            let kws = match args.keywords {
                Some(k) => string_views(k@),
                None => seq![],
            };
            ((args.name@, desc, args.memory_type@, kws, "agent"@, Some(now)), args.content@)
        },
    }
}

/// Merging into an existing topic keeps what the call leaves out: the
/// existing keywords when the call gives none (or an empty list), the
/// existing description when it gives none (or an empty one), the existing
/// name when the call's is empty; what the call gives replaces them.  The
/// existing content (trailing whitespace removed) comes first, and the
/// topic is marked as written by the agent at `now`.
pub proof fn law_merge_keeps_omitted_fields(args: MemoryWriteArgs, e: MemoryTopic, now: (i64, u32))
    requires
        args.merge,
    ensures
        ({
            let w = written_topic(args, Some(e), now);
            &&& (match args.keywords {
                Some(k) => k@.len() > 0,
                None => false,
            }) ==> w.0.3 == string_views(args.keywords.unwrap()@)
            &&& !(match args.keywords {
                Some(k) => k@.len() > 0,
                None => false,
            }) ==> w.0.3 == string_views(e.frontmatter.keywords@)
            &&& (match args.description {
                Some(d) => d@.len() > 0,
                None => false,
            }) ==> w.0.1 == args.description.unwrap()@
            &&& !(match args.description {
                Some(d) => d@.len() > 0,
                None => false,
            }) ==> w.0.1 == e.frontmatter.description@
            &&& args.name@.len() == 0 ==> w.0.0 == e.frontmatter.name@
            &&& args.name@.len() > 0 ==> w.0.0 == args.name@
            &&& w.0.4 == "agent"@
            &&& w.0.5 == Some(now)
            &&& trim_end(e.content@).is_prefix_of(w.1)
        }),
{
    let w = written_topic(args, Some(e), now);
    assert(w.1.subrange(0, trim_end(e.content@).len() as int) =~= trim_end(e.content@));
}

pub open spec fn opt_topic(x: Option<&MemoryTopic>) -> Option<MemoryTopic> {
    match x {
        Some(t) => Some(*t),
        None => None,
    }
}

impl MemoryWriteHandler {
    pub fn kind(&self) -> (r: ToolKind)
        ensures
            r == ToolKind::Function,
    {
        ToolKind::Function
    }

    /// The JSON arguments of the call.
    pub fn arguments(&self, payload: ToolPayload) -> (r: Result<String, FunctionCallError>)
        ensures
            match (r, payload_arguments("memory_write"@, payload)) {
                (Ok(a), Ok(b)) => a@ == b,
                (Err(e), Err(m)) => refuses(e, m),
                _ => false,
            },
    {
        function_arguments("memory_write", payload)
    }

    /// The topic to write, given the existing topic of that name (see
    /// `find_topic_ignore_ascii_case`; only looked for when merging) and
    /// the current time.
    pub fn topic_to_write(&self, args: &MemoryWriteArgs, existing: Option<&MemoryTopic>, now: (i64, u32)) -> (r: (MemoryFrontmatter, String))
        ensures
            (r.0.view(), r.1@) == written_topic(*args, opt_topic(existing), now),
    {
        if args.merge {
            if let Some(e) = existing {
                let name = if chars_of(args.name.as_str()).len() == 0 {
                    e.frontmatter.name.clone()
                } else {
                    args.name.clone()
                };
                let description = match &args.description {
                    Some(d) => if chars_of(d.as_str()).len() > 0 {
                        d.clone()
                    } else {
                        e.frontmatter.description.clone()
                    },
                    None => e.frontmatter.description.clone(),
                };
                let memory_type = if chars_eq(&chars_of(args.memory_type.as_str()), &chars_of("project"))
                    && !chars_eq(&chars_of(e.frontmatter.memory_type.as_str()), &chars_of("project")) {
                    e.frontmatter.memory_type.clone()
                } else {
                    args.memory_type.clone()
                };
                let keywords = match &args.keywords {
                    Some(k) => if k.len() > 0 {
                        copy_strings(k)
                    } else {
                        copy_strings(&e.frontmatter.keywords)
                    },
                    None => copy_strings(&e.frontmatter.keywords),
                };
                let mut content = trim_end_chars(&chars_of(e.content.as_str()));
                push_str(&mut content, "\n\n");
                let t = trim_chars(&chars_of(args.content.as_str()));
                push_all(&mut content, &t);
                let fm = MemoryFrontmatter {
                    name,
                    description,
                    memory_type,
                    keywords,
                    source: "agent".to_string(),
                    updated_at: Some(now),
                };
                return (fm, string_of(&content));
            }
        }
        let description = match &args.description {
            Some(d) => d.clone(),
            None => args.name.clone(),
        };
        let keywords = match &args.keywords {
            Some(k) => copy_strings(k),
            None => Vec::new(),
        };
        proof {
            if args.keywords is None {
                assert(string_views(keywords@) =~= Seq::<Seq<char>>::empty());
            }
        }
        let fm = MemoryFrontmatter {
            name: args.name.clone(),
            description,
            memory_type: args.memory_type.clone(),
            keywords,
            source: "agent".to_string(),
            updated_at: Some(now),
        };
        (fm, args.content.clone())
    }

    /// The answer after the topic was written to `path`.
    pub fn written(&self, args: &MemoryWriteArgs, path: &str) -> (r: FunctionToolOutput)
        ensures
            answers(
                r,
                "Memory topic '"@ + args.name@ + "' "@ + (if args.merge {
                    "merged into"@
                } else {
                    "written to"@
                }) + " "@ + path@,
            ),
    {
        let mut v = chars_of("Memory topic '");
        push_str(&mut v, args.name.as_str());
        push_str(&mut v, "' ");
        if args.merge {
            push_str(&mut v, "merged into");
        } else {
            push_str(&mut v, "written to");
        }
        push_str(&mut v, " ");
        push_str(&mut v, path);
        answer(v)
    }

    /// The answer when writing failed with `err`.
    pub fn failed(&self, err: &str) -> (r: FunctionCallError)
        ensures
            refuses(r, "failed to write memory topic: "@ + err@),
    {
        refusal("failed to write memory topic: ", err)
    }
}

// ---------------------------------------------------------------------------
// memory_add_note
// ---------------------------------------------------------------------------

/// Appends a timestamped note to a topic, creating the topic if needed.
#[derive(Debug)]
pub struct MemoryAddNoteHandler;

/// Arguments of `memory_add_note`.
#[derive(Debug)]
pub struct MemoryAddNoteArgs {
    /// Topic name to append the note to.
    pub topic: String,
    /// Note content.
    pub note: String,
}

/// The first topic whose lower-cased name equals the lower-cased `name`.
pub fn find_topic_lowercase(topics: &Vec<MemoryTopic>, name: &str) -> (r: Option<usize>)
    ensures
        match r {
            Some(i) => i < topics@.len() && lowercase_of(topics@[i as int].frontmatter.name@) == lowercase_of(name@)
                && forall|j: int| 0 <= j < i ==> lowercase_of(#[trigger] topics@[j].frontmatter.name@) != lowercase_of(name@),
            None => forall|j: int| 0 <= j < topics@.len() ==> lowercase_of(#[trigger] topics@[j].frontmatter.name@) != lowercase_of(name@),
        },
{
    let want = chars_of(to_lowercase(name).as_str());
    let mut i: usize = 0;
    while i < topics.len()
        invariant
            i <= topics.len(),
            want@ == lowercase_of(name@),
            forall|j: int| 0 <= j < i ==> lowercase_of(#[trigger] topics@[j].frontmatter.name@) != lowercase_of(name@),
        decreases topics.len() - i,
    {
        let have = chars_of(to_lowercase(topics[i].frontmatter.name.as_str()).as_str());
        if chars_eq(&have, &want) {
            return Some(i);
        }
        i = i + 1;
    }
    None
}

/// The note as it is added: on a line of its own, after its timestamp.
pub open spec fn note_line(timestamp: Seq<char>, note: Seq<char>) -> Seq<char> {
    "\n["@ + timestamp + "] "@ + note
}

/// The frontmatter and content that `memory_add_note` writes: the existing
/// topic with `updated_at` set to `now` and the note appended after its
/// content (trailing whitespace removed) and a line feed; or a new
/// `project` topic `Notes for {topic}` by the agent holding only the note.
pub open spec fn noted_topic(args: MemoryAddNoteArgs, existing: Option<MemoryTopic>, timestamp: Seq<char>, now: (i64, u32)) -> (TopicFields, Seq<char>) {
    let line = note_line(timestamp, args.note@);
    match existing {
        Some(t) => {
            let f = t.frontmatter.view();
            ((f.0, f.1, f.2, f.3, f.4, Some(now)), trim_end(t.content@) + "\n"@ + line)
        },
        None => (
            (args.topic@, "Notes for "@ + args.topic@, "project"@, seq![], "agent"@, Some(now)),
            trim_start(line),
        ),
    }
}

/// Adding a note to an existing topic changes none of its frontmatter but
/// `updated_at`, which becomes `now`; the content keeps the existing
/// content (trailing whitespace removed) and ends with the note.
pub proof fn law_add_note_keeps_frontmatter(
    args: MemoryAddNoteArgs,
    t: MemoryTopic,
    timestamp: Seq<char>,
    now: (i64, u32),
)
    ensures
        noted_topic(args, Some(t), timestamp, now).0 == (
            t.frontmatter.name@,
            t.frontmatter.description@,
            t.frontmatter.memory_type@,
            string_views(t.frontmatter.keywords@),
            t.frontmatter.source@,
            Some(now),
        ),
        trim_end(t.content@).is_prefix_of(noted_topic(args, Some(t), timestamp, now).1),
        args.note@.is_suffix_of(noted_topic(args, Some(t), timestamp, now).1),
{
    let c = noted_topic(args, Some(t), timestamp, now).1;
    let n = args.note@;
    assert(c.subrange(0, trim_end(t.content@).len() as int) =~= trim_end(t.content@));
    assert(c.subrange(c.len() - n.len(), c.len() as int) =~= n);
}

impl MemoryAddNoteHandler {
    pub fn kind(&self) -> (r: ToolKind)
        ensures
            r == ToolKind::Function,
    {
        ToolKind::Function
    }

    /// The JSON arguments of the call.
    pub fn arguments(&self, payload: ToolPayload) -> (r: Result<String, FunctionCallError>)
        ensures
            match (r, payload_arguments("memory_add_note"@, payload)) {
                (Ok(a), Ok(b)) => a@ == b,
                (Err(e), Err(m)) => refuses(e, m),
                _ => false,
            },
    {
        function_arguments("memory_add_note", payload)
    }

    /// The topic to write, given the matching topic (see
    /// `find_topic_lowercase`), the RFC 3339 `timestamp` of the note and the
    /// current time `now`.
    pub fn topic_with_note(&self, args: &MemoryAddNoteArgs, existing: Option<&MemoryTopic>, timestamp: &str, now: (i64, u32)) -> (r: (MemoryFrontmatter, String))
        ensures
            (r.0.view(), r.1@) == noted_topic(*args, opt_topic(existing), timestamp@, now),
    {
        let mut line = chars_of("\n[");
        push_str(&mut line, timestamp);
        push_str(&mut line, "] ");
        push_str(&mut line, args.note.as_str());
        match existing {
            Some(t) => {
                let mut content = trim_end_chars(&chars_of(t.content.as_str()));
                push_str(&mut content, "\n");
                push_all(&mut content, &line);
                let fm = MemoryFrontmatter {
                    name: t.frontmatter.name.clone(),
                    description: t.frontmatter.description.clone(),
                    memory_type: t.frontmatter.memory_type.clone(),
                    keywords: copy_strings(&t.frontmatter.keywords),
                    source: t.frontmatter.source.clone(),
                    updated_at: Some(now),
                };
                (fm, string_of(&content))
            },
            None => {
                let mut desc = chars_of("Notes for ");
                push_str(&mut desc, args.topic.as_str());
                let fm = MemoryFrontmatter {
                    name: args.topic.clone(),
                    description: string_of(&desc),
                    memory_type: "project".to_string(),
                    keywords: Vec::new(),
                    source: "agent".to_string(),
                    updated_at: Some(now),
                };
                proof {
                    assert(string_views(fm.keywords@) =~= Seq::<Seq<char>>::empty());
                }
                (fm, string_of(&trim_start_chars(&line)))
            },
        }
    }

    /// The topic to write with a note stamped at the instant `now`, written
    /// as RFC 3339; `None` when the instant is out of chrono's range.
    pub fn topic_with_note_at(&self, args: &MemoryAddNoteArgs, existing: Option<&MemoryTopic>, now: (i64, u32)) -> (r: Option<(MemoryFrontmatter, String)>)
        ensures
            match r {
                Some(t) => crate::timestamps::rfc3339_text_of(now) matches Some(ts)
                    && (t.0.view(), t.1@) == noted_topic(*args, opt_topic(existing), ts, now),
                None => crate::timestamps::rfc3339_text_of(now) is None,
            },
    {
        match crate::timestamps::format_rfc3339(now) {
            Some(ts) => Some(self.topic_with_note(args, existing, ts.as_str(), now)),
            None => None,
        }
    }

    /// The file the note is written to: the matched topic's own file, or
    /// the topic file for the name under `root` when none matched.
    pub fn note_target(&self, root: &str, args: &MemoryAddNoteArgs, existing: Option<&MemoryTopic>) -> (r: String)
        ensures
            r@ == match existing {
                Some(t) => t.path@,
                None => crate::paths::path_join(
                    crate::paths::path_join(root@, "topics"@),
                    crate::memdir::topic_file_name_of(args.topic@),
                ),
            },
    {
        match existing {
            Some(t) => t.path.clone(),
            None => crate::memdir::topic_path(root, args.topic.as_str()),
        }
    }

    /// The answer after the note was appended to the topic at `path`.
    pub fn appended(&self, args: &MemoryAddNoteArgs, path: &str) -> (r: FunctionToolOutput)
        ensures
            answers(r, "Note appended to topic '"@ + args.topic@ + "' at "@ + path@),
    {
        let mut v = chars_of("Note appended to topic '");
        push_str(&mut v, args.topic.as_str());
        push_str(&mut v, "' at ");
        push_str(&mut v, path);
        answer(v)
    }

    /// The answer after a new topic with the note was written to `path`.
    pub fn created(&self, args: &MemoryAddNoteArgs, path: &str) -> (r: FunctionToolOutput)
        ensures
            answers(r, "Created new topic '"@ + args.topic@ + "' with note at "@ + path@),
    {
        let mut v = chars_of("Created new topic '");
        push_str(&mut v, args.topic.as_str());
        push_str(&mut v, "' with note at ");
        push_str(&mut v, path);
        answer(v)
    }

    /// The answer when appending to an existing topic failed with `err`.
    pub fn append_failed(&self, err: &str) -> (r: FunctionCallError)
        ensures
            refuses(r, "failed to append note to memory topic: "@ + err@),
    {
        refusal("failed to append note to memory topic: ", err)
    }

    /// The answer when creating the topic failed with `err`.
    pub fn create_failed(&self, err: &str) -> (r: FunctionCallError)
        ensures
            refuses(r, "failed to create memory topic with note: "@ + err@),
    {
        refusal("failed to create memory topic with note: ", err)
    }
}

} // verus!
