//! Notepad: session-scoped working memory in three sections.
//!
//! - **PRIORITY**: the current highest-priority context (replaced entirely,
//!   at most 500 characters)
//! - **WORKING MEMORY**: timestamped entries for in-progress notes (prunable by age)
//! - **MANUAL**: permanent notes that are never pruned
//!
//! The notepad lives in `{root}/notepad.md`.  This module holds the text
//! format (parsing and rebuilding the sections) and the decisions of every
//! notepad operation; reading, locking and writing the file is done by the
//! caller around these functions.

use vstd::prelude::*;
use crate::text::{
    join_chars, is_ws, join, trim_start, lemma_join_len, lemma_join_lines, lemma_lines_concat, lemma_lines_leading_lf,
    lemma_lines_single, lemma_lines_trailing_lf, lemma_trim_end_fixed_last, lemma_trim_end_ws_suffix,
    blank, chars_eq, chars_of, contains, is_blank, lines, push_all, push_str, split_lines, string_of,
    trim, trim_chars, trim_end, trim_end_chars, views,
    byte_len, char_len, char_utf8_len, find, find_chars, lemma_find_from_spec, lemma_byte_len_encode, subseq,
};
use crate::paths::{join_path, path_join};
use crate::text::decimal;
use crate::timestamps::{instant_before, is_before, parse_rfc3339, rfc3339_instant, rfc3339_text_of};

verus! {

broadcast use vstd::string::group_string_axioms;

/// Notepad section identifier.
#[derive(Debug, Clone, Copy, PartialEq, Eq, Structural)]
pub enum NotepadSection {
    Priority,
    Working,
    Manual,
}

// ---------------------------------------------------------------------------
// Format
// ---------------------------------------------------------------------------

pub open spec fn priority_header() -> Seq<char> {
    "## PRIORITY"@
}

pub open spec fn working_header() -> Seq<char> {
    "## WORKING MEMORY"@
}

pub open spec fn manual_header() -> Seq<char> {
    "## MANUAL"@
}

/// The section a line opens, if it is a header line (compared after trimming).
pub open spec fn header_of(line: Seq<char>) -> Option<NotepadSection> {
    let t = trim(line);
    if t == priority_header() {
        Some(NotepadSection::Priority)
    } else if t == working_header() {
        Some(NotepadSection::Working)
    } else if t == manual_header() {
        Some(NotepadSection::Manual)
    } else {
        None
    }
}

/// Add a body line to a section: blank lines are skipped until the section
/// has content; later lines are joined with `\n`.
pub open spec fn add_line(section: Seq<char>, line: Seq<char>) -> Seq<char> {
    if section.len() > 0 {
        section + seq!['\n'] + line
    } else if !is_blank(line) {
        line
    } else {
        section
    }
}

/// Scanner state: the section being filled and the three section texts.
pub type ScanState = (Option<NotepadSection>, Seq<char>, Seq<char>, Seq<char>);

pub open spec fn scan_start() -> ScanState {
    (None, Seq::<char>::empty(), Seq::<char>::empty(), Seq::<char>::empty())
}

/// One line of the scan: a header switches section, any other line goes to
/// the current section (and is dropped before the first header).
pub open spec fn scan_line(st: ScanState, line: Seq<char>) -> ScanState {
    match header_of(line) {
        Some(s) => (Some(s), st.1, st.2, st.3),
        None => match st.0 {
            None => st,
            Some(NotepadSection::Priority) => (st.0, add_line(st.1, line), st.2, st.3),
            Some(NotepadSection::Working) => (st.0, st.1, add_line(st.2, line), st.3),
            Some(NotepadSection::Manual) => (st.0, st.1, st.2, add_line(st.3, line)),
        },
    }
}

/// Scan a sequence of lines from a state.
pub open spec fn scan_from(st: ScanState, ls: Seq<Seq<char>>) -> ScanState
    decreases ls.len(),
{
    if ls.len() == 0 {
        st
    } else {
        scan_line(scan_from(st, ls.drop_last()), ls.last())
    }
}

/// The `(priority, working, manual)` texts of a notepad file: the lines of
/// each section, trailing whitespace removed.
pub open spec fn sections_of(raw: Seq<char>) -> (Seq<char>, Seq<char>, Seq<char>) {
    let st = scan_from(scan_start(), lines(raw));
    (trim_end(st.1), trim_end(st.2), trim_end(st.3))
}

/// A header line followed, when the section is non-empty, by a blank line and the body.
pub open spec fn block(header: Seq<char>, body: Seq<char>) -> Seq<char> {
    if body.len() == 0 {
        header
    } else {
        header + seq!['\n', '\n'] + body
    }
}

/// The notepad file holding the three section texts.
pub open spec fn notepad_text(p: Seq<char>, w: Seq<char>, m: Seq<char>) -> Seq<char> {
    block(priority_header(), p) + seq!['\n', '\n'] + block(working_header(), w) + seq!['\n', '\n']
        + block(manual_header(), m) + seq!['\n']
}

/// A section text that survives being written and parsed again: it has no
/// trailing whitespace, no `\r\n`, its first line is not blank and none of
/// its lines is a section header.
pub open spec fn section_keeps(s: Seq<char>) -> bool {
    s.len() == 0 || {
        &&& trim_end(s) == s
        &&& !contains(s, seq!['\r', '\n'])
        &&& !is_blank(lines(s)[0])
        &&& forall|i: int| 0 <= i < lines(s).len() ==> header_of(#[trigger] lines(s)[i]) is None
    }
}

// ---------------------------------------------------------------------------
// The round trip of the format
// ---------------------------------------------------------------------------

/// The text of section `s` in a scanner state.
pub open spec fn section_text(st: ScanState, s: NotepadSection) -> Seq<char> {
    match s {
        NotepadSection::Priority => st.1,
        NotepadSection::Working => st.2,
        NotepadSection::Manual => st.3,
    }
}

/// The header line of section `s`.
pub open spec fn header_for(s: NotepadSection) -> Seq<char> {
    match s {
        NotepadSection::Priority => priority_header(),
        NotepadSection::Working => working_header(),
        NotepadSection::Manual => manual_header(),
    }
}

/// The lines a section contributes to the notepad after its header line.
pub open spec fn body_lines(b: Seq<char>) -> Seq<Seq<char>> {
    if b.len() == 0 {
        seq![]
    } else {
        seq![Seq::<char>::empty()] + lines(b)
    }
}

proof fn lemma_headers()
    ensures
        forall|s: NotepadSection| {
            let h = #[trigger] header_for(s);
            &&& h.len() > 0
            &&& h.last() != '\n' && h.last() != '\r'
            &&& forall|k: int| 0 <= k < h.len() ==> h[k] != '\n'
            &&& header_of(h) == Some(s)
        },
        header_of(Seq::<char>::empty()) is None,
{
    reveal_strlit("## PRIORITY");
    reveal_strlit("## WORKING MEMORY");
    reveal_strlit("## MANUAL");
    assert(trim_start(priority_header()) == priority_header());
    assert(trim_start(working_header()) == working_header());
    assert(trim_start(manual_header()) == manual_header());
    assert(trim_end(priority_header()) == priority_header());
    assert(trim_end(working_header()) == working_header());
    assert(trim_end(manual_header()) == manual_header());
    assert(priority_header() != working_header());
    assert(priority_header() != manual_header());
    assert(working_header() != manual_header());
    assert(trim(Seq::<char>::empty()) =~= Seq::<char>::empty());
}

proof fn lemma_scan_one(st: ScanState, l: Seq<char>)
    ensures
        scan_from(st, seq![l]) == scan_line(st, l),
{
    assert(seq![l].drop_last() =~= Seq::<Seq<char>>::empty());
    assert(scan_from(st, Seq::<Seq<char>>::empty()) == st);
}

/// A body line goes to the current section and leaves the others alone.
proof fn lemma_scan_line_body(st: ScanState, l: Seq<char>)
    requires
        header_of(l) is None,
        st.0 is Some,
    ensures
        scan_line(st, l).0 == st.0,
        section_text(scan_line(st, l), st.0->0) == add_line(section_text(st, st.0->0), l),
        forall|o: NotepadSection|
            o != st.0->0 ==> section_text(scan_line(st, l), o) == section_text(st, o),
{
    match st.0 {
        Some(NotepadSection::Priority) => {},
        Some(NotepadSection::Working) => {},
        Some(NotepadSection::Manual) => {},
        None => {},
    }
}

/// A header line switches the current section and leaves the texts alone.
proof fn lemma_scan_line_header(st: ScanState, l: Seq<char>)
    requires
        header_of(l) is Some,
    ensures
        scan_line(st, l).0 == header_of(l),
        forall|o: NotepadSection| section_text(scan_line(st, l), o) == section_text(st, o),
{
}

proof fn lemma_scan_concat(st: ScanState, a: Seq<Seq<char>>, b: Seq<Seq<char>>)
    ensures
        scan_from(st, a + b) == scan_from(scan_from(st, a), b),
    decreases b.len(),
{
    if b.len() == 0 {
        assert(a + b =~= a);
    } else {
        lemma_scan_concat(st, a, b.drop_last());
        assert((a + b).drop_last() =~= a + b.drop_last());
        assert((a + b).last() == b.last());
    }
}

/// Scanning the lines of a section body into an empty current section.
proof fn lemma_scan_body(st: ScanState, s: NotepadSection, ls: Seq<Seq<char>>)
    requires
        st.0 == Some(s),
        section_text(st, s).len() == 0,
        ls.len() > 0,
        !is_blank(ls[0]),
        forall|i: int| 0 <= i < ls.len() ==> header_of(#[trigger] ls[i]) is None,
    ensures
        scan_from(st, ls).0 == Some(s),
        section_text(scan_from(st, ls), s) == join(ls, seq!['\n']),
        forall|o: NotepadSection|
            o != s ==> section_text(scan_from(st, ls), o) == section_text(st, o),
    decreases ls.len(),
{
    assert(header_of(ls.last()) is None);
    if ls.len() > 1 {
        let dl = ls.drop_last();
        assert(dl[0] == ls[0]);
        assert forall|i: int| 0 <= i < dl.len() implies header_of(#[trigger] dl[i]) is None by {
            assert(dl[i] == ls[i]);
        }
        lemma_scan_body(st, s, dl);
        lemma_join_len(dl, seq!['\n']);
        assert(trim(Seq::<char>::empty()) =~= Seq::<char>::empty());
        assert(ls[0].len() > 0);
    } else {
        assert(ls.drop_last() =~= Seq::<Seq<char>>::empty());
    }
}

/// The lines of a block.
proof fn lemma_block_lines(s: NotepadSection, b: Seq<char>)
    requires
        section_keeps(b),
    ensures
        lines(block(header_for(s), b)) == seq![header_for(s)] + body_lines(b),
        block(header_for(s), b).len() > 0,
        block(header_for(s), b).last() != '\n',
        block(header_for(s), b).last() != '\r',
{
    lemma_headers();
    let h = header_for(s);
    lemma_lines_single(h);
    if b.len() > 0 {
        lemma_trim_end_fixed_last(b);
        lemma_lines_concat(h, seq!['\n'] + b);
        lemma_lines_leading_lf(b);
        assert(h + seq!['\n', '\n'] + b =~= h + seq!['\n'] + (seq!['\n'] + b));
        assert(block(h, b).last() == b.last());
        assert(seq![h] + (seq![Seq::<char>::empty()] + lines(b)) =~= seq![h] + body_lines(b));
    } else {
        assert(seq![h] + body_lines(b) =~= seq![h]);
    }
}

/// The lines of a notepad file written from three section texts.
proof fn lemma_notepad_lines(p: Seq<char>, w: Seq<char>, m: Seq<char>)
    requires
        section_keeps(p),
        section_keeps(w),
        section_keeps(m),
    ensures
        lines(notepad_text(p, w, m)) == seq![priority_header()] + body_lines(p) + seq![
            Seq::<char>::empty(),
        ] + seq![working_header()] + body_lines(w) + seq![Seq::<char>::empty()] + seq![
            manual_header(),
        ] + body_lines(m),
{
    let bp = block(priority_header(), p);
    let bw = block(working_header(), w);
    let bm = block(manual_header(), m);
    lemma_block_lines(NotepadSection::Priority, p);
    lemma_block_lines(NotepadSection::Working, w);
    lemma_block_lines(NotepadSection::Manual, m);
    let z2 = seq!['\n'] + bm + seq!['\n'];
    let z1 = bw + seq!['\n'] + z2;
    assert(notepad_text(p, w, m) =~= bp + seq!['\n'] + (seq!['\n'] + z1));
    lemma_lines_concat(bp, seq!['\n'] + z1);
    lemma_lines_leading_lf(z1);
    lemma_lines_concat(bw, z2);
    assert(z2 =~= seq!['\n'] + (bm + seq!['\n']));
    lemma_lines_leading_lf(bm + seq!['\n']);
    lemma_lines_trailing_lf(bm);
    let e = Seq::<char>::empty();
    assert(lines(notepad_text(p, w, m)) =~= seq![priority_header()] + body_lines(p) + seq![e] + seq![
        working_header(),
    ] + body_lines(w) + seq![e] + seq![manual_header()] + body_lines(m));
}

/// Scanning one section: its header, then its body lines.
proof fn lemma_scan_section(st: ScanState, s: NotepadSection, b: Seq<char>)
    requires
        section_keeps(b),
        section_text(st, s).len() == 0,
    ensures
        scan_from(st, seq![header_for(s)] + body_lines(b)).0 == Some(s),
        section_text(scan_from(st, seq![header_for(s)] + body_lines(b)), s) == b,
        forall|o: NotepadSection|
            o != s ==> section_text(scan_from(st, seq![header_for(s)] + body_lines(b)), o)
                == section_text(st, o),
{
    lemma_headers();
    let e = Seq::<char>::empty();
    let h = header_for(s);
    lemma_scan_one(st, h);
    lemma_scan_line_header(st, h);
    let st1 = scan_from(st, seq![h]);
    assert(st1.0 == Some(s));
    lemma_scan_concat(st, seq![h], body_lines(b));
    if b.len() > 0 {
        assert(trim(e) =~= e);
        lemma_scan_one(st1, e);
        lemma_scan_line_body(st1, e);
        let st2 = scan_from(st1, seq![e]);
        assert(section_text(st2, s).len() == 0);
        lemma_scan_concat(st1, seq![e], lines(b));
        lemma_scan_body(st2, s, lines(b));
        lemma_trim_end_fixed_last(b);
        lemma_join_lines(b);
    } else {
        assert(seq![h] + body_lines(b) =~= seq![h]);
    }
}

/// Writing three section texts and parsing the file gives them back, for
/// every section text that `section_keeps`.
pub proof fn law_sections_round_trip(p: Seq<char>, w: Seq<char>, m: Seq<char>)
    requires
        section_keeps(p),
        section_keeps(w),
        section_keeps(m),
    ensures
        sections_of(notepad_text(p, w, m)) == (p, w, m),
{
    lemma_headers();
    lemma_notepad_lines(p, w, m);
    let e = Seq::<char>::empty();
    let gp = seq![priority_header()] + body_lines(p);
    let gw = seq![working_header()] + body_lines(w);
    let gm = seq![manual_header()] + body_lines(m);
    assert(seq![priority_header()] + body_lines(p) + seq![e] + seq![working_header()] + body_lines(w)
        + seq![e] + seq![manual_header()] + body_lines(m) =~= gp + seq![e] + gw + seq![e] + gm);
    let s0 = scan_start();
    lemma_scan_concat(s0, gp + seq![e] + gw + seq![e], gm);
    lemma_scan_concat(s0, gp + seq![e] + gw, seq![e]);
    lemma_scan_concat(s0, gp + seq![e], gw);
    lemma_scan_concat(s0, gp, seq![e]);
    assert(header_for(NotepadSection::Priority) == priority_header());
    assert(header_for(NotepadSection::Working) == working_header());
    assert(header_for(NotepadSection::Manual) == manual_header());
    lemma_scan_section(s0, NotepadSection::Priority, p);
    assert(gp == seq![header_for(NotepadSection::Priority)] + body_lines(p));
    let a1 = scan_from(s0, gp);
    assert(a1.0 == Some(NotepadSection::Priority));
    assert(section_text(a1, NotepadSection::Working) == section_text(s0, NotepadSection::Working));
    assert(section_text(a1, NotepadSection::Manual) == section_text(s0, NotepadSection::Manual));
    assert(trim(e) =~= e);
    lemma_scan_one(a1, e);
    lemma_scan_line_body(a1, e);
    let a2 = scan_from(a1, seq![e]);
    assert(section_text(a2, NotepadSection::Working) == section_text(a1, NotepadSection::Working));
    assert(section_text(a2, NotepadSection::Manual) == section_text(a1, NotepadSection::Manual));
    lemma_scan_section(a2, NotepadSection::Working, w);
    assert(gw == seq![header_for(NotepadSection::Working)] + body_lines(w));
    let a3 = scan_from(a2, gw);
    assert(a3.0 == Some(NotepadSection::Working));
    assert(section_text(a3, NotepadSection::Priority) == section_text(a2, NotepadSection::Priority));
    assert(section_text(a3, NotepadSection::Manual) == section_text(a2, NotepadSection::Manual));
    lemma_scan_one(a3, e);
    lemma_scan_line_body(a3, e);
    let a4 = scan_from(a3, seq![e]);
    assert(section_text(a4, NotepadSection::Priority) == section_text(a3, NotepadSection::Priority));
    assert(section_text(a4, NotepadSection::Manual) == section_text(a3, NotepadSection::Manual));
    lemma_scan_section(a4, NotepadSection::Manual, m);
    assert(gm == seq![header_for(NotepadSection::Manual)] + body_lines(m));
    let a5 = scan_from(a4, gm);
    assert(section_text(a5, NotepadSection::Priority) == section_text(a4, NotepadSection::Priority));
    assert(section_text(a5, NotepadSection::Working) == section_text(a4, NotepadSection::Working));
    lemma_trim_end_ws_suffix(p, seq!['\n']);
    lemma_trim_end_ws_suffix(w, seq!['\n']);
    assert(is_ws('\n'));
    assert(a2.1 == (if p.len() > 0 { p + seq!['\n'] } else { p }));
    assert(a4.2 == (if w.len() > 0 { w + seq!['\n'] } else { w }));
    assert(a5.1 == a2.1);
    assert(a5.2 == a4.2);
    assert(a5.3 == m);
    assert(trim_end(a5.1) == p);
    assert(trim_end(a5.2) == w);
    assert(trim_end(a5.3) == m);
}

// ---------------------------------------------------------------------------
// Parsing and building
// ---------------------------------------------------------------------------

fn header_line(line: &Vec<char>, ph: &Vec<char>, wh: &Vec<char>, mh: &Vec<char>) -> (r: Option<
    NotepadSection,
>)
    requires
        ph@ == priority_header(),
        wh@ == working_header(),
        mh@ == manual_header(),
    ensures
        r == header_of(line@),
{
    let t = trim_chars(line);
    if chars_eq(&t, ph) {
        Some(NotepadSection::Priority)
    } else if chars_eq(&t, wh) {
        Some(NotepadSection::Working)
    } else if chars_eq(&t, mh) {
        Some(NotepadSection::Manual)
    } else {
        None
    }
}

fn add_line_exec(section: &mut Vec<char>, line: &Vec<char>)
    ensures
        final(section)@ == add_line(old(section)@, line@),
{
    if section.len() > 0 {
        section.push('\n');
        push_all(section, line);
    } else if !blank(line) {
        push_all(section, line);
    }
}

/// Parse a notepad file into its three sections `(priority, working, manual)`.
pub fn parse_sections(raw: &str) -> (r: (String, String, String))
    ensures
        (r.0@, r.1@, r.2@) == sections_of(raw@),
{
    let text = chars_of(raw);
    let ls = split_lines(&text);
    let ph = chars_of("## PRIORITY");
    let wh = chars_of("## WORKING MEMORY");
    let mh = chars_of("## MANUAL");
    let mut current: Option<NotepadSection> = None;
    let mut priority: Vec<char> = Vec::new();
    let mut working: Vec<char> = Vec::new();
    let mut manual: Vec<char> = Vec::new();
    let mut i: usize = 0;
    while i < ls.len()
        invariant
            i <= ls.len(),
            views(ls@) == lines(text@),
            ph@ == priority_header(),
            wh@ == working_header(),
            mh@ == manual_header(),
            (current, priority@, working@, manual@) == scan_from(
                scan_start(),
                views(ls@).take(i as int),
            ),
        decreases ls.len() - i,
    {
        let line = &ls[i];
        proof {
            assert(views(ls@).take(i + 1).drop_last() =~= views(ls@).take(i as int));
            assert(views(ls@).take(i + 1).last() == line@);
        }
        match header_line(line, &ph, &wh, &mh) {
            Some(s) => {
                current = Some(s);
            },
            None => {
                match current {
                    None => {},
                    Some(NotepadSection::Priority) => {
                        add_line_exec(&mut priority, line);
                    },
                    Some(NotepadSection::Working) => {
                        add_line_exec(&mut working, line);
                    },
                    Some(NotepadSection::Manual) => {
                        add_line_exec(&mut manual, line);
                    },
                }
            },
        }
        i = i + 1;
    }
    proof {
        assert(views(ls@).take(ls.len() as int) =~= views(ls@));
    }
    let p = trim_end_chars(&priority);
    let w = trim_end_chars(&working);
    let m = trim_end_chars(&manual);
    (string_of(&p), string_of(&w), string_of(&m))
}

fn push_block(out: &mut Vec<char>, header: &str, body: &Vec<char>)
    ensures
        final(out)@ == old(out)@ + block(header@, body@),
{
    push_str(out, header);
    if body.len() > 0 {
        out.push('\n');
        out.push('\n');
        push_all(out, body);
        proof {
            assert(final(out)@ =~= old(out)@ + block(header@, body@));
        }
    }
}

fn build_notepad_chars(priority: &Vec<char>, working: &Vec<char>, manual: &Vec<char>) -> (r: Vec<
    char,
>)
    ensures
        r@ == notepad_text(priority@, working@, manual@),
{
    let mut out: Vec<char> = Vec::new();
    push_block(&mut out, "## PRIORITY", priority);
    out.push('\n');
    out.push('\n');
    push_block(&mut out, "## WORKING MEMORY", working);
    out.push('\n');
    out.push('\n');
    push_block(&mut out, "## MANUAL", manual);
    out.push('\n');
    assert(out@ =~= notepad_text(priority@, working@, manual@));
    out
}

/// Rebuild the full notepad text from the three section texts: each header,
/// followed by its text when non-empty, separated by blank lines, with a
/// final line feed.
pub fn build_notepad_content(priority: &str, working: &str, manual: &str) -> (r: String)
    ensures
        r@ == notepad_text(priority@, working@, manual@),
{
    let p = chars_of(priority);
    let w = chars_of(working);
    let m = chars_of(manual);
    let out = build_notepad_chars(&p, &w, &m);
    string_of(&out)
}

/// Returns the path to the notepad file under `root`.
pub fn notepad_path(root: &str) -> (r: String)
    ensures
        r@ == path_join(root@, "notepad.md"@),
{
    join_path(root, "notepad.md")
}

/// Returns the lock directory path for the notepad under `root`.
pub fn lock_dir(root: &str) -> (r: String)
    ensures
        r@ == path_join(root@, ".notepad.lock"@),
{
    join_path(root, ".notepad.lock")
}

// ---------------------------------------------------------------------------
// Operations
// ---------------------------------------------------------------------------

/// Maximum character length of the PRIORITY section.
pub const PRIORITY_MAX_CHARS: usize = 500;

/// The PRIORITY section kept of `content`: its first `PRIORITY_MAX_CHARS`
/// characters.
pub open spec fn priority_text(content: Seq<char>) -> Seq<char> {
    if content.len() > PRIORITY_MAX_CHARS {
        content.take(PRIORITY_MAX_CHARS as int)
    } else {
        content
    }
}

/// Default number of days before WORKING MEMORY entries are pruned.
pub const DEFAULT_PRUNE_DAYS: u64 = 7;

/// The sections of the stored notepad; a missing file has three empty sections.
pub open spec fn stored_sections(raw: Option<Seq<char>>) -> (Seq<char>, Seq<char>, Seq<char>) {
    match raw {
        Some(r) => sections_of(r),
        None => (Seq::<char>::empty(), Seq::<char>::empty(), Seq::<char>::empty()),
    }
}

/// The text of one section, given the three.
pub open spec fn pick(secs: (Seq<char>, Seq<char>, Seq<char>), s: NotepadSection) -> Seq<char> {
    match s {
        NotepadSection::Priority => secs.0,
        NotepadSection::Working => secs.1,
        NotepadSection::Manual => secs.2,
    }
}

/// A section text with one more line appended.
pub open spec fn with_entry(section: Seq<char>, entry: Seq<char>) -> Seq<char> {
    if section.len() > 0 {
        section + seq!['\n'] + entry
    } else {
        entry
    }
}

/// A WORKING MEMORY entry: `[{timestamp}] {entry}`.
pub open spec fn working_entry(timestamp: Seq<char>, entry: Seq<char>) -> Seq<char> {
    seq!['['] + timestamp + seq![']', ' '] + entry
}

fn stored_sections_exec(existing: Option<&str>) -> (r: (Vec<char>, Vec<char>, Vec<char>))
    ensures
        (r.0@, r.1@, r.2@) == stored_sections(
            match existing {
                Some(x) => Some(x@),
                None => None,
            },
        ),
{
    match existing {
        Some(raw) => {
            let (p, w, m) = parse_sections(raw);
            (chars_of(p.as_str()), chars_of(w.as_str()), chars_of(m.as_str()))
        },
        None => (Vec::new(), Vec::new(), Vec::new()),
    }
}

/// The view of an optional string.
pub open spec fn opt_view(x: Option<&str>) -> Option<Seq<char>> {
    match x {
        Some(s) => Some(s@),
        None => None,
    }
}

/// Read the notepad (`raw`: the file's text, `None` when it cannot be read),
/// optionally only one section.  The whole file is returned when no section
/// is asked for; a section is returned only when it is non-empty.
pub fn read_notepad(raw: Option<&str>, section: Option<NotepadSection>) -> (r: Option<String>)
    ensures
        match raw {
            None => r is None,
            Some(text) => match section {
                None => r matches Some(t) && t@ == text@,
                Some(s) => {
                    let body = pick(sections_of(text@), s);
                    if body.len() == 0 {
                        r is None
                    } else {
                        r matches Some(t) && t@ == body
                    }
                },
            },
        },
{
    let text = match raw {
        Some(t) => t,
        None => {
            return None;
        },
    };
    let (priority, working, manual) = parse_sections(text);
    match section {
        None => Some(text.to_owned()),
        Some(NotepadSection::Priority) => {
            if priority.as_str().is_empty() {
                None
            } else {
                Some(priority)
            }
        },
        Some(NotepadSection::Working) => {
            if working.as_str().is_empty() {
                None
            } else {
                Some(working)
            }
        },
        Some(NotepadSection::Manual) => {
            if manual.as_str().is_empty() {
                None
            } else {
                Some(manual)
            }
        },
    }
}

/// The new notepad text after replacing the PRIORITY section with
/// `content`, truncated to `PRIORITY_MAX_CHARS` characters.  The other
/// sections of `existing` are kept.
pub fn write_priority(existing: Option<&str>, content: &str) -> (r: String)
    ensures
        r@ == notepad_text(
            priority_text(content@),
            stored_sections(opt_view(existing)).1,
            stored_sections(opt_view(existing)).2,
        ),
{
    let c = chars_of(content);
    let truncated = if c.len() > PRIORITY_MAX_CHARS {
        subseq(&c, 0, PRIORITY_MAX_CHARS)
    } else {
        c
    };
    assert(truncated@ =~= priority_text(content@));
    let (_p, w, m) = stored_sections_exec(existing);
    let out = build_notepad_chars(&truncated, &w, &m);
    string_of(&out)
}

fn append_entry(section: &mut Vec<char>, entry: &Vec<char>)
    ensures
        final(section)@ == with_entry(old(section)@, entry@),
{
    if section.len() > 0 {
        section.push('\n');
    }
    push_all(section, entry);
}

/// The new notepad text after appending `[{timestamp}] {entry}` to the
/// WORKING MEMORY section.
pub fn append_working(existing: Option<&str>, timestamp: &str, entry: &str) -> (r: String)
    ensures
        r@ == notepad_text(
            stored_sections(opt_view(existing)).0,
            with_entry(stored_sections(opt_view(existing)).1, working_entry(timestamp@, entry@)),
            stored_sections(opt_view(existing)).2,
        ),
{
    let (p, mut w, m) = stored_sections_exec(existing);
    let mut line: Vec<char> = Vec::new();
    line.push('[');
    push_str(&mut line, timestamp);
    line.push(']');
    line.push(' ');
    push_str(&mut line, entry);
    assert(line@ =~= working_entry(timestamp@, entry@));
    append_entry(&mut w, &line);
    let out = build_notepad_chars(&p, &w, &m);
    string_of(&out)
}

/// The new notepad text after appending `entry` to the MANUAL section.
pub fn append_manual(existing: Option<&str>, entry: &str) -> (r: String)
    ensures
        r@ == notepad_text(
            stored_sections(opt_view(existing)).0,
            stored_sections(opt_view(existing)).1,
            with_entry(stored_sections(opt_view(existing)).2, entry@),
        ),
{
    let (p, w, mut m) = stored_sections_exec(existing);
    let e = chars_of(entry);
    append_entry(&mut m, &e);
    let out = build_notepad_chars(&p, &w, &m);
    string_of(&out)
}

// ---------------------------------------------------------------------------
// Working-memory timestamps: pruning and statistics
// ---------------------------------------------------------------------------

/// Where the timestamp of a WORKING MEMORY line ends: the first `"] "` of
/// the trimmed line.
pub open spec fn stamp_end(line: Seq<char>) -> Option<int> {
    find(trim(line), seq![']', ' '])
}

/// The timestamp text of a WORKING MEMORY line: between the first character
/// and the first `"] "` of the trimmed line.  A line whose `"] "` comes
/// first, or whose first character is not a single byte, carries none.
pub open spec fn entry_stamp(line: Seq<char>) -> Option<Seq<char>> {
    match stamp_end(line) {
        Some(k) => if k > 0 && char_len(trim(line)[0]) == 1 {
            Some(trim(line).subrange(1, k))
        } else {
            None
        },
        None => None,
    }
}

/// The line carries a timestamp that chrono accepts.
pub open spec fn has_valid_stamp(line: Seq<char>) -> bool {
    entry_stamp(line) matches Some(ts) && rfc3339_instant(ts) is Some
}

/// The line carries a valid timestamp strictly earlier than `cutoff`.
pub open spec fn is_expired(line: Seq<char>, cutoff: (i64, u32)) -> bool {
    entry_stamp(line) matches Some(ts) && rfc3339_instant(ts) matches Some(i) && instant_before(
        i,
        cutoff,
    )
}

/// The lines that pruning keeps, in order.
pub open spec fn kept_lines(ls: Seq<Seq<char>>, cutoff: (i64, u32)) -> Seq<Seq<char>>
    decreases ls.len(),
{
    if ls.len() == 0 {
        seq![]
    } else if is_expired(ls.last(), cutoff) {
        kept_lines(ls.drop_last(), cutoff)
    } else {
        kept_lines(ls.drop_last(), cutoff).push(ls.last())
    }
}

/// The instant a valid timestamp denotes.
pub open spec fn stamp_instant(s: Seq<char>) -> (i64, u32) {
    rfc3339_instant(s)->0
}

/// The first of the stamps with the earliest instant.
pub open spec fn earliest_stamp(st: Seq<Seq<char>>) -> Seq<char>
    decreases st.len(),
{
    if st.len() <= 1 {
        st[0]
    } else {
        let e = earliest_stamp(st.drop_last());
        if instant_before(stamp_instant(st.last()), stamp_instant(e)) {
            st.last()
        } else {
            e
        }
    }
}

/// The first of the stamps with the latest instant.
pub open spec fn latest_stamp(st: Seq<Seq<char>>) -> Seq<char>
    decreases st.len(),
{
    if st.len() <= 1 {
        st[0]
    } else {
        let e = latest_stamp(st.drop_last());
        if instant_before(stamp_instant(e), stamp_instant(st.last())) {
            st.last()
        } else {
            e
        }
    }
}

/// The valid timestamps of the lines, in order.
pub open spec fn valid_stamps(ls: Seq<Seq<char>>) -> Seq<Seq<char>>
    decreases ls.len(),
{
    if ls.len() == 0 {
        seq![]
    } else if has_valid_stamp(ls.last()) {
        valid_stamps(ls.drop_last()).push(entry_stamp(ls.last())->0)
    } else {
        valid_stamps(ls.drop_last())
    }
}

proof fn lemma_kept_len(ls: Seq<Seq<char>>, cutoff: (i64, u32))
    ensures
        kept_lines(ls, cutoff).len() <= ls.len(),
    decreases ls.len(),
{
    if ls.len() > 0 {
        lemma_kept_len(ls.drop_last(), cutoff);
    }
}

/// Find the timestamp of a line: `Some((trimmed, end))` when the trimmed
/// line has a `"] "` at `end`.
fn stamp_of(line: &Vec<char>) -> (r: Option<Vec<char>>)
    ensures
        match r {
            Some(ts) => entry_stamp(line@) == Some(ts@),
            None => entry_stamp(line@) is None,
        },
{
    let t = trim_chars(line);
    let mut pat: Vec<char> = Vec::new();
    pat.push(']');
    pat.push(' ');
    assert(pat@ =~= seq![']', ' ']);
    match find_chars(&t, &pat) {
        Some(k) => {
            proof {
                lemma_find_from_spec(t@, pat@, 0);
            }
            if k == 0 || char_utf8_len(t[0]) != 1 {
                return None;
            }
            Some(subseq(&t, 1, k))
        },
        None => None,
    }
}

fn valid_stamp_of(line: &Vec<char>) -> (r: Option<(Vec<char>, (i64, u32))>)
    ensures
        match r {
            Some((ts, i)) => entry_stamp(line@) == Some(ts@) && rfc3339_instant(ts@) == Some(i),
            None => !has_valid_stamp(line@),
        },
{
    match stamp_of(line) {
        Some(ts) => {
            let s = string_of(&ts);
            match parse_rfc3339(s.as_str()) {
                Some(i) => Some((ts, i)),
                None => None,
            }
        },
        None => None,
    }
}

/// Prune WORKING MEMORY entries whose timestamp is strictly earlier than
/// `cutoff`.  Returns the number of entries removed and, when any were, the
/// new notepad text (the other sections unchanged).  A missing notepad has
/// nothing to prune; a line without a readable timestamp (see
/// `entry_stamp`) is kept.
pub fn prune_working(existing: Option<&str>, cutoff: (i64, u32)) -> (r: (usize, Option<String>))
    ensures
        ({
            let secs = stored_sections(opt_view(existing));
            let kept = kept_lines(lines(secs.1), cutoff);
            &&& r.0 == lines(secs.1).len() - kept.len()
            &&& r.0 > 0 <==> r.1 is Some
            &&& r.1 matches Some(t) ==> t@ == notepad_text(secs.0, join(kept, seq!['\n']), secs.2)
        }),
{
    let (p, w, m) = stored_sections_exec(existing);
    let ls = split_lines(&w);
    let mut kept: Vec<Vec<char>> = Vec::new();
    let mut removed: usize = 0;
    let mut i: usize = 0;
    while i < ls.len()
        invariant
            i <= ls.len(),
            views(ls@) == lines(w@),
            w@ == stored_sections(opt_view(existing)).1,
            views(kept@) == kept_lines(views(ls@).take(i as int), cutoff),
            removed == i - kept@.len(),
        decreases ls.len() - i,
    {
        let line = &ls[i];
        proof {
            assert(lines(w@)[i as int] == line@);
            assert(views(ls@).take(i + 1).drop_last() =~= views(ls@).take(i as int));
            assert(views(ls@).take(i + 1).last() == line@);
            lemma_kept_len(views(ls@).take(i as int), cutoff);
        }
        let expired = match valid_stamp_of(line) {
            Some((_ts, instant)) => is_before(instant, cutoff),
            None => false,
        };
        if expired {
            removed = removed + 1;
        } else {
            let copy = subseq(line, 0, line.len());
            proof {
                assert(copy@ =~= line@);
                assert(views(kept@.push(copy)) =~= views(kept@).push(line@));
            }
            kept.push(copy);
        }
        i = i + 1;
    }
    proof {
        assert(views(ls@).take(ls.len() as int) =~= views(ls@));
    }
    if removed > 0 {
        let sep = vec!['\n'];
        assert(sep@ =~= seq!['\n']);
        let retained = join_chars(&kept, &sep);
        let out = build_notepad_chars(&p, &retained, &m);
        (removed, Some(string_of(&out)))
    } else {
        (removed, None)
    }
}

/// Notepad statistics: file size, section sizes in bytes, and the valid
/// WORKING MEMORY timestamps (count, earliest and latest).
#[derive(Debug, Clone)]
pub struct NotepadStats {
    pub file_size_bytes: u64,
    pub priority_chars: usize,
    pub working_entries: usize,
    pub manual_chars: usize,
    pub oldest_working: Option<String>,
    pub newest_working: Option<String>,
}

/// Compute notepad statistics from the file's text (`None`: no notepad) and
/// its size on disk.
pub fn notepad_stats(existing: Option<&str>, file_size_bytes: u64) -> (r: NotepadStats)
    ensures
        match existing {
            None => r.file_size_bytes == 0 && r.priority_chars == 0 && r.working_entries == 0
                && r.manual_chars == 0 && r.oldest_working is None && r.newest_working is None,
            Some(text) => {
                let secs = sections_of(text@);
                let stamps = valid_stamps(lines(secs.1));
                &&& r.file_size_bytes == file_size_bytes
                &&& r.priority_chars == byte_len(secs.0) as usize
                &&& r.manual_chars == byte_len(secs.2) as usize
                &&& r.working_entries == stamps.len()
                &&& (if stamps.len() == 0 {
                    r.oldest_working is None && r.newest_working is None
                } else {
                    (r.oldest_working matches Some(o) && o@ == earliest_stamp(stamps))
                        && (r.newest_working matches Some(n) && n@ == latest_stamp(stamps))
                })
            },
        },
{
    let text = match existing {
        None => {
            return NotepadStats {
                file_size_bytes: 0,
                priority_chars: 0,
                working_entries: 0,
                manual_chars: 0,
                oldest_working: None,
                newest_working: None,
            };
        },
        Some(t) => t,
    };
    let (priority, working, manual) = parse_sections(text);
    let w = chars_of(working.as_str());
    let ls = split_lines(&w);
    let mut count: usize = 0;
    let mut oldest: Option<(String, (i64, u32))> = None;
    let mut newest: Option<(String, (i64, u32))> = None;
    let mut i: usize = 0;
    while i < ls.len()
        invariant
            i <= ls.len(),
            views(ls@) == lines(w@),
            w@ == stored_sections(opt_view(existing)).1,
            count == valid_stamps(views(ls@).take(i as int)).len(),
            count <= i,
            count == 0 ==> oldest is None && newest is None,
            count > 0 ==> (oldest matches Some(o) && o.0@ == earliest_stamp(
                valid_stamps(views(ls@).take(i as int)),
            ) && o.1 == stamp_instant(o.0@)),
            count > 0 ==> (newest matches Some(n) && n.0@ == latest_stamp(
                valid_stamps(views(ls@).take(i as int)),
            ) && n.1 == stamp_instant(n.0@)),
        decreases ls.len() - i,
    {
        let line = &ls[i];
        proof {
            assert(lines(w@)[i as int] == line@);
            assert(views(ls@).take(i + 1).drop_last() =~= views(ls@).take(i as int));
            assert(views(ls@).take(i + 1).last() == line@);
        }
        match valid_stamp_of(line) {
            Some((ts, instant)) => {
                let ghost prev = valid_stamps(views(ls@).take(i as int));
                proof {
                    let now_st = valid_stamps(views(ls@).take(i + 1));
                    assert(now_st == prev.push(ts@));
                    assert(now_st.drop_last() =~= prev);
                    assert(now_st.last() == ts@);
                }
                count = count + 1;
                let replace_old = match &oldest {
                    Some(o) => is_before(instant, o.1),
                    None => true,
                };
                if replace_old {
                    oldest = Some((string_of(&ts), instant));
                }
                let replace_new = match &newest {
                    Some(n) => is_before(n.1, instant),
                    None => true,
                };
                if replace_new {
                    newest = Some((string_of(&ts), instant));
                }
            },
            None => {},
        }
        i = i + 1;
    }
    proof {
        assert(views(ls@).take(ls.len() as int) =~= views(ls@));
        lemma_byte_len_encode(priority@);
        lemma_byte_len_encode(manual@);
    }
    NotepadStats {
        file_size_bytes,
        priority_chars: priority.as_str().len(),
        working_entries: count,
        manual_chars: manual.as_str().len(),
        oldest_working: match oldest {
            Some(o) => Some(o.0),
            None => None,
        },
        newest_working: match newest {
            Some(n) => Some(n.0),
            None => None,
        },
    }
}

// ---------------------------------------------------------------------------
// Laws of the notepad operations
// ---------------------------------------------------------------------------

/// Reading the PRIORITY section after `write_priority` gives the written
/// content, truncated to `PRIORITY_MAX_CHARS` characters; the WORKING MEMORY and
/// MANUAL sections are those of the notepad before the write.
pub proof fn law_priority_read_after_write(existing: Option<Seq<char>>, content: Seq<char>)
    requires
        section_keeps(priority_text(content)),
        section_keeps(stored_sections(existing).1),
        section_keeps(stored_sections(existing).2),
    ensures
        sections_of(
            notepad_text(
                priority_text(content),
                stored_sections(existing).1,
                stored_sections(existing).2,
            ),
        ) == (
            priority_text(content),
            stored_sections(existing).1,
            stored_sections(existing).2,
        ),
{
    law_sections_round_trip(
        priority_text(content),
        stored_sections(existing).1,
        stored_sections(existing).2,
    );
}

/// The PRIORITY section written by `write_priority` never exceeds
/// `PRIORITY_MAX_CHARS` characters, is a prefix of the content, and content
/// within the limit is kept whole.
pub proof fn law_priority_within_limit(content: Seq<char>)
    ensures
        priority_text(content).len() <= PRIORITY_MAX_CHARS,
        priority_text(content) == content.take(priority_text(content).len() as int),
        content.len() <= PRIORITY_MAX_CHARS ==> priority_text(content) == content,
{
    assert(content.take(content.len() as int) =~= content);
}

/// After `append_working`, the WORKING MEMORY section is the previous one
/// with `[{timestamp}] {entry}` as a new last line, and the other sections
/// are unchanged.
pub proof fn law_working_append(
    existing: Option<Seq<char>>,
    timestamp: Seq<char>,
    entry: Seq<char>,
)
    requires
        section_keeps(stored_sections(existing).0),
        section_keeps(with_entry(stored_sections(existing).1, working_entry(timestamp, entry))),
        section_keeps(stored_sections(existing).2),
    ensures
        sections_of(
            notepad_text(
                stored_sections(existing).0,
                with_entry(stored_sections(existing).1, working_entry(timestamp, entry)),
                stored_sections(existing).2,
            ),
        ) == (
            stored_sections(existing).0,
            with_entry(stored_sections(existing).1, working_entry(timestamp, entry)),
            stored_sections(existing).2,
        ),
{
    law_sections_round_trip(
        stored_sections(existing).0,
        with_entry(stored_sections(existing).1, working_entry(timestamp, entry)),
        stored_sections(existing).2,
    );
}

/// After `append_manual`, the MANUAL section is the previous one with
/// `entry` as a new last line, and the other sections are unchanged.
pub proof fn law_manual_append(existing: Option<Seq<char>>, entry: Seq<char>)
    requires
        section_keeps(stored_sections(existing).0),
        section_keeps(stored_sections(existing).1),
        section_keeps(with_entry(stored_sections(existing).2, entry)),
    ensures
        sections_of(
            notepad_text(
                stored_sections(existing).0,
                stored_sections(existing).1,
                with_entry(stored_sections(existing).2, entry),
            ),
        ) == (
            stored_sections(existing).0,
            stored_sections(existing).1,
            with_entry(stored_sections(existing).2, entry),
        ),
{
    law_sections_round_trip(
        stored_sections(existing).0,
        stored_sections(existing).1,
        with_entry(stored_sections(existing).2, entry),
    );
}

/// Pruning never touches PRIORITY or MANUAL: the notepad written by
/// `prune_working` reads back with the same PRIORITY and MANUAL sections
/// and exactly the kept WORKING MEMORY lines.
pub proof fn law_prune_keeps_other_sections(existing: Option<Seq<char>>, cutoff: (i64, u32))
    requires
        section_keeps(stored_sections(existing).0),
        section_keeps(join(kept_lines(lines(stored_sections(existing).1), cutoff), seq!['\n'])),
        section_keeps(stored_sections(existing).2),
    ensures
        sections_of(
            notepad_text(
                stored_sections(existing).0,
                join(kept_lines(lines(stored_sections(existing).1), cutoff), seq!['\n']),
                stored_sections(existing).2,
            ),
        ) == (
            stored_sections(existing).0,
            join(kept_lines(lines(stored_sections(existing).1), cutoff), seq!['\n']),
            stored_sections(existing).2,
        ),
{
    law_sections_round_trip(
        stored_sections(existing).0,
        join(kept_lines(lines(stored_sections(existing).1), cutoff), seq!['\n']),
        stored_sections(existing).2,
    );
}

/// Every kept line is unexpired and every unexpired line is kept: pruning
/// removes exactly the lines with a valid timestamp earlier than the cutoff.
pub proof fn law_prune_removes_exactly_expired(ls: Seq<Seq<char>>, cutoff: (i64, u32))
    ensures
        kept_lines(ls, cutoff) == ls.filter(|l: Seq<char>| !is_expired(l, cutoff)),
    decreases ls.len(),
{
    reveal_with_fuel(Seq::<_>::filter, 1);
    if ls.len() > 0 {
        law_prune_removes_exactly_expired(ls.drop_last(), cutoff);
    }
}

// ---------------------------------------------------------------------------
// Atomic writes and the lock
// ---------------------------------------------------------------------------

/// Name of the temporary file a write goes through: `.{file}.tmp.{pid}`
/// next to the notepad (`notepad.md` standing for a missing file name).
pub open spec fn temp_file_name_of(file_name: Option<Seq<char>>, pid: u32) -> Seq<char> {
    let f = match file_name {
        Some(n) => n,
        None => "notepad.md"@,
    };
    "."@ + f + ".tmp."@ + decimal(pid as nat)
}

/// The temporary file name for a write to the file `file_name` by process `pid`.
pub fn temp_file_name(file_name: Option<&str>, pid: u32) -> (r: String)
    ensures
        r@ == temp_file_name_of(opt_view(file_name), pid),
{
    let mut v = chars_of(".");
    match file_name {
        Some(n) => push_str(&mut v, n),
        None => push_str(&mut v, "notepad.md"),
    }
    push_str(&mut v, ".tmp.");
    let d = crate::text::decimal_chars(pid as u128);
    push_all(&mut v, &d);
    string_of(&v)
}

/// Lock acquisition timeout in milliseconds.
pub const LOCK_TIMEOUT_MS: u64 = 5000;

/// Lock polling interval in milliseconds.
pub const LOCK_POLL_MS: u64 = 100;

/// The lock's owner record: `{"pid":P,"ts":T}`.
pub open spec fn owner_record(pid: u32, ts_ms: u128) -> Seq<char> {
    "{\"pid\":"@ + decimal(pid as nat) + ",\"ts\":"@ + decimal(ts_ms as nat) + "}"@
}

/// The owner record written into a freshly created lock directory, for
/// process `pid`, `ts_ms` milliseconds after acquisition started.
pub fn owner_metadata(pid: u32, ts_ms: u128) -> (r: String)
    ensures
        r@ == owner_record(pid, ts_ms),
{
    let mut v = chars_of("{\"pid\":");
    let d = crate::text::decimal_chars(pid as u128);
    push_all(&mut v, &d);
    push_str(&mut v, ",\"ts\":");
    let t = crate::text::decimal_chars(ts_ms);
    push_all(&mut v, &t);
    push_str(&mut v, "}");
    string_of(&v)
}

/// The owner pid recorded in a lock's owner file: the text after the first
/// `"pid":` (up to a further `"pid":`, if any) must hold a `,`, and what
/// precedes that comma must parse as a `u32`.
pub open spec fn recorded_pid(raw: Seq<char>) -> Option<u32> {
    let key = "\"pid\":"@;
    match find(raw, key) {
        None => None,
        Some(i) => {
            let after = raw.skip(i + key.len());
            let seg = match find(after, key) {
                Some(j) => after.take(j),
                None => after,
            };
            match find(seg, ","@) {
                Some(e) => crate::text::parse_u32(seg.take(e)),
                None => None,
            }
        },
    }
}

/// The pid of the process that holds the lock, read from its owner file.
pub fn owner_pid(raw: &str) -> (r: Option<u32>)
    ensures
        r == recorded_pid(raw@),
{
    proof {
        reveal_strlit("\"pid\":");
        reveal_strlit(",");
    }
    let text = chars_of(raw);
    let key = chars_of("\"pid\":");
    let i = match find_chars(&text, &key) {
        Some(i) => i,
        None => {
            return None;
        },
    };
    proof {
        lemma_find_from_spec(text@, key@, 0);
        assert(crate::text::occurs_at(text@, key@, i as int));
        assert(i + key@.len() <= text@.len());
    }
    assert(i + key.len() <= text.len());
    let start: usize = i + key.len();
    let after = subseq(&text, start, text.len());
    assert(after@ =~= text@.skip(i + key@.len()));
    let seg = match find_chars(&after, &key) {
        Some(j) => {
            proof {
                lemma_find_from_spec(after@, key@, 0);
            }
            let s = subseq(&after, 0, j);
            assert(s@ =~= after@.take(j as int));
            s
        },
        None => after,
    };
    match find_chars(&seg, &chars_of(",")) {
        Some(e) => {
            proof {
                lemma_find_from_spec(seg@, ","@, 0);
            }
            let head = subseq(&seg, 0, e);
            assert(head@ =~= seg@.take(e as int));
            crate::text::parse_u32_chars(&head)
        },
        None => None,
    }
}

/// What to do about a lock that another holder has.
#[derive(Debug, Clone, Copy, PartialEq, Eq, Structural)]
pub enum LockAction {
    /// The owner process is gone: remove the stale lock and try again at once.
    Reap,
    /// Wait `LOCK_POLL_MS` and try again.
    Wait,
}

/// Decide about a held lock: reap it when its owner pid could be read and
/// that process no longer exists; wait otherwise.
pub fn contended_lock(owner: Option<u32>, owner_alive: bool) -> (r: LockAction)
    ensures
        r == (if owner is Some && !owner_alive {
            LockAction::Reap
        } else {
            LockAction::Wait
        }),
{
    match owner {
        Some(_) => if owner_alive {
            LockAction::Wait
        } else {
            LockAction::Reap
        },
        None => LockAction::Wait,
    }
}

/// Whether acquiring the lock has run out of time after `elapsed_ms`.
pub fn lock_timed_out(elapsed_ms: u128) -> (r: bool)
    ensures
        r == (elapsed_ms >= LOCK_TIMEOUT_MS),
{
    elapsed_ms >= LOCK_TIMEOUT_MS as u128
}

/// The error when the lock could not be acquired in time.
pub fn lock_timeout_message() -> (r: String)
    ensures
        r@ == "failed to acquire notepad lock within "@ + decimal(LOCK_TIMEOUT_MS as nat) + "ms"@,
{
    let mut v = chars_of("failed to acquire notepad lock within ");
    let d = crate::text::decimal_chars(LOCK_TIMEOUT_MS as u128);
    push_all(&mut v, &d);
    push_str(&mut v, "ms");
    string_of(&v)
}

/// Days of WORKING MEMORY a prune keeps: the age it names, or `DEFAULT_PRUNE_DAYS`.
pub open spec fn days_kept(max_age_days: Option<u64>) -> u64 {
    match max_age_days {
        Some(d) => d,
        None => DEFAULT_PRUNE_DAYS,
    }
}

/// Days of WORKING MEMORY a prune keeps.
pub fn prune_days(max_age_days: Option<u64>) -> (r: u64)
    ensures
        r == days_kept(max_age_days),
{
    match max_age_days {
        Some(d) => d,
        None => DEFAULT_PRUNE_DAYS,
    }
}

/// The instant before which WORKING MEMORY entries are pruned: `now` less
/// the kept days, as chrono computes it.  `None` when the age reaches
/// beyond what chrono represents: more days than an `i64` holds, or a
/// cutoff before its earliest date.
pub open spec fn cutoff_for(now: (i64, u32), max_age_days: Option<u64>) -> Option<(i64, u32)> {
    if days_kept(max_age_days) > i64::MAX as u64 {
        None
    } else {
        crate::timestamps::days_before_of(now, days_kept(max_age_days) as i64)
    }
}

/// The instant before which WORKING MEMORY entries are pruned: `now` less
/// `max_age_days` days (default 7).  `None` where the age reaches beyond
/// chrono's range (no entry can be that old); an instant and age well
/// inside it always give a cutoff.
pub fn prune_cutoff(now: (i64, u32), max_age_days: Option<u64>) -> (r: Option<(i64, u32)>)
    ensures
        r == cutoff_for(now, max_age_days),
        days_kept(max_age_days) > i64::MAX as u64 ==> r is None,
        now.1 < 1_000_000_000 ==> (r matches Some(c) ==> c.0 == now.0 - days_kept(max_age_days)
            * 86400 && c.1 == now.1),
        days_kept(max_age_days) <= i64::MAX as u64 && crate::timestamps::within_clock_range(
            now,
            days_kept(max_age_days) as i64,
        ) ==> r is Some,
        r matches Some(c) ==> crate::timestamps::in_chrono_range(c),
        reaches_before_all_dates(now, max_age_days) ==> r is None,
{
    let days = prune_days(max_age_days);
    if days > i64::MAX as u64 {
        return None;
    }
    let r = crate::timestamps::days_before(now, days as i64);
    proof {
        if reaches_before_all_dates(now, max_age_days) {
            if let Some(c) = r {
                assert(c.0 == now.0 - days * 86400);
                assert(days * 86400 >= 8_640_000_000_000);
            }
        }
    }
    r
}

/// An age of at least 10^8 days counted back from an instant (not a leap
/// second) within 2^32 seconds of the epoch: it reaches before every date
/// chrono represents.
pub open spec fn reaches_before_all_dates(now: (i64, u32), max_age_days: Option<u64>) -> bool {
    &&& days_kept(max_age_days) >= 100_000_000
    &&& now.1 < 1_000_000_000
    &&& -0x1_0000_0000 <= now.0 <= 0x1_0000_0000
}

/// Prune the WORKING MEMORY entries older than `max_age_days` days
/// (default 7) at the instant `now`.  An age beyond chrono's range prunes
/// nothing: no entry can be older.  Otherwise as `prune_working` with the
/// cutoff of `prune_cutoff`.
pub fn prune_working_at(existing: Option<&str>, now: (i64, u32), max_age_days: Option<u64>) -> (r: (usize, Option<String>))
    ensures
        reaches_before_all_dates(now, max_age_days) ==> r.0 == 0 && r.1 is None,
        match cutoff_for(now, max_age_days) {
            None => r.0 == 0 && r.1 is None,
            Some(c) => {
                let secs = stored_sections(opt_view(existing));
                let kept = kept_lines(lines(secs.1), c);
                &&& r.0 == lines(secs.1).len() - kept.len()
                &&& r.0 > 0 <==> r.1 is Some
                &&& r.1 matches Some(t) ==> t@ == notepad_text(secs.0, join(kept, seq!['\n']), secs.2)
            },
        },
{
    match prune_cutoff(now, max_age_days) {
        None => (0, None),
        Some(c) => prune_working(existing, c),
    }
}

/// The new notepad text after appending an entry stamped with the instant
/// `now`, written as RFC 3339; `None` when the instant is out of chrono's
/// range.
pub fn append_working_at(existing: Option<&str>, now: (i64, u32), entry: &str) -> (r: Option<String>)
    ensures
        match r {
            Some(t) => rfc3339_text_of(now) matches Some(ts) && t@ == notepad_text(
                stored_sections(opt_view(existing)).0,
                with_entry(stored_sections(opt_view(existing)).1, working_entry(ts, entry@)),
                stored_sections(opt_view(existing)).2,
            ),
            None => rfc3339_text_of(now) is None,
        },
{
    match crate::timestamps::format_rfc3339(now) {
        Some(ts) => Some(append_working(existing, ts.as_str(), entry)),
        None => None,
    }
}

/// The oldest stamp the statistics report is one of the stamps and no stamp
/// is earlier than it; the newest is one of them and no stamp is later.
pub proof fn law_stats_oldest_newest(st: Seq<Seq<char>>)
    requires
        st.len() > 0,
    ensures
        st.contains(earliest_stamp(st)),
        st.contains(latest_stamp(st)),
        forall|i: int|
            0 <= i < st.len() ==> !instant_before(
                stamp_instant(#[trigger] st[i]),
                stamp_instant(earliest_stamp(st)),
            ),
        forall|i: int|
            0 <= i < st.len() ==> !instant_before(
                stamp_instant(latest_stamp(st)),
                stamp_instant(#[trigger] st[i]),
            ),
    decreases st.len(),
{
    if st.len() == 1 {
        assert(st[0] == earliest_stamp(st));
    } else {
        let d = st.drop_last();
        law_stats_oldest_newest(d);
        let e = earliest_stamp(d);
        let l = latest_stamp(d);
        assert(st[st.len() - 1] == st.last());
        assert forall|i: int| 0 <= i < st.len() implies !instant_before(
            stamp_instant(#[trigger] st[i]),
            stamp_instant(earliest_stamp(st)),
        ) by {
            if i < d.len() {
                assert(st[i] == d[i]);
            }
        }
        assert forall|i: int| 0 <= i < st.len() implies !instant_before(
            stamp_instant(latest_stamp(st)),
            stamp_instant(#[trigger] st[i]),
        ) by {
            if i < d.len() {
                assert(st[i] == d[i]);
            }
        }
        let ie = choose|i: int| 0 <= i < d.len() && d[i] == e;
        assert(st[ie] == e);
        let il = choose|i: int| 0 <= i < d.len() && d[i] == l;
        assert(st[il] == l);
    }
}

/// A section text in plain form: empty, or already trimmed, without
/// carriage returns and without header lines.
pub open spec fn plain_section(s: Seq<char>) -> bool {
    &&& (s.len() == 0 || trim(s) == s)
    &&& forall|i: int| 0 <= i < s.len() ==> s[i] != '\r'
    &&& forall|i: int| 0 <= i < lines(s).len() ==> header_of(#[trigger] lines(s)[i]) is None
}

/// A section text in plain form survives being written and parsed.
pub proof fn lemma_plain_section_keeps(s: Seq<char>)
    requires
        plain_section(s),
    ensures
        section_keeps(s),
{
    if s.len() > 0 {
        crate::text::lemma_trim_start_shape(s);
        crate::text::lemma_trim_end_shape(trim_start(s));
        let ts = trim_start(s);
        assert(ts.len() == s.len());
        assert(ts =~= s);
        assert(!is_ws(s[0]));
        assert(trim_end(s) == s);
        assert forall|i: int| !crate::text::occurs_at(s, seq!['\r', '\n'], i) by {
            if crate::text::occurs_at(s, seq!['\r', '\n'], i) {
                assert(s.subrange(i, i + 2)[0] == s[i]);
            }
        }
        let j = crate::text::index_of(s, '\n');
        crate::text::lemma_index_of_bounds(s, '\n');
        let first = lines(s)[0];
        if 0 <= j < s.len() {
            assert(j > 0);
            let t = s.take(j);
            assert(t.last() == s[j - 1]);
            assert(crate::text::strip_cr(t) == t);
            assert(first == t);
        } else {
            assert(first == s);
        }
        assert(first.len() > 0 && first[0] == s[0]);
        assert(trim_start(first) == first);
        crate::text::lemma_trim_end_shape(first);
        if trim_end(first).len() == 0 {
            assert(is_ws(first[0]));
        }
        assert(!is_blank(first));
    }
}

/// Writing three plain section texts and parsing the file gives them back.
pub proof fn law_plain_sections_round_trip(p: Seq<char>, w: Seq<char>, m: Seq<char>)
    requires
        plain_section(p),
        plain_section(w),
        plain_section(m),
    ensures
        sections_of(notepad_text(p, w, m)) == (p, w, m),
{
    lemma_plain_section_keeps(p);
    lemma_plain_section_keeps(w);
    lemma_plain_section_keeps(m);
    law_sections_round_trip(p, w, m);
}

} // verus!
