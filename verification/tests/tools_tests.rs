use codex_memory::memdir::{MemoryFrontmatter, MemoryTopic};
use codex_memory::notepad::NotepadSection;
use codex_memory::tools::{
    default_limit, default_memory_type, equal_ignore_ascii_case, find_topic_ignore_ascii_case,
    find_topic_lowercase, FunctionCallError, MemoryAddNoteArgs, MemoryAddNoteHandler,
    MemoryReadArgs, MemoryReadHandler, MemorySearchArgs, MemorySearchHandler, MemoryWriteArgs,
    MemoryWriteHandler, NotepadPruneHandler, NotepadReadArgs, NotepadReadHandler,
    NotepadWritePriorityHandler, NotepadWriteWorkingHandler, ToolKind, ToolPayload, NO_MEMORIES,
};

fn topic(name: &str, ty: &str, description: &str, keywords: &[&str], content: &str) -> MemoryTopic {
    MemoryTopic {
        frontmatter: MemoryFrontmatter {
            name: name.to_string(),
            description: description.to_string(),
            memory_type: ty.to_string(),
            keywords: keywords.iter().map(|k| k.to_string()).collect(),
            source: "auto".to_string(),
            updated_at: None,
        },
        content: content.to_string(),
        path: format!("/m/topics/{name}.md"),
        modified_secs: 0,
    }
}

fn message(e: FunctionCallError) -> String {
    match e {
        FunctionCallError::RespondToModel(m) => m,
    }
}

#[test]
fn handlers_are_function_tools() {
    assert_eq!(MemoryReadHandler.kind(), ToolKind::Function);
    assert_eq!(MemoryWriteHandler.kind(), ToolKind::Function);
    assert_eq!(MemoryAddNoteHandler.kind(), ToolKind::Function);
    assert_eq!(MemorySearchHandler.kind(), ToolKind::Function);
    assert_eq!(NotepadReadHandler.kind(), ToolKind::Function);
    assert_eq!(NotepadWritePriorityHandler.kind(), ToolKind::Function);
    assert_eq!(NotepadWriteWorkingHandler.kind(), ToolKind::Function);
    assert_eq!(NotepadPruneHandler.kind(), ToolKind::Function);
}

#[test]
fn unsupported_payloads_are_refused() {
    let ok = MemoryReadHandler.arguments(ToolPayload::Function { arguments: "{}".to_string() }).unwrap();
    assert_eq!(ok, "{}");
    let e = MemoryReadHandler.arguments(ToolPayload::Other).unwrap_err();
    assert_eq!(message(e), "memory_read handler received unsupported payload");
    let e = NotepadPruneHandler.arguments(ToolPayload::Other).unwrap_err();
    assert_eq!(message(e), "notepad_prune handler received unsupported payload");
    let e = MemoryWriteHandler.arguments(ToolPayload::Other).unwrap_err();
    assert_eq!(message(e), "memory_write handler received unsupported payload");
}

#[test]
fn memory_read_answers() {
    let none: Vec<(usize, MemoryTopic)> = Vec::new();
    let out = MemoryReadHandler.respond(None, &none, None);
    assert_eq!(out.text, NO_MEMORIES);
    assert_eq!(out.success, Some(true));
    let topics = vec![(4usize, topic("arch", "project", "d", &[], "Body"))];
    let out = MemoryReadHandler.respond(Some("IDX".to_string()), &topics, Some("P".to_string()));
    assert_eq!(
        out.text,
        "## Memory Index\nIDX\n\n## Topic: arch (type: project, score: 4)\nBody\n\n## Notepad Priority\nP"
    );
    assert_eq!(MemoryReadHandler::query(&MemoryReadArgs { query: None }), "");
    assert_eq!(MemoryReadHandler::query(&MemoryReadArgs { query: Some("q".to_string()) }), "q");
}

#[test]
fn memory_search_answers() {
    assert_eq!(default_limit(), 5);
    assert_eq!(MemorySearchHandler::limit(&MemorySearchArgs { query: String::new(), limit: 50 }), 20);
    assert_eq!(MemorySearchHandler::limit(&MemorySearchArgs { query: String::new(), limit: 3 }), 3);
    let none: Vec<(usize, MemoryTopic)> = Vec::new();
    assert_eq!(MemorySearchHandler.respond(false, &none).text, "No memory topics found.");
    assert_eq!(MemorySearchHandler.respond(true, &none).text, "Found 0 matching topics:\n");
    let ranked = vec![
        (7usize, topic("a", "user", "first", &[], "")),
        (2usize, topic("b", "project", "second", &[], "")),
    ];
    assert_eq!(
        MemorySearchHandler.respond(true, &ranked).text,
        "Found 2 matching topics:\n- **a** (type: user, score: 7): first\n- **b** (type: project, score: 2): second"
    );
}

#[test]
fn notepad_read_sections() {
    let s = |x: Option<&str>| NotepadReadHandler::section(&NotepadReadArgs { section: x.map(|v| v.to_string()) });
    assert_eq!(s(Some("Priority")), Some(NotepadSection::Priority));
    assert_eq!(s(Some("WORKING")), Some(NotepadSection::Working));
    assert_eq!(s(Some("manual")), Some(NotepadSection::Manual));
    assert_eq!(s(Some("other")), None);
    assert_eq!(s(None), None);
    assert_eq!(NotepadReadHandler.respond(Some("c".to_string())).text, "c");
    assert_eq!(
        NotepadReadHandler.respond(None).text,
        "Notepad is empty or the requested section has no content."
    );
}

#[test]
fn notepad_write_and_prune_answers() {
    assert_eq!(NotepadWritePriorityHandler.done().text, "Notepad priority section updated.");
    assert_eq!(message(NotepadWritePriorityHandler.failed("disk")), "failed to write notepad priority: disk");
    assert_eq!(NotepadWriteWorkingHandler.done().text, "Entry added to notepad working memory.");
    assert_eq!(message(NotepadWriteWorkingHandler.failed("x")), "failed to append to notepad working memory: x");
    assert_eq!(NotepadPruneHandler.done(3).text, "Pruned 3 old working memory entries.");
    assert_eq!(message(NotepadPruneHandler.failed("y")), "failed to prune notepad: y");
}

fn write_args(name: &str, description: Option<&str>, ty: &str, keywords: Option<Vec<&str>>, content: &str, merge: bool) -> MemoryWriteArgs {
    MemoryWriteArgs {
        name: name.to_string(),
        description: description.map(|d| d.to_string()),
        memory_type: ty.to_string(),
        keywords: keywords.map(|k| k.iter().map(|s| s.to_string()).collect()),
        content: content.to_string(),
        merge,
    }
}

#[test]
fn memory_write_replaces() {
    assert_eq!(default_memory_type(), "project");
    let args = write_args("arch", None, "project", None, "New body", false);
    let (f, c) = MemoryWriteHandler.topic_to_write(&args, None, (100, 0));
    assert_eq!(f.name, "arch");
    assert_eq!(f.description, "arch");
    assert_eq!(f.memory_type, "project");
    assert!(f.keywords.is_empty());
    assert_eq!(f.source, "agent");
    assert_eq!(f.updated_at, Some((100, 0)));
    assert_eq!(c, "New body");
    assert_eq!(
        MemoryWriteHandler.written(&args, "/m/topics/arch.md").text,
        "Memory topic 'arch' written to /m/topics/arch.md"
    );
    assert_eq!(message(MemoryWriteHandler.failed("e")), "failed to write memory topic: e");
}

#[test]
fn memory_write_merges() {
    let existing = topic("Arch", "reference", "old description", &["k1"], "Old body  \n");
    let args = write_args("arch", Some(""), "project", Some(vec![]), "  added  ", true);
    let (f, c) = MemoryWriteHandler.topic_to_write(&args, Some(&existing), (7, 1));
    assert_eq!(f.name, "arch");
    assert_eq!(f.description, "old description");
    assert_eq!(f.memory_type, "reference");
    assert_eq!(f.keywords, vec!["k1".to_string()]);
    assert_eq!(f.source, "agent");
    assert_eq!(f.updated_at, Some((7, 1)));
    assert_eq!(c, "Old body\n\nadded");
    let args = write_args("", Some("new"), "user", Some(vec!["k2"]), "x", true);
    let (f, _) = MemoryWriteHandler.topic_to_write(&args, Some(&existing), (7, 1));
    assert_eq!(f.name, "Arch");
    assert_eq!(f.description, "new");
    assert_eq!(f.memory_type, "user");
    assert_eq!(f.keywords, vec!["k2".to_string()]);
    assert_eq!(
        MemoryWriteHandler.written(&args, "/p").text,
        "Memory topic '' merged into /p"
    );
    // Merging without an existing topic creates it.
    let args = write_args("n", Some("d"), "project", Some(vec!["a"]), "body", true);
    let (f, c) = MemoryWriteHandler.topic_to_write(&args, None, (1, 0));
    assert_eq!(f.description, "d");
    assert_eq!(c, "body");
}

#[test]
fn topic_lookup() {
    let topics = vec![topic("Alpha", "project", "", &[], ""), topic("beta", "project", "", &[], "")];
    assert_eq!(find_topic_ignore_ascii_case(&topics, "ALPHA"), Some(0));
    assert_eq!(find_topic_ignore_ascii_case(&topics, "gamma"), None);
    assert_eq!(find_topic_lowercase(&topics, "BETA"), Some(1));
    assert!(equal_ignore_ascii_case("aBc", "AbC"));
    assert!(!equal_ignore_ascii_case("ä", "Ä"));
}

#[test]
fn memory_add_note_to_existing_and_new() {
    let existing = topic("Arch", "reference", "d", &["k"], "Body\n\n");
    let args = MemoryAddNoteArgs { topic: "arch".to_string(), note: "remember".to_string() };
    let (f, c) = MemoryAddNoteHandler.topic_with_note(&args, Some(&existing), "2026-01-01T00:00:00+00:00", (3, 0));
    assert_eq!(f.name, "Arch");
    assert_eq!(f.memory_type, "reference");
    assert_eq!(f.source, "auto");
    assert_eq!(f.updated_at, Some((3, 0)));
    assert_eq!(c, "Body\n\n[2026-01-01T00:00:00+00:00] remember");
    let (f, c) = MemoryAddNoteHandler.topic_with_note(&args, None, "T", (3, 0));
    assert_eq!(f.name, "arch");
    assert_eq!(f.description, "Notes for arch");
    assert_eq!(f.memory_type, "project");
    assert_eq!(f.source, "agent");
    assert_eq!(c, "[T] remember");
    assert_eq!(MemoryAddNoteHandler.appended(&args, "/p").text, "Note appended to topic 'arch' at /p");
    assert_eq!(MemoryAddNoteHandler.created(&args, "/p").text, "Created new topic 'arch' with note at /p");
    assert_eq!(message(MemoryAddNoteHandler.append_failed("e")), "failed to append note to memory topic: e");
    assert_eq!(message(MemoryAddNoteHandler.create_failed("e")), "failed to create memory topic with note: e");
}

#[test]
fn memory_add_note_stamps_the_instant() {
    let args = MemoryAddNoteArgs { topic: "t".to_string(), note: "n".to_string() };
    let (_, c) = MemoryAddNoteHandler.topic_with_note_at(&args, None, (1767225600, 0)).unwrap();
    assert_eq!(c, "[2026-01-01T00:00:00+00:00] n");
    assert!(MemoryAddNoteHandler.topic_with_note_at(&args, None, (i64::MAX, 0)).is_none());
}

#[test]
fn search_lists_only_matching_topics() {
    let scored = vec![
        (0usize, topic("a", "project", "", &[], "")),
        (3usize, topic("b", "project", "", &[], "")),
        (0usize, topic("c", "project", "", &[], "")),
        (5usize, topic("d", "project", "", &[], "")),
    ];
    let ranked = MemorySearchHandler::rank(scored, 20);
    let names: Vec<&str> = ranked.iter().map(|(_, t)| t.frontmatter.name.as_str()).collect();
    assert_eq!(names, vec!["d", "b"]);
    let none = MemorySearchHandler::rank(vec![(0usize, topic("a", "project", "", &[], ""))], 5);
    assert!(none.is_empty());
    assert_eq!(MemorySearchHandler.respond(true, &none).text, "Found 0 matching topics:\n");
}

#[test]
fn note_goes_to_the_matched_topic_file() {
    let mut existing = topic("Arch", "project", "", &[], "");
    existing.path = "/m/topics/old-arch-file.md".to_string();
    let args = MemoryAddNoteArgs { topic: "arch".to_string(), note: "n".to_string() };
    assert_eq!(MemoryAddNoteHandler.note_target("/m", &args, Some(&existing)), "/m/topics/old-arch-file.md");
    assert_eq!(MemoryAddNoteHandler.note_target("/m", &args, None), "/m/topics/arch.md");
}
