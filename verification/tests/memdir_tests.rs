use codex_memory::memdir::{
    build_memory_prompt_content, default_memory_type, default_source, is_topic_file,
    memory_freshness_text, memory_index_text, order_topics, parse_topic, rank_scored,
    relevance_score, relevance_score_checked, score_topics, select_topics, split_topic, topic_file_name,
    topic_file_text, topic_names, topic_path, topics_dir, truncate_entrypoint, MemoryFrontmatter,
    MemoryTopic,
};

fn fm(name: &str, description: &str, keywords: &[&str]) -> MemoryFrontmatter {
    MemoryFrontmatter {
        name: name.to_string(),
        description: description.to_string(),
        memory_type: "project".to_string(),
        keywords: keywords.iter().map(|k| k.to_string()).collect(),
        source: "agent".to_string(),
        updated_at: None,
    }
}

fn topic(name: &str, description: &str, keywords: &[&str], content: &str, modified: u64) -> MemoryTopic {
    MemoryTopic {
        frontmatter: fm(name, description, keywords),
        content: content.to_string(),
        path: format!("/m/topics/{name}.md"),
        modified_secs: modified,
    }
}

#[test]
fn defaults_and_dirs() {
    assert_eq!(default_memory_type(), "project");
    assert_eq!(default_source(), "auto");
    assert_eq!(topics_dir("/m"), "/m/topics");
    assert!(is_topic_file("/m/topics/a.md"));
    assert!(!is_topic_file("/m/topics/a.txt"));
    assert!(!is_topic_file("/m/topics/.md"));
}

#[test]
fn memdir_topic_write_and_scan() {
    let yaml1 = "name: architecture\ndescription: System architecture decisions\ntype: project\nkeywords:\n- microservice\n- api\nsource: agent\n";
    let text1 = topic_file_text(yaml1, "Use microservice pattern for API gateway");
    let yaml2 = "name: testing\ndescription: Testing conventions and patterns\ntype: project\nkeywords:\n- pytest\n- unit-test\nsource: agent\n";
    let text2 = topic_file_text(yaml2, "Use pytest with fixtures for unit tests");

    let (_, body1) = split_topic(&text1).unwrap();
    let (_, body2) = split_topic(&text2).unwrap();
    let (f1, c1) = parse_topic(
        "/m/topics/architecture.md",
        &text1,
        Some(fm("architecture", "System architecture decisions", &["microservice", "api"])),
    );
    let (f2, c2) = parse_topic(
        "/m/topics/testing.md",
        &text2,
        Some(fm("testing", "Testing conventions and patterns", &["pytest", "unit-test"])),
    );
    assert_eq!(c1, body1);
    assert_eq!(c2, body2);
    let topics = order_topics(vec![
        MemoryTopic { frontmatter: f1, content: c1, path: "/m/topics/architecture.md".to_string(), modified_secs: 5 },
        MemoryTopic { frontmatter: f2, content: c2, path: "/m/topics/testing.md".to_string(), modified_secs: 6 },
    ]);
    assert_eq!(topics.len(), 2);

    let arch = topics.iter().find(|t| t.frontmatter.name == "architecture").unwrap();
    let test = topics.iter().find(|t| t.frontmatter.name == "testing").unwrap();
    let score_arch = relevance_score(arch, "microservice API design");
    let score_test = relevance_score(test, "microservice API design");
    assert!(
        score_arch > score_test,
        "Architecture should score higher for microservice API query ({} vs {})",
        score_arch, score_test
    );
}

#[test]
fn topic_file_reads_back() {
    let text = topic_file_text("name: a\n", "Body here");
    assert_eq!(text, "---\nname: a\n---\n\nBody here\n");
    let (yaml, body) = split_topic(&text).unwrap();
    assert_eq!(yaml, "\nname: a");
    assert_eq!(body, "Body here\n");
}

#[test]
fn split_topic_without_block() {
    assert_eq!(split_topic("plain text"), None);
    assert_eq!(split_topic("---\nname: a\nno end"), None);
    let (yaml, body) = split_topic("  \n---x\n---  \n body").unwrap();
    assert_eq!(yaml, "x");
    assert_eq!(body, "body");
}

#[test]
fn parse_topic_fallback() {
    let (f, content) = parse_topic("/m/topics/my-notes.md", "just text", None);
    assert_eq!(f.name, "my-notes");
    assert_eq!(f.description, "Memory topic: my-notes");
    assert_eq!(f.memory_type, "project");
    assert_eq!(f.source, "auto");
    assert!(f.keywords.is_empty());
    assert_eq!(f.updated_at, None);
    assert_eq!(content, "just text");
    // A block the parser rejected falls back too, keeping the whole file.
    let raw = "---\n: bad\n---\nbody";
    let (f, content) = parse_topic("/m/topics/x.md", raw, None);
    assert_eq!(f.name, "x");
    assert_eq!(content, raw);
    // No block: a parsed frontmatter is not used.
    let (f, content) = parse_topic("/m/topics/y.md", "no block", Some(fm("z", "d", &[])));
    assert_eq!(f.name, "y");
    assert_eq!(content, "no block");
}

#[test]
fn order_is_newest_first_and_stable() {
    let topics = vec![
        topic("a", "", &[], "", 1),
        topic("b", "", &[], "", 3),
        topic("c", "", &[], "", 1),
        topic("d", "", &[], "", 3),
    ];
    let ordered = order_topics(topics);
    let names: Vec<&str> = ordered.iter().map(|t| t.frontmatter.name.as_str()).collect();
    assert_eq!(names, vec!["b", "d", "a", "c"]);
}

#[test]
fn order_keeps_at_most_two_hundred() {
    let topics: Vec<MemoryTopic> = (0..205).map(|i| topic(&format!("t{i}"), "", &[], "", i as u64)).collect();
    let ordered = order_topics(topics);
    assert_eq!(ordered.len(), 200);
    assert_eq!(ordered[0].frontmatter.name, "t204");
    assert_eq!(ordered[199].frontmatter.name, "t5");
}

#[test]
fn rank_by_score() {
    let scored = vec![
        (1usize, topic("a", "", &[], "", 0)),
        (5, topic("b", "", &[], "", 0)),
        (5, topic("c", "", &[], "", 0)),
        (2, topic("d", "", &[], "", 0)),
    ];
    let ranked = rank_scored(scored, 3);
    let names: Vec<(usize, &str)> = ranked.iter().map(|(s, t)| (*s, t.frontmatter.name.as_str())).collect();
    assert_eq!(names, vec![(5, "b"), (5, "c"), (2, "d")]);
    let many: Vec<(usize, MemoryTopic)> = (0..10).map(|i| (i, topic("t", "", &[], "", 0))).collect();
    assert_eq!(select_topics(many).len(), 8);
}

#[test]
fn relevance_components() {
    let t = topic("Rust", "Language notes", &["tokio", "async"], "Use tokio everywhere", 0);
    assert_eq!(relevance_score(&t, ""), 1);
    // name contains query (10) + word "rust" in name (3) + content? no
    assert_eq!(relevance_score(&t, "rust"), 13);
    // keyword "tokio" in query (5) + related word (2) + content word (1)
    assert_eq!(relevance_score(&t, "tokio"), 8);
    // description: contains query (8) + words "language" (2) and "notes" (2)
    assert_eq!(relevance_score(&t, "LANGUAGE NOTES"), 12);
    assert_eq!(relevance_score_checked(&t, "rust"), Some(13));
    assert_eq!(relevance_score(&t, "zzz"), 0);
}

#[test]
fn entrypoint_short_index_unchanged() {
    assert_eq!(truncate_entrypoint("a\nb\n"), "a\nb");
    assert_eq!(memory_index_text(""), None);
    assert_eq!(memory_index_text("x").as_deref(), Some("x"));
}

#[test]
fn entrypoint_line_cap() {
    let raw: String = (0..205).map(|i| format!("l{i}\n")).collect();
    let out = truncate_entrypoint(&raw);
    let expected: Vec<String> = (0..200).map(|i| format!("l{i}")).collect();
    assert_eq!(out, format!("{}\n\n... (truncated)\n", expected.join("\n")));
}

#[test]
fn entrypoint_byte_cap() {
    let line = "x".repeat(99);
    let raw: String = (0..150).map(|_| format!("{line}\n")).collect();
    let out = truncate_entrypoint(&raw);
    // 150 lines of 100 bytes fit in the 25 000 byte budget: nothing is cut
    let kept: Vec<&str> = (0..150).map(|_| line.as_str()).collect();
    let joined = kept.join("\n");
    assert!(joined.len() <= 25000);
    assert_eq!(out, joined);
    let long = "y".repeat(30000);
    let out = truncate_entrypoint(&format!("head\n{long}"));
    assert_eq!(out, "head\n\n... (truncated)\n");
    let out = truncate_entrypoint(&long);
    assert_eq!(out.len(), 25000 + "\n\n... (truncated)\n".len());
}

#[test]
fn freshness_text() {
    let t = memory_freshness_text(86400 * 3 + 5, 5);
    assert_eq!(
        t,
        "<system-reminder>This memory is 3 day(s) old. Memories are point-in-time observations, not live state \u{2014} claims about code behavior may be outdated. Verify against current code before asserting as fact.</system-reminder>\n\n"
    );
    assert!(memory_freshness_text(0, 100).starts_with("<system-reminder>This memory is 0 day(s) old."));
}

#[test]
fn prompt_content_sections() {
    let topics = vec![
        (3usize, topic("arch", "d", &[], "full", 1000), "trunc".to_string()),
        (1usize, topic("old", "d", &[], "x", 10), "x".to_string()),
    ];
    let now = 10 + 2 * 86400 + 1;
    let out = build_memory_prompt_content(Some("IDX".to_string()), topics, Some("legacy".to_string()), now).unwrap();
    let fresh = memory_freshness_text(now, 10);
    let stale_arch = memory_freshness_text(now, 1000);
    assert_eq!(
        out,
        format!(
            "## Memory Index (MEMORY.md)\nIDX\n\n## Topic: arch\nType: project | Source: agent | Score: 3\n{stale_arch}trunc\n\n## Topic: old\nType: project | Source: agent | Score: 1\n{fresh}x"
        )
    );
    let recent = vec![(2usize, topic("new", "d", &[], "c", now - 5), "c".to_string())];
    let out = build_memory_prompt_content(None, recent, None, now).unwrap();
    assert_eq!(out, "## Topic: new\nType: project | Source: agent | Score: 2\nc");
    let unknown_time = vec![(2usize, topic("n", "d", &[], "c", 0), "c".to_string())];
    let out = build_memory_prompt_content(None, unknown_time, None, now).unwrap();
    assert_eq!(out, "## Topic: n\nType: project | Source: agent | Score: 2\nc");
}

#[test]
fn prompt_content_legacy_and_empty() {
    let none: Vec<(usize, MemoryTopic, String)> = Vec::new();
    assert_eq!(
        build_memory_prompt_content(None, Vec::new(), Some("old summary".to_string()), 0).as_deref(),
        Some("## Legacy Memory Summary\nold summary")
    );
    assert_eq!(build_memory_prompt_content(None, Vec::new(), Some(String::new()), 0), None);
    assert_eq!(build_memory_prompt_content(None, none, None, 0), None);
}

#[test]
fn topic_file_names() {
    assert_eq!(topic_file_name("My Topic/../x"), "my_topicx.md");
    assert_eq!(topic_file_name("Über-Notes_1"), "über-notes_1.md");
    assert_eq!(topic_path("/m", "Arch"), "/m/topics/arch.md");
}

#[test]
fn names_of_topics() {
    let topics = vec![topic("a", "", &[], "", 0), topic("b", "", &[], "", 0)];
    assert_eq!(topic_names(&topics), vec!["a".to_string(), "b".to_string()]);
}

#[test]
fn prompt_takes_the_eight_best_scored_topics() {
    let now = 1000;
    let entries: Vec<(usize, MemoryTopic, String)> = (0..10)
        .map(|i| ((i % 5) as usize, topic(&format!("t{i}"), "d", &[], "", now), format!("c{i}")))
        .collect();
    let out = build_memory_prompt_content(None, entries, None, now).unwrap();
    let names: Vec<&str> = out
        .lines()
        .filter_map(|l| l.strip_prefix("## Topic: "))
        .collect();
    // Scores 4,4,3,3,2,2,1,1 in scan order for equal scores.
    assert_eq!(names, vec!["t4", "t9", "t3", "t8", "t2", "t7", "t1", "t6"]);
}

#[test]
fn scoring_every_topic() {
    let topics = vec![
        topic("Rust", "Language notes", &["tokio"], "Use tokio", 0),
        topic("Other", "", &[], "", 0),
    ];
    let scored = score_topics(topics, "rust").unwrap();
    let pairs: Vec<(usize, &str)> = scored.iter().map(|(s, t)| (*s, t.frontmatter.name.as_str())).collect();
    assert_eq!(pairs, vec![(13, "Rust"), (0, "Other")]);
}

#[test]
fn relevance_ignores_the_case_of_an_ascii_query() {
    let t = topic("Rust", "Language notes", &["Tokio"], "Async RUST with tokio", 0);
    for q in ["rust tokio", "RUST TOKIO", "Rust Tokio", "notes"] {
        let upper = q.to_ascii_uppercase();
        let lower = q.to_ascii_lowercase();
        assert_eq!(relevance_score(&t, q), relevance_score(&t, &upper));
        assert_eq!(relevance_score(&t, q), relevance_score(&t, &lower));
    }
    assert_eq!(relevance_score(&t, "RUST"), relevance_score(&t, "rust"));
    assert_eq!(relevance_score(&t, "RUST"), 13 + 1);
}
