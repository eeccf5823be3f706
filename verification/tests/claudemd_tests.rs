use codex_memory::claudemd::{
    build_memory_prompt, load_memory_file, memory_file_plan, memory_file_too_large,
    parse_frontmatter, FileTime, MemoryCache, MemoryFileInfo, MemoryFrontmatter, MemoryScope,
};
use codex_memory::includes::{expand_includes, IncludeSnapshot, IncludeStop};
use codex_memory::paths::path_key_of;

#[test]
fn parse_frontmatter_basic() {
    let input = "---\nmemory_type: project\npriority: 10\n---\nBody content";
    let (fm, body) = parse_frontmatter(input);
    assert_eq!(fm.memory_type.as_deref(), Some("project"));
    assert_eq!(fm.priority, Some(10));
    assert!(body.starts_with("Body content"));
}

#[test]
fn parse_frontmatter_none() {
    let input = "No frontmatter here";
    let (fm, body) = parse_frontmatter(input);
    assert!(fm.memory_type.is_none());
    assert_eq!(body, input);
}

#[test]
fn claudemd_frontmatter_parsing() {
    let input = "---\nmemory_type: project\npriority: 10\n---\nBody content";
    let (fm, body) = parse_frontmatter(input);
    assert_eq!(fm.memory_type.as_deref(), Some("project"));
    assert_eq!(fm.priority, Some(10));
    assert!(body.starts_with("Body content"));
}

#[test]
fn frontmatter_scope_and_bad_priority() {
    let (fm, body) = parse_frontmatter("---\nscope: local\npriority: high\n---\nrest");
    assert_eq!(fm.scope.as_deref(), Some("local"));
    assert_eq!(fm.priority, None);
    assert_eq!(body, "rest");
    let (fm, body) = parse_frontmatter("---\nunterminated");
    assert!(fm.scope.is_none());
    assert_eq!(body, "---\nunterminated");
}

#[test]
fn expand_includes_no_directives() {
    let mut visited: Vec<String> = Vec::new();
    let snap = IncludeSnapshot::new();
    let result = expand_includes("Hello\nWorld", ".", &mut visited, 0, &snap, "/home/u").unwrap();
    assert_eq!(result, "Hello\nWorld\n");
}

#[test]
fn expand_includes_circular() {
    let mut visited: Vec<String> = vec!["/d/a.md".to_string()];
    let mut snap = IncludeSnapshot::new();
    snap.canonical.push(("/d/b.md".to_string(), "/d/b.md".to_string()));
    snap.canonical.push(("/d/a.md".to_string(), "/d/a.md".to_string()));
    snap.contents.push(("/d/b.md".to_string(), Some("@include a.md\nContent B".to_string())));
    let result = expand_includes("@include b.md\nContent A", "/d", &mut visited, 0, &snap, "/home/u").unwrap();
    assert!(result.contains("circular @include b.md skipped") || result.contains("Content B"));
    assert!(result.contains("circular @include a.md skipped"));
}

#[test]
fn expand_includes_asks_for_what_it_needs() {
    let mut visited: Vec<String> = Vec::new();
    let mut snap = IncludeSnapshot::new();
    let r = expand_includes("x\n@include extra.md\ny", "/p", &mut visited, 0, &snap, "/h");
    assert_eq!(r, Err(IncludeStop::NeedCanonical("/p/extra.md".to_string())));
    snap.canonical.push(("/p/extra.md".to_string(), "/p/extra.md".to_string()));
    let mut visited: Vec<String> = Vec::new();
    let r = expand_includes("x\n@include extra.md\ny", "/p", &mut visited, 0, &snap, "/h");
    assert_eq!(r, Err(IncludeStop::NeedContent("/p/extra.md".to_string())));
    snap.contents.push(("/p/extra.md".to_string(), Some("Included content here".to_string())));
    let mut visited: Vec<String> = Vec::new();
    let r = expand_includes("x\n@include extra.md\ny", "/p", &mut visited, 0, &snap, "/h").unwrap();
    assert_eq!(r, "x\nIncluded content here\n\ny\n");
}

#[test]
fn expand_includes_missing_and_home() {
    let mut snap = IncludeSnapshot::new();
    snap.canonical.push(("/h/notes.md".to_string(), "/h/notes.md".to_string()));
    snap.contents.push(("/h/notes.md".to_string(), None));
    let mut visited: Vec<String> = Vec::new();
    let r = expand_includes("@include ~/notes.md", "/p", &mut visited, 0, &snap, "/h").unwrap();
    assert_eq!(r, "<!-- @include ~/notes.md not found -->\n");
}

#[test]
fn expand_includes_home_itself() {
    // `~` alone names the home directory, which is no readable file.
    let mut snap = IncludeSnapshot::new();
    let mut visited: Vec<String> = Vec::new();
    let r = expand_includes("@include ~", "/p", &mut visited, 0, &snap, "/h");
    assert_eq!(r, Err(IncludeStop::NeedCanonical("/h".to_string())));
    snap.canonical.push(("/h".to_string(), "/h".to_string()));
    snap.contents.push(("/h".to_string(), None));
    let mut visited: Vec<String> = Vec::new();
    let r = expand_includes("@include ~", "/p", &mut visited, 0, &snap, "/h").unwrap();
    assert_eq!(r, "<!-- @include ~ not found -->\n");
    // Only a `/` after `~` is dropped.
    let mut visited: Vec<String> = Vec::new();
    let r = expand_includes("@include ~é/x", "/p", &mut visited, 0, &snap, "/h");
    assert_eq!(r, Err(IncludeStop::NeedCanonical("/h/é/x".to_string())));
    let mut visited: Vec<String> = Vec::new();
    let r = expand_includes("@include ~notes.md", "/p", &mut visited, 0, &snap, "/h");
    assert_eq!(r, Err(IncludeStop::NeedCanonical("/h/notes.md".to_string())));
}

#[test]
fn expand_includes_too_large() {
    let big = "a".repeat(40961);
    let mut snap = IncludeSnapshot::new();
    snap.canonical.push(("/p/big.md".to_string(), "/p/big.md".to_string()));
    snap.contents.push(("/p/big.md".to_string(), Some(big)));
    let mut visited: Vec<String> = Vec::new();
    let r = expand_includes("@include big.md", "/p", &mut visited, 0, &snap, "/h").unwrap();
    assert_eq!(r, "<!-- @include big.md exceeds 40KB limit -->\n");
}

#[test]
fn expand_includes_depth_limit() {
    let mut visited: Vec<String> = Vec::new();
    let snap = IncludeSnapshot::new();
    let r = expand_includes("@include a.md", "/p", &mut visited, 10, &snap, "/h").unwrap();
    assert_eq!(r, "@include a.md");
}

#[test]
fn load_all_memory_files_priority_order() {
    let names = vec!["02_b.md".to_string(), "notes.txt".to_string(), "01_policy.md".to_string()];
    let plan = memory_file_plan("/work/project", "/home/u/.codex", &names, "LEGACY.md");
    let paths: Vec<&str> = plan.iter().map(|(p, _)| p.as_str()).collect();
    assert_eq!(
        paths,
        vec![
            "/home/u/.codex/rules/01_policy.md",
            "/home/u/.codex/rules/02_b.md",
            "/home/u/.codex/AGENTS.md",
            "/home/u/.codex/LEGACY.md",
            "/work/project/AGENTS.md",
            "/work/project/LEGACY.md",
            "/work/project/.codex/AGENTS.md",
            "/work/project/.codex/LEGACY.md",
        ]
    );
    let scopes: Vec<MemoryScope> = plan.iter().map(|(_, s)| *s).collect();
    assert_eq!(
        scopes,
        vec![
            MemoryScope::Managed,
            MemoryScope::Managed,
            MemoryScope::User,
            MemoryScope::User,
            MemoryScope::Project,
            MemoryScope::Project,
            MemoryScope::Local,
            MemoryScope::Local,
        ]
    );
}

fn info(content: &str, scope: MemoryScope) -> MemoryFileInfo {
    MemoryFileInfo {
        path: "/x".to_string(),
        scope,
        content: content.to_string(),
        frontmatter: MemoryFrontmatter::empty(),
        mtime: None,
    }
}

#[test]
fn claudemd_build_prompt_skips_blank_files() {
    let files = vec![
        info("  Managed: policy A\n", MemoryScope::Managed),
        info("   \n", MemoryScope::User),
        info("Project: project instructions", MemoryScope::Project),
    ];
    assert_eq!(
        build_memory_prompt(&files),
        "Managed: policy A\n\nProject: project instructions"
    );
    assert_eq!(build_memory_prompt(&Vec::new()), "");
}

#[test]
fn claudemd_include_expansion() {
    let mut snap = IncludeSnapshot::new();
    snap.canonical.push(("/p/extra.md".to_string(), "/p/extra.md".to_string()));
    snap.contents.push(("/p/extra.md".to_string(), Some("Included content here".to_string())));
    let f = load_memory_file(
        "/p/AGENTS.md",
        MemoryScope::Project,
        "Main content\n@include extra.md\nAfter include",
        "/p/AGENTS.md",
        Some(FileTime { secs: 5, nanos: 0 }),
        &snap,
        "/h",
    )
    .unwrap();
    assert!(f.content.contains("Main content"));
    assert!(f.content.contains("Included content here"));
    assert!(f.content.contains("After include"));
    assert_eq!(f.scope, MemoryScope::Project);
    assert_eq!(f.mtime, Some(FileTime { secs: 5, nanos: 0 }));
}

#[test]
fn claudemd_circular_include_skipped() {
    let mut snap = IncludeSnapshot::new();
    snap.canonical.push(("/p/a.md".to_string(), "/p/a.md".to_string()));
    snap.canonical.push(("/p/b.md".to_string(), "/p/b.md".to_string()));
    snap.contents.push(("/p/a.md".to_string(), Some("@include b.md\nContent A".to_string())));
    snap.contents.push(("/p/b.md".to_string(), Some("@include a.md\nContent B".to_string())));
    let f = load_memory_file("/p/AGENTS.md", MemoryScope::Project, "@include a.md", "/p/AGENTS.md", None, &snap, "/h").unwrap();
    assert!(f.content.contains("Content A"));
    assert!(f.content.contains("Content B") || f.content.contains("circular @include"));
}

#[test]
fn memory_file_size_limit() {
    assert!(!memory_file_too_large(40960));
    assert!(memory_file_too_large(40961));
}

#[test]
fn scope_labels() {
    assert_eq!(MemoryScope::Managed.label(), "managed");
    assert_eq!(MemoryScope::User.label(), "user");
    assert_eq!(MemoryScope::Project.label(), "project");
    assert_eq!(MemoryScope::Local.label(), "local");
}

#[test]
fn cache_hits_only_on_same_mtime() {
    let mut cache = MemoryCache::new();
    let t = FileTime { secs: 10, nanos: 1 };
    assert_eq!(cache.get("/a", Some(t)), None);
    cache.insert("/a".to_string(), "A".to_string(), Some(t));
    assert_eq!(cache.get("/a", Some(t)), Some("A"));
    assert_eq!(cache.get("/a", Some(FileTime { secs: 10, nanos: 2 })), None);
    assert_eq!(cache.get("/a", None), None);
    assert_eq!(cache.get("/b", Some(t)), None);
    cache.insert("/a".to_string(), "A2".to_string(), Some(FileTime { secs: 11, nanos: 0 }));
    assert_eq!(cache.get("/a", Some(FileTime { secs: 11, nanos: 0 })), Some("A2"));
    cache.insert("/b".to_string(), "B".to_string(), None);
    assert_eq!(cache.get("/b", Some(t)), None);
}

#[test]
fn cache_keys_compare_paths_by_components() {
    let mut cache = MemoryCache::new();
    let t = FileTime { secs: 5, nanos: 0 };
    cache.insert("/a/b".to_string(), "AB".to_string(), Some(t));
    assert_eq!(cache.get("/a//b", Some(t)), Some("AB"));
    assert_eq!(cache.get("/a/b/", Some(t)), Some("AB"));
    assert_eq!(cache.get("/a/./b", Some(t)), Some("AB"));
    assert_eq!(cache.get("a/b", Some(t)), None);
    cache.insert("./x".to_string(), "X".to_string(), Some(t));
    assert_eq!(cache.get("x", Some(t)), None);
    assert_eq!(cache.get("./x/", Some(t)), Some("X"));
}

#[test]
fn path_keys() {
    assert_eq!(path_key_of("/a//b/"), "/a/b");
    assert_eq!(path_key_of("/a/./b"), "/a/b");
    assert_eq!(path_key_of("./a"), "./a");
    assert_eq!(path_key_of("a/"), "a");
    assert_eq!(path_key_of("/"), "/");
    assert_eq!(path_key_of("."), ".");
    assert_eq!(path_key_of(""), "");
    assert_eq!(path_key_of("a/../b"), "a/../b");
}
