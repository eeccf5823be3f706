use codex_memory::tool_spec::{
    create_memory_add_note_tool, create_memory_read_tool, create_memory_search_tool,
    create_memory_write_tool, create_notepad_prune_tool, create_notepad_read_tool,
    create_notepad_write_priority_tool, create_notepad_write_working_tool, JsonSchema, ToolSpec,
};

fn parts(t: &ToolSpec) -> (&str, Vec<&str>, Option<Vec<&str>>) {
    let ToolSpec::Function(f) = t;
    assert!(!f.strict);
    assert!(f.defer_loading.is_none());
    assert!(f.output_schema.is_none());
    match &f.parameters {
        JsonSchema::Object { properties, required, additional_properties } => {
            assert_eq!(*additional_properties, Some(false));
            (
                f.name.as_str(),
                properties.iter().map(|(k, _)| k.as_str()).collect(),
                required.as_ref().map(|r| r.iter().map(|s| s.as_str()).collect()),
            )
        }
        _ => panic!("parameters should be an object"),
    }
}

#[test]
fn memory_tools_specs() {
    assert_eq!(parts(&create_memory_read_tool()), ("memory_read", vec!["query"], None));
    assert_eq!(
        parts(&create_memory_write_tool()),
        ("memory_write", vec!["content", "description", "keywords", "name", "type"], Some(vec!["name", "content"]))
    );
    assert_eq!(
        parts(&create_memory_add_note_tool()),
        ("memory_add_note", vec!["note", "topic"], Some(vec!["topic", "note"]))
    );
    assert_eq!(
        parts(&create_memory_search_tool()),
        ("memory_search", vec!["limit", "query"], Some(vec!["query"]))
    );
}

#[test]
fn notepad_tools_specs() {
    assert_eq!(parts(&create_notepad_read_tool()), ("notepad_read", vec!["section"], None));
    assert_eq!(
        parts(&create_notepad_write_priority_tool()),
        ("notepad_write_priority", vec!["content"], Some(vec!["content"]))
    );
    assert_eq!(
        parts(&create_notepad_write_working_tool()),
        ("notepad_write_working", vec!["entry"], Some(vec!["entry"]))
    );
    assert_eq!(parts(&create_notepad_prune_tool()), ("notepad_prune", vec!["max_age_days"], None));
}

#[test]
fn descriptions_and_property_kinds() {
    let ToolSpec::Function(f) = create_memory_read_tool();
    assert_eq!(
        f.description,
        "Read memories: the MEMORY.md index, relevant topic files, and notepad priority section. Optionally provide a query to prioritize the most relevant topics."
    );
    let ToolSpec::Function(f) = create_memory_write_tool();
    let JsonSchema::Object { properties, .. } = &f.parameters else { panic!() };
    match &properties[2].1 {
        JsonSchema::Array { items, description } => {
            assert_eq!(description.as_deref(), Some("Keywords for relevance scoring."));
            match items.as_ref() {
                JsonSchema::String { description } => {
                    assert_eq!(description.as_deref(), Some("Keyword for relevance scoring."))
                }
                _ => panic!("keyword items are strings"),
            }
        }
        _ => panic!("keywords is an array"),
    }
    let ToolSpec::Function(f) = create_notepad_prune_tool();
    let JsonSchema::Object { properties, .. } = &f.parameters else { panic!() };
    match &properties[0].1 {
        JsonSchema::Number { description } => assert_eq!(
            description.as_deref(),
            Some("Maximum age in days for working memory entries (default: 7).")
        ),
        _ => panic!("max_age_days is a number"),
    }
}
