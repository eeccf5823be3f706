//! Tool specifications of the memory and notepad tools offered to the model.
//!
//! A tool is described by its name, a description and a JSON schema of its
//! parameters.  Object properties are kept sorted by key, as a sorted map
//! would hold them.

use vstd::prelude::*;
use crate::text::string_views;

verus! {

broadcast use vstd::string::group_string_axioms;

/// A JSON schema of a tool parameter.
#[derive(Debug)]
pub enum JsonSchema {
    String { description: Option<String> },
    Number { description: Option<String> },
    Array { items: Box<JsonSchema>, description: Option<String> },
    /// `properties` are sorted by key, each key once.
    Object {
        properties: Vec<(String, JsonSchema)>,
        required: Option<Vec<String>>,
        additional_properties: Option<bool>,
    },
}

/// A function tool in the Responses API.
#[derive(Debug)]
pub struct ResponsesApiTool {
    pub name: String,
    pub description: String,
    pub strict: bool,
    pub defer_loading: Option<bool>,
    pub parameters: JsonSchema,
    pub output_schema: Option<JsonSchema>,
}

/// A tool offered to the model.
#[derive(Debug)]
pub enum ToolSpec {
    Function(ResponsesApiTool),
}

impl JsonSchema {
    /// A string schema.
    pub fn string(description: Option<String>) -> (r: JsonSchema)
        ensures
            r == (JsonSchema::String { description }),
    {
        JsonSchema::String { description }
    }

    /// A number schema.
    pub fn number(description: Option<String>) -> (r: JsonSchema)
        ensures
            r == (JsonSchema::Number { description }),
    {
        JsonSchema::Number { description }
    }

    /// An array schema with items described by `items`.
    pub fn array(items: JsonSchema, description: Option<String>) -> (r: JsonSchema)
        ensures
            r == (JsonSchema::Array { items: Box::new(items), description }),
    {
        JsonSchema::Array { items: Box::new(items), description }
    }

    /// An object schema.
    pub fn object(
        properties: Vec<(String, JsonSchema)>,
        required: Option<Vec<String>>,
        additional_properties: Option<bool>,
    ) -> (r: JsonSchema)
        ensures
            r == (JsonSchema::Object { properties, required, additional_properties }),
    {
        JsonSchema::Object { properties, required, additional_properties }
    }
}

/// The parameters schema of a tool.
pub open spec fn tool_parameters(t: ToolSpec) -> JsonSchema {
    match t {
        ToolSpec::Function(f) => f.parameters,
    }
}

/// A non-strict function tool with this name and description, without
/// deferred loading or output schema.
pub open spec fn is_function_tool(t: ToolSpec, name: Seq<char>, description: Seq<char>) -> bool {
    match t {
        ToolSpec::Function(f) => f.name@ == name && f.description@ == description && !f.strict
            && f.defer_loading is None && f.output_schema is None,
    }
}

/// An object schema that admits no properties beyond the listed ones.
pub open spec fn closed_object(s: JsonSchema) -> bool {
    s matches JsonSchema::Object { additional_properties: Some(false), .. }
}

/// The properties of an object schema.
pub open spec fn properties_of(s: JsonSchema) -> Seq<(String, JsonSchema)> {
    match s {
        JsonSchema::Object { properties, .. } => properties@,
        _ => seq![],
    }
}

/// The required property names of an object schema.
pub open spec fn required_of(s: JsonSchema) -> Option<Seq<Seq<char>>> {
    match s {
        JsonSchema::Object { required: Some(v), .. } => Some(string_views(v@)),
        _ => None,
    }
}

/// The description of a schema, as characters.
pub open spec fn described(d: Option<String>, text: Seq<char>) -> bool {
    d matches Some(x) && x@ == text
}

/// A string property `key` with this description.
pub open spec fn is_string_prop(p: (String, JsonSchema), key: Seq<char>, description: Seq<char>) -> bool {
    p.0@ == key && (p.1 matches JsonSchema::String { description: d } && described(d, description))
}

/// A number property `key` with this description.
pub open spec fn is_number_prop(p: (String, JsonSchema), key: Seq<char>, description: Seq<char>) -> bool {
    p.0@ == key && (p.1 matches JsonSchema::Number { description: d } && described(d, description))
}

/// An array property `key` of described strings, with this description.
pub open spec fn is_array_prop(
    p: (String, JsonSchema),
    key: Seq<char>,
    item_description: Seq<char>,
    description: Seq<char>,
) -> bool {
    &&& p.0@ == key
    &&& p.1 matches JsonSchema::Array { items, description: d } && described(d, description)
        && (*items matches JsonSchema::String { description: e } && described(e, item_description))
}

fn function_tool(name: &str, description: &str, parameters: JsonSchema) -> (r: ToolSpec)
    ensures
        is_function_tool(r, name@, description@),
        tool_parameters(r) == parameters,
{
    ToolSpec::Function(
        ResponsesApiTool {
            name: name.to_string(),
            description: description.to_string(),
            strict: false,
            defer_loading: None,
            parameters,
            output_schema: None,
        },
    )
}

/// The `memory_read` tool: 1 parameter (`query`), none required.
pub fn create_memory_read_tool() -> (r: ToolSpec)
    ensures
        is_function_tool(r, "memory_read"@, "Read memories: the MEMORY.md index, relevant topic files, and notepad priority section. Optionally provide a query to prioritize the most relevant topics."@),
        closed_object(tool_parameters(r)),
        properties_of(tool_parameters(r)).len() == 1,
        is_string_prop(properties_of(tool_parameters(r))[0], "query"@, "Optional search query for relevance scoring of memory topics."@),
        required_of(tool_parameters(r)) is None,
{
    let mut properties: Vec<(String, JsonSchema)> = Vec::new();
    properties.push(("query".to_string(), JsonSchema::string(Some("Optional search query for relevance scoring of memory topics.".to_string()))));
    function_tool("memory_read", "Read memories: the MEMORY.md index, relevant topic files, and notepad priority section. Optionally provide a query to prioritize the most relevant topics.", JsonSchema::object(properties, None, Some(false)))
}

/// The `memory_write` tool: 5 parameters (`content`, `description`, `keywords`, `name`, `type`), required: `name`, `content`.
pub fn create_memory_write_tool() -> (r: ToolSpec)
    ensures
        is_function_tool(r, "memory_write"@, "Write or update a memory topic file. Creates a new topic or overwrites an existing one with the same name."@),
        closed_object(tool_parameters(r)),
        properties_of(tool_parameters(r)).len() == 5,
        is_string_prop(properties_of(tool_parameters(r))[0], "content"@, "Topic content in markdown."@),
        is_string_prop(properties_of(tool_parameters(r))[1], "description"@, "Short description for relevance scoring."@),
        is_array_prop(properties_of(tool_parameters(r))[2], "keywords"@, "Keyword for relevance scoring."@, "Keywords for relevance scoring."@),
        is_string_prop(properties_of(tool_parameters(r))[3], "name"@, "Topic name (used as the filename, e.g. 'architecture')."@),
        is_string_prop(properties_of(tool_parameters(r))[4], "type"@, "Topic type: user, feedback, project, or reference. Default: project."@),
        required_of(tool_parameters(r)) == Some(seq!["name"@, "content"@]),
{
    let mut properties: Vec<(String, JsonSchema)> = Vec::new();
    properties.push(("content".to_string(), JsonSchema::string(Some("Topic content in markdown.".to_string()))));
    properties.push(("description".to_string(), JsonSchema::string(Some("Short description for relevance scoring.".to_string()))));
    properties.push(("keywords".to_string(), JsonSchema::array(JsonSchema::string(Some("Keyword for relevance scoring.".to_string())), Some("Keywords for relevance scoring.".to_string()))));
    properties.push(("name".to_string(), JsonSchema::string(Some("Topic name (used as the filename, e.g. 'architecture').".to_string()))));
    properties.push(("type".to_string(), JsonSchema::string(Some("Topic type: user, feedback, project, or reference. Default: project.".to_string()))));
    let mut required: Vec<String> = Vec::new();
    required.push("name".to_string());
    required.push("content".to_string());
    function_tool("memory_write", "Write or update a memory topic file. Creates a new topic or overwrites an existing one with the same name.", JsonSchema::object(properties, Some(required), Some(false)))
}

/// The `memory_add_note` tool: 2 parameters (`note`, `topic`), required: `topic`, `note`.
pub fn create_memory_add_note_tool() -> (r: ToolSpec)
    ensures
        is_function_tool(r, "memory_add_note"@, "Append a timestamped note to an existing memory topic. Creates the topic if it doesn't exist."@),
        closed_object(tool_parameters(r)),
        properties_of(tool_parameters(r)).len() == 2,
        is_string_prop(properties_of(tool_parameters(r))[0], "note"@, "Note content to append (timestamped automatically)."@),
        is_string_prop(properties_of(tool_parameters(r))[1], "topic"@, "Topic name to append the note to. Creates the topic if it doesn't exist."@),
        required_of(tool_parameters(r)) == Some(seq!["topic"@, "note"@]),
{
    let mut properties: Vec<(String, JsonSchema)> = Vec::new();
    properties.push(("note".to_string(), JsonSchema::string(Some("Note content to append (timestamped automatically).".to_string()))));
    properties.push(("topic".to_string(), JsonSchema::string(Some("Topic name to append the note to. Creates the topic if it doesn't exist.".to_string()))));
    let mut required: Vec<String> = Vec::new();
    required.push("topic".to_string());
    required.push("note".to_string());
    function_tool("memory_add_note", "Append a timestamped note to an existing memory topic. Creates the topic if it doesn't exist.", JsonSchema::object(properties, Some(required), Some(false)))
}

/// The `memory_search` tool: 2 parameters (`limit`, `query`), required: `query`.
pub fn create_memory_search_tool() -> (r: ToolSpec)
    ensures
        is_function_tool(r, "memory_search"@, "Search memory topics by query. Returns matching topic names, types, and descriptions ranked by relevance."@),
        closed_object(tool_parameters(r)),
        properties_of(tool_parameters(r)).len() == 2,
        is_number_prop(properties_of(tool_parameters(r))[0], "limit"@, "Maximum number of results to return (default: 5, max: 20)."@),
        is_string_prop(properties_of(tool_parameters(r))[1], "query"@, "Search query for finding relevant memory topics."@),
        required_of(tool_parameters(r)) == Some(seq!["query"@]),
{
    let mut properties: Vec<(String, JsonSchema)> = Vec::new();
    properties.push(("limit".to_string(), JsonSchema::number(Some("Maximum number of results to return (default: 5, max: 20).".to_string()))));
    properties.push(("query".to_string(), JsonSchema::string(Some("Search query for finding relevant memory topics.".to_string()))));
    let mut required: Vec<String> = Vec::new();
    required.push("query".to_string());
    function_tool("memory_search", "Search memory topics by query. Returns matching topic names, types, and descriptions ranked by relevance.", JsonSchema::object(properties, Some(required), Some(false)))
}

/// The `notepad_read` tool: 1 parameter (`section`), none required.
pub fn create_notepad_read_tool() -> (r: ToolSpec)
    ensures
        is_function_tool(r, "notepad_read"@, "Read the notepad. The notepad has three sections: PRIORITY (current highest-priority context), WORKING MEMORY (timestamped session notes), and MANUAL (permanent notes)."@),
        closed_object(tool_parameters(r)),
        properties_of(tool_parameters(r)).len() == 1,
        is_string_prop(properties_of(tool_parameters(r))[0], "section"@, "Optional section filter: 'priority', 'working', or 'manual'. Returns all sections if omitted."@),
        required_of(tool_parameters(r)) is None,
{
    let mut properties: Vec<(String, JsonSchema)> = Vec::new();
    properties.push(("section".to_string(), JsonSchema::string(Some("Optional section filter: 'priority', 'working', or 'manual'. Returns all sections if omitted.".to_string()))));
    function_tool("notepad_read", "Read the notepad. The notepad has three sections: PRIORITY (current highest-priority context), WORKING MEMORY (timestamped session notes), and MANUAL (permanent notes).", JsonSchema::object(properties, None, Some(false)))
}

/// The `notepad_write_priority` tool: 1 parameter (`content`), required: `content`.
pub fn create_notepad_write_priority_tool() -> (r: ToolSpec)
    ensures
        is_function_tool(r, "notepad_write_priority"@, "Set the notepad PRIORITY section. Replaces any existing priority content. Use this for the current highest-priority context that should be front of mind."@),
        closed_object(tool_parameters(r)),
        properties_of(tool_parameters(r)).len() == 1,
        is_string_prop(properties_of(tool_parameters(r))[0], "content"@, "Priority content to set (max 500 chars, will be truncated)."@),
        required_of(tool_parameters(r)) == Some(seq!["content"@]),
{
    let mut properties: Vec<(String, JsonSchema)> = Vec::new();
    properties.push(("content".to_string(), JsonSchema::string(Some("Priority content to set (max 500 chars, will be truncated).".to_string()))));
    let mut required: Vec<String> = Vec::new();
    required.push("content".to_string());
    function_tool("notepad_write_priority", "Set the notepad PRIORITY section. Replaces any existing priority content. Use this for the current highest-priority context that should be front of mind.", JsonSchema::object(properties, Some(required), Some(false)))
}

/// The `notepad_write_working` tool: 1 parameter (`entry`), required: `entry`.
pub fn create_notepad_write_working_tool() -> (r: ToolSpec)
    ensures
        is_function_tool(r, "notepad_write_working"@, "Append a timestamped entry to the notepad WORKING MEMORY section. Use this for in-progress observations, decisions, and checkpoints."@),
        closed_object(tool_parameters(r)),
        properties_of(tool_parameters(r)).len() == 1,
        is_string_prop(properties_of(tool_parameters(r))[0], "entry"@, "Working memory entry to add (timestamped automatically)."@),
        required_of(tool_parameters(r)) == Some(seq!["entry"@]),
{
    let mut properties: Vec<(String, JsonSchema)> = Vec::new();
    properties.push(("entry".to_string(), JsonSchema::string(Some("Working memory entry to add (timestamped automatically).".to_string()))));
    let mut required: Vec<String> = Vec::new();
    required.push("entry".to_string());
    function_tool("notepad_write_working", "Append a timestamped entry to the notepad WORKING MEMORY section. Use this for in-progress observations, decisions, and checkpoints.", JsonSchema::object(properties, Some(required), Some(false)))
}

/// The `notepad_prune` tool: 1 parameter (`max_age_days`), none required.
pub fn create_notepad_prune_tool() -> (r: ToolSpec)
    ensures
        is_function_tool(r, "notepad_prune"@, "Prune old entries from the notepad WORKING MEMORY section. Entries older than max_age_days are removed. MANUAL and PRIORITY sections are never pruned."@),
        closed_object(tool_parameters(r)),
        properties_of(tool_parameters(r)).len() == 1,
        is_number_prop(properties_of(tool_parameters(r))[0], "max_age_days"@, "Maximum age in days for working memory entries (default: 7)."@),
        required_of(tool_parameters(r)) is None,
{
    let mut properties: Vec<(String, JsonSchema)> = Vec::new();
    properties.push(("max_age_days".to_string(), JsonSchema::number(Some("Maximum age in days for working memory entries (default: 7).".to_string()))));
    function_tool("notepad_prune", "Prune old entries from the notepad WORKING MEMORY section. Entries older than max_age_days are removed. MANUAL and PRIORITY sections are never pruned.", JsonSchema::object(properties, None, Some(false)))
}

} // verus!
