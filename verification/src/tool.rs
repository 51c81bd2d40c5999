//! What a tool is to the agent loop: its kind, the arguments it is given and the result it hands
//! back.
use crate::json::{
    entry_views, json_in, json_text, object_of, parse_json, Json, JsonView, ObjectBuilder,
};
use crate::text::{blank, cat2, is_blank, outcome, take_chars, taken};
use crate::types::{AgentToolDefinition, DefinitionView};
use vstd::prelude::*;

verus! {

/// What a tool can do.
#[derive(Debug, Clone, Copy, PartialEq, Eq, Structural)]
pub enum AgentToolKind {
    Read,
    Interact,
    Edit,
    Shell,
}

/// A change that a native tool made to a file; `before` is nothing for a file that did not exist.
#[derive(Debug, PartialEq, Eq)]
pub struct FileChange {
    pub path: String,
    pub before: Option<String>,
    pub after: String,
}

impl Clone for FileChange {
    fn clone(&self) -> (r: Self)
        ensures
            r == *self,
    {
        FileChange {
            path: self.path.clone(),
            before: match &self.before {
                Some(text) => Some(text.clone()),
                None => None,
            },
            after: self.after.clone(),
        }
    }
}

/// What is known of a run of a tool besides its text.
#[derive(Debug, Clone, PartialEq, Eq)]
pub struct ToolResultMetadata {
    pub exit_code: Option<i32>,
    pub truncated: bool,
    pub affected_paths: Vec<String>,
    pub stdout: Option<String>,
    pub stderr: Option<String>,
    pub file_changes: Vec<FileChange>,
}

impl ToolResultMetadata {
    /// Nothing is known.
    pub open spec fn is_default(&self) -> bool {
        &&& self.exit_code is None
        &&& !self.truncated
        &&& self.affected_paths@.len() == 0
        &&& self.stdout is None
        &&& self.stderr is None
        &&& self.file_changes@.len() == 0
    }
}

impl Default for ToolResultMetadata {
    fn default() -> (r: Self)
        ensures
            r.is_default(),
    {
        ToolResultMetadata {
            exit_code: None,
            truncated: false,
            affected_paths: Vec::new(),
            stdout: None,
            stderr: None,
            file_changes: Vec::new(),
        }
    }
}

/// What a run of a tool hands back to the model.
#[derive(Debug, Clone, PartialEq, Eq)]
pub struct ToolResult {
    pub result: String,
    pub is_error: bool,
    pub metadata: ToolResultMetadata,
}

impl ToolResult {
    /// A result without metadata.
    pub fn ok(value: String) -> (r: Self)
        ensures
            r.result == value,
            !r.is_error,
            r.metadata.is_default(),
    {
        ToolResult { result: value, is_error: false, metadata: ToolResultMetadata::default() }
    }

    /// An error without metadata.
    pub fn error(value: String) -> (r: Self)
        ensures
            r.result == value,
            r.is_error,
            r.metadata.is_default(),
    {
        ToolResult { result: value, is_error: true, metadata: ToolResultMetadata::default() }
    }
}

/// How a call that needs permission is shown to the user, and the key under which an answer is
/// remembered.
#[derive(Debug, Clone, PartialEq, Eq)]
pub struct ToolPermissionDescription {
    pub summary: String,
    pub preview: Option<String>,
    pub persistence_key: String,
    pub warning: Option<String>,
}

/// The arguments that the text of a call stands for, where `parsed` is the text read as JSON: no
/// text stands for an empty object, and text that is not JSON is refused.
pub open spec fn tool_args(raw: Seq<char>, parsed: Option<JsonView>) -> Result<
    JsonView,
    Seq<char>,
> {
    if blank(raw) {
        Ok(JsonView::Object(Map::empty()))
    } else {
        match parsed {
            Some(value) => Ok(value),
            None => Err("Tool arguments were not valid JSON: "@ + taken(raw, 200)),
        }
    }
}

/// [`tool_args`] of a text and of what it holds as JSON.
pub fn tool_args_of(raw: &str, parsed: Option<Json>) -> (r: Result<Json, String>)
    ensures
        outcome(r) == tool_args(raw@, parsed.deep_view()),
{
    if is_blank(raw) {
        let empty: Vec<(String, Json)> = Vec::new();
        proof {
            let views = entry_views(empty@);
            assert(views.len() == 0);
            assert(object_of(views) =~= Map::empty());
        }
        return Ok(Json::Object(empty));
    }
    match parsed {
        Some(value) => Ok(value),
        None => Err(cat2("Tool arguments were not valid JSON: ", take_chars(raw, 200).as_str())),
    }
}

/// The arguments that the text of a call stands for.
pub fn parse_tool_args(raw: &str) -> (r: Result<Json, String>)
    ensures
        outcome(r) == tool_args(raw@, json_in(raw@)),
{
    tool_args_of(raw, parse_json(raw))
}

/// The JSON of an error with a code and a message.
pub open spec fn error_json(code: Seq<char>, message: Seq<char>) -> JsonView {
    JsonView::Object(
        Map::empty().insert(
            "error"@,
            JsonView::Object(
                Map::empty().insert("code"@, JsonView::Text(code)).insert(
                    "message"@,
                    JsonView::Text(message),
                ),
            ),
        ),
    )
}

/// The text of an error with a code and a message.
pub fn error_text(code: &str, message: &str) -> (r: String)
    ensures
        r@ == json_text(error_json(code@, message@)),
{
    let mut inner = ObjectBuilder::new();
    inner.put_text("code", code);
    inner.put_text("message", message);
    let mut outer = ObjectBuilder::new();
    outer.put("error", inner.finish());
    outer.finish().to_text()
}

/// An error that the model can tell apart by its code.
pub fn structured_error(code: &str, message: &str) -> (r: ToolResult)
    ensures
        r.result@ == json_text(error_json(code@, message@)),
        r.is_error,
        r.metadata.is_default(),
{
    ToolResult::error(error_text(code, message))
}

/// The definition of a tool by the schema of its parameters.
pub fn define(name: &str, description: &str, parameters: Json) -> (r: AgentToolDefinition)
    ensures
        r@ == (DefinitionView {
            name: name@,
            description: description@,
            parameters: parameters@,
        }),
{
    AgentToolDefinition {
        name: name.to_owned(),
        description: description.to_owned(),
        parameters,
    }
}

} // verus!
