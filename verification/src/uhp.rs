//! Universal Hook Protocol v1: one request in, one response out.
//!
//! The payload of a request is held as the members of a JSON object; a member whose value
//! is a JSON string keeps the string, any other value keeps its JSON text.
use vstd::prelude::*;

verus! {

/// What the agent should do with the tool call.
#[derive(Debug, Clone, Copy, PartialEq, Eq, Structural)]
pub enum HookAction {
    /// Pass through unchanged.
    Allow,
    /// Replace `payload` with the response's payload.
    Rewrite,
    /// Refuse the operation.
    Deny,
    /// Rewrite, but ask the user to confirm before running.
    Ask,
}

/// The value of a member of a JSON object.
#[derive(Debug)]
pub enum JsonField {
    /// A JSON string, unescaped.
    Str(String),
    /// Any other JSON value, as JSON text.
    Other(String),
}

/// A member of a JSON object.
#[derive(Debug)]
pub struct JsonMember {
    pub key: String,
    pub value: JsonField,
}

/// A JSON value: an object with its members in order, or any other value as JSON text.
#[derive(Debug)]
pub enum JsonValue {
    Object(Vec<JsonMember>),
    Other(String),
}

pub enum FieldV {
    Str(Seq<char>),
    Other(Seq<char>),
}

pub enum ValueV {
    Object(Seq<(Seq<char>, FieldV)>),
    Other(Seq<char>),
}

impl View for JsonField {
    type V = FieldV;

    open spec fn view(&self) -> FieldV {
        match self {
            JsonField::Str(s) => FieldV::Str(s@),
            JsonField::Other(s) => FieldV::Other(s@),
        }
    }
}

impl View for JsonMember {
    type V = (Seq<char>, FieldV);

    open spec fn view(&self) -> (Seq<char>, FieldV) {
        (self.key@, self.value@)
    }
}

impl View for JsonValue {
    type V = ValueV;

    open spec fn view(&self) -> ValueV {
        match self {
            JsonValue::Object(ms) => ValueV::Object(ms@.map_values(|m: JsonMember| m@)),
            JsonValue::Other(s) => ValueV::Other(s@),
        }
    }
}

/// A hook request.
#[derive(Debug)]
pub struct HookRequest {
    /// Protocol version. Always 1 for now.
    pub v: u32,
    /// Event name, e.g. "tool.before", "tool.after", "file.read".
    pub event: String,
    /// Originating agent, e.g. "codex-cli" or "cursor".
    pub agent: String,
    /// Tool name being invoked: "bash", "shell", "read_file", "fetch", ...
    pub tool: String,
    /// Tool-specific payload. Common keys: `command`, `path`, `url`, `args`.
    pub payload: JsonValue,
    /// Free-form metadata: repo path, model id, session id.
    pub meta: JsonValue,
}

/// A hook response.
#[derive(Debug)]
pub struct HookResponse {
    pub action: HookAction,
    pub payload: Option<JsonValue>,
    pub reason: Option<String>,
}

} // verus!
