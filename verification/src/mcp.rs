//! Dispatch of the MCP server's tool calls.
use vstd::prelude::*;

use crate::filter::{is_lowercase_word, level_named, lowercase, CompressionLevel};

verus! {

/// The arguments of a tool call, as far as the tools read them.
pub struct ToolArgs {
    pub text: Option<String>,
    pub command: Option<String>,
    pub level: Option<String>,
    pub path: Option<String>,
    pub max_lines: Option<usize>,
    pub a: Option<String>,
    pub b: Option<String>,
}

/// What a tool call asks for.
pub enum ToolCall {
    /// Compress `text`, with an optional command hint.
    Compress { text: String, command: Option<String>, level: CompressionLevel },
    /// The savings summary.
    Gain,
    /// Read a file with filtering.
    Read { path: String, level: CompressionLevel, max_lines: Option<usize> },
    /// The line diff of two strings.
    Diff { a: String, b: String },
    /// A tool the server does not have.
    Unknown { message: String },
}

/// The level a tool asks for: its `level` argument (default `minimal`) in any case; an
/// unknown name falls back to the default level.
pub open spec fn tool_level(level: Option<Seq<char>>) -> CompressionLevel {
    match level {
        Some(l) => match level_named(lowercase(l)) {
            Some(x) => x,
            None => CompressionLevel::Minimal,
        },
        None => CompressionLevel::Minimal,
    }
}

fn level_arg(level: Option<String>) -> (r: CompressionLevel)
    ensures
        r == tool_level(
            match level {
                Some(l) => Some(l@),
                None => None,
            },
        ),
{
    match level {
        Some(l) => CompressionLevel::from_name_or_default(l.as_str()),
        None => CompressionLevel::Minimal,
    }
}

fn text_arg(s: Option<String>) -> (r: String)
    ensures
        r@ == (match s {
            Some(t) => t@,
            None => Seq::<char>::empty(),
        }),
{
    match s {
        Some(t) => t,
        None => String::new(),
    }
}

/// Decides what a call of the named tool does; a missing string argument counts as empty.
pub fn plan_tool_call(name: &str, args: ToolArgs) -> (r: ToolCall)
    ensures
        name@ == "compress"@ ==> (r matches ToolCall::Compress { text, command, level } && text@
            == (match args.text {
            Some(t) => t@,
            None => Seq::<char>::empty(),
        }) && command == args.command && level == tool_level(
            match args.level {
                Some(l) => Some(l@),
                None => None,
            },
        )),
        name@ == "gain"@ ==> r is Gain,
        (r is Unknown) == !is_known_tool(name@),
        name@ == "lens.read"@ ==> (r matches ToolCall::Read { path, level, max_lines } && path@
            == (match args.path {
            Some(p) => p@,
            None => Seq::<char>::empty(),
        }) && max_lines == args.max_lines && level == tool_level(
            match args.level {
                Some(l) => Some(l@),
                None => None,
            },
        )),
        name@ == "lens.diff"@ ==> (r matches ToolCall::Diff { a, b } && a@ == (match args.a {
            Some(t) => t@,
            None => Seq::<char>::empty(),
        }) && b@ == (match args.b {
            Some(t) => t@,
            None => Seq::<char>::empty(),
        })),
        name@ != "compress"@ && name@ != "gain"@ && name@ != "lens.read"@ && name@
            != "lens.diff"@ ==> (r matches ToolCall::Unknown { message } && message@
            == "unknown tool: "@ + name@),
{
    proof {
        reveal_strlit("compress");
        reveal_strlit("gain");
        reveal_strlit("lens.read");
        reveal_strlit("lens.diff");
        assert("compress"@.len() == 8 && "gain"@.len() == 4 && "lens.read"@.len() == 9);
        assert("lens.diff"@.len() == 9);
        assert("lens.read"@[5] != "lens.diff"@[5]);
    }
    let n = crate::text::to_chars(name);
    if crate::text::chars_eq(&n, &crate::text::to_chars("compress")) {
        ToolCall::Compress {
            text: text_arg(args.text),
            command: args.command,
            level: level_arg(args.level),
        }
    } else if crate::text::chars_eq(&n, &crate::text::to_chars("gain")) {
        ToolCall::Gain
    } else if crate::text::chars_eq(&n, &crate::text::to_chars("lens.read")) {
        ToolCall::Read {
            path: text_arg(args.path),
            level: level_arg(args.level),
            max_lines: args.max_lines,
        }
    } else if crate::text::chars_eq(&n, &crate::text::to_chars("lens.diff")) {
        ToolCall::Diff { a: text_arg(args.a), b: text_arg(args.b) }
    } else {
        let mut message = "unknown tool: ".to_owned();
        message.append(name);
        ToolCall::Unknown { message }
    }
}

/// A parameter of a tool: its name, its JSON type, whether it is required, and the values
/// it may take when they are listed.
pub struct ToolParam {
    pub name: &'static str,
    pub kind: &'static str,
    pub required: bool,
    pub choices: Vec<&'static str>,
}

/// A tool the server offers: its name, what it does, and its parameters.
pub struct ToolDef {
    pub name: &'static str,
    pub description: &'static str,
    pub params: Vec<ToolParam>,
}

/// The names of the tools the server lists, in order.
pub open spec fn listed_tool_names() -> Seq<Seq<char>> {
    seq!["compress"@, "gain"@, "lens.read"@, "lens.diff"@]
}

fn param(name: &'static str, kind: &'static str, required: bool) -> (r: ToolParam)
    ensures
        r.name@ == name@,
        r.kind@ == kind@,
        r.required == required,
        r.choices@.len() == 0,
{
    ToolParam { name, kind, required, choices: Vec::new() }
}

/// The tools the server lists: `compress` (text required; command and level, one of
/// `none`, `minimal`, `aggressive`), `gain` (no parameters), `lens.read` (path required;
/// level and max_lines) and `lens.diff` (a and b required).
pub fn tool_list() -> (r: Vec<ToolDef>)
    ensures
        r@.len() == 4,
        forall|i: int| 0 <= i < 4 ==> #[trigger] r@[i].name@ == listed_tool_names()[i],
        forall|i: int, j: int|
            0 <= i < 4 && 0 <= j < r@[i].params@.len() && !(i == 0 && j == 2) ==> #[trigger] r@[i].params@[j].choices@.len() == 0,
        forall|j: int|
            0 <= j < 3 ==> #[trigger] level_named(r@[0].params@[2].choices@[j]@) is Some
                && is_lowercase_word(r@[0].params@[2].choices@[j]@),
        r@[0].params@.len() == 3 && r@[0].params@[0].name@ == "text"@ && r@[0].params@[0].required
            && r@[0].params@[0].kind@ == "string"@ && r@[0].params@[1].name@ == "command"@
            && !r@[0].params@[1].required && r@[0].params@[1].kind@ == "string"@
            && r@[0].params@[2].name@ == "level"@ && !r@[0].params@[2].required
            && r@[0].params@[2].kind@ == "string"@ && r@[0].params@[2].choices@.len() == 3
            && r@[0].params@[2].choices@[0]@ == "none"@ && r@[0].params@[2].choices@[1]@
            == "minimal"@ && r@[0].params@[2].choices@[2]@ == "aggressive"@,
        r@[0].description@
            == "Compress text/JSON using the TokenLens engine. Optional `command` hint picks a TOML rule."@,
        r@[1].params@.len() == 0,
        r@[1].description@ == "Return current TokenLens savings summary."@,
        r@[2].params@.len() == 3 && r@[2].params@[0].name@ == "path"@ && r@[2].params@[0].required
            && r@[2].params@[0].kind@ == "string"@ && r@[2].params@[1].name@ == "level"@
            && !r@[2].params@[1].required && r@[2].params@[1].kind@ == "string"@
            && r@[2].params@[1].choices@.len() == 0 && r@[2].params@[2].name@ == "max_lines"@
            && !r@[2].params@[2].required && r@[2].params@[2].kind@ == "integer"@,
        r@[2].description@ == "Read a file with TokenLens filtering."@,
        r@[3].params@.len() == 2 && r@[3].params@[0].name@ == "a"@ && r@[3].params@[0].required
            && r@[3].params@[0].kind@ == "string"@ && r@[3].params@[1].name@ == "b"@
            && r@[3].params@[1].required && r@[3].params@[1].kind@ == "string"@,
        r@[3].description@ == "Token-efficient diff between two strings."@,
{
    let level = ToolParam {
        name: "level",
        kind: "string",
        required: false,
        choices: vec!["none", "minimal", "aggressive"],
    };
    let compress = ToolDef {
        name: "compress",
        description: "Compress text/JSON using the TokenLens engine. Optional `command` hint picks a TOML rule.",
        params: vec![param("text", "string", true), param("command", "string", false), level],
    };
    let gain = ToolDef {
        name: "gain",
        description: "Return current TokenLens savings summary.",
        params: Vec::new(),
    };
    let read = ToolDef {
        name: "lens.read",
        description: "Read a file with TokenLens filtering.",
        params: vec![
            param("path", "string", true),
            param("level", "string", false),
            param("max_lines", "integer", false),
        ],
    };
    let diff = ToolDef {
        name: "lens.diff",
        description: "Token-efficient diff between two strings.",
        params: vec![param("a", "string", true), param("b", "string", true)],
    };
    let r = vec![compress, gain, read, diff];
    assert(forall|i: int| 0 <= i < 4 ==> #[trigger] r@[i].name@ == listed_tool_names()[i]);
    proof {
        reveal_strlit("none");
        reveal_strlit("minimal");
        reveal_strlit("aggressive");
        assert("none"@ =~= seq!['n', 'o', 'n', 'e']);
        assert("minimal"@ =~= seq!['m', 'i', 'n', 'i', 'm', 'a', 'l']);
        assert("aggressive"@ =~= seq!['a', 'g', 'g', 'r', 'e', 's', 's', 'i', 'v', 'e']);
        let cs = r@[0].params@[2].choices@;
        assert forall|j: int| 0 <= j < 3 implies #[trigger] level_named(cs[j]@) is Some
            && is_lowercase_word(cs[j]@) by {
            if j == 0 {
                assert(cs[0]@ == "none"@);
            } else if j == 1 {
                assert(cs[1]@ == "minimal"@);
            } else {
                assert(cs[2]@ == "aggressive"@);
            }
        }
    }
    r
}

/// Whether a call of the named tool reaches a tool (and is not answered as unknown).
pub open spec fn is_known_tool(name: Seq<char>) -> bool {
    name == "compress"@ || name == "gain"@ || name == "lens.read"@ || name == "lens.diff"@
}

/// Every tool the server lists is one that a call reaches.
pub proof fn lemma_listed_tools_dispatch(i: int)
    requires
        0 <= i < 4,
    ensures
        is_known_tool(listed_tool_names()[i]),
{
}

} // verus!
