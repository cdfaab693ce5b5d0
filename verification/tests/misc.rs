use tokenlens::budget::days_in_month;
use tokenlens::cmds::{combine_output, command_line, fetch_outcome, limit_lines, proxy_result, read_outcome};
use tokenlens::diff::simple_diff;
use tokenlens::filter::{CompressionLevel, FilterRules};
use tokenlens::format::{FormatMode, TokenFormatter};
use tokenlens::init::Agent;
use tokenlens::mcp::{plan_tool_call, tool_list, ToolArgs, ToolCall};
use tokenlens::pricing::price_per_million_cents;
use tokenlens::recorder::{EventBuffer, CLOUD_BATCH_SIZE};
use tokenlens::semantic::{
    cache_key, choose_backend, ollama_prompt, openai_user_message, Backend, OllamaBackend,
    OpenAIBackend,
};
use tokenlens::tracking::{pivot_sql, saved_tokens};

#[test]
fn diff_by_line_position() {
    assert_eq!(simple_diff("a\nb", "a\nc"), "- b\n+ c\n");
    assert_eq!(simple_diff("a", "a"), "(no diff)");
    assert_eq!(simple_diff("a\nb", "a"), "- b\n");
    assert_eq!(simple_diff("", "x"), "+ x\n");
    assert_eq!(simple_diff("a\n", "a"), "(no diff)");
}

#[test]
fn cache_key_is_sha256_hex() {
    let k = cache_key("ollama", "llama3.2", "hello");
    assert_eq!(k, "e81b500ae37436d78bfcee01e65f310ae49989601d81d89450b399cb51bb3e58");
    assert_eq!(k.len(), 64);
    assert_ne!(cache_key("openai", "llama3.2", "hello"), k);
}

#[test]
fn month_lengths() {
    assert_eq!(days_in_month(2024, 2), 29);
    assert_eq!(days_in_month(2023, 2), 28);
    assert_eq!(days_in_month(2000, 2), 29);
    assert_eq!(days_in_month(1900, 2), 28);
    assert_eq!(days_in_month(2024, 12), 31);
    assert_eq!(days_in_month(2024, 4), 30);
    assert_eq!(days_in_month(1969, 1), 31);
}

#[test]
fn model_prices() {
    assert_eq!(price_per_million_cents(Some("x-opus-4")), 1500);
    assert_eq!(price_per_million_cents(Some("x-sonnet-4.5")), 300);
    assert_eq!(price_per_million_cents(Some("gpt-4o-mini")), 15);
    assert_eq!(price_per_million_cents(Some("gpt-4o")), 500);
    assert_eq!(price_per_million_cents(Some("gemini-2.5-pro")), 350);
    assert_eq!(price_per_million_cents(Some("gemini-flash")), 125);
    assert_eq!(price_per_million_cents(Some("llama3.2")), 0);
    assert_eq!(price_per_million_cents(Some("mystery")), 200);
    assert_eq!(price_per_million_cents(None), 200);
}

#[test]
fn read_limits_lines() {
    assert_eq!(limit_lines("a\nb\nc\n", Some(2)), "a\nb\n... +1 more lines");
    assert_eq!(limit_lines("a\nb\nc\n", Some(5)), "a\nb\nc");
    assert_eq!(limit_lines("a\nb\nc\n", None), "a\nb\nc\n");
    let o = read_outcome("f.txt", "a\n\n\nb\n", CompressionLevel::Minimal, None, &FilterRules::empty());
    assert_eq!(o.output, "a\n\nb");
    assert_eq!(o.strategy, "structural");
    let o = fetch_outcome("http://x", "body", CompressionLevel::Off, &FilterRules::empty());
    assert_eq!(o.output, "body");
}

#[test]
fn proxy_output_and_command_line() {
    assert_eq!(combine_output("out", "err"), "out\nerr");
    assert_eq!(combine_output("out\n", "err"), "out\nerr");
    assert_eq!(combine_output("out", ""), "out");
    let args = vec!["status".to_string(), "-s".to_string()];
    assert_eq!(command_line("git", &args), "git status -s");
    assert_eq!(command_line("ls", &Vec::new()), "ls ");
    let r = proxy_result(3, "a\n\n\nb", "e", "git", &args, CompressionLevel::Minimal, &FilterRules::empty());
    assert_eq!(r.status, 3);
    assert_eq!(r.raw, "a\n\n\nb\ne");
    assert_eq!(r.outcome.output, "a\n\nb\ne");
}

#[test]
fn tool_calls_are_dispatched() {
    let args = |text: Option<&str>, level: Option<&str>| ToolArgs {
        text: text.map(|s| s.to_string()),
        command: None,
        level: level.map(|s| s.to_string()),
        path: None,
        max_lines: Some(3),
        a: Some("x".to_string()),
        b: None,
    };
    match plan_tool_call("compress", args(Some("t"), Some("AGGRESSIVE"))) {
        ToolCall::Compress { text, level, .. } => {
            assert_eq!(text, "t");
            assert_eq!(level, CompressionLevel::Aggressive);
        }
        _ => panic!("expected compress"),
    }
    match plan_tool_call("lens.read", args(None, Some("weird"))) {
        ToolCall::Read { path, level, max_lines } => {
            assert_eq!(path, "");
            assert_eq!(level, CompressionLevel::Minimal);
            assert_eq!(max_lines, Some(3));
        }
        _ => panic!("expected read"),
    }
    assert!(matches!(plan_tool_call("gain", args(None, None)), ToolCall::Gain));
    match plan_tool_call("lens.diff", args(None, None)) {
        ToolCall::Diff { a, b } => {
            assert_eq!(a, "x");
            assert_eq!(b, "");
        }
        _ => panic!("expected diff"),
    }
    match plan_tool_call("nope", args(None, None)) {
        ToolCall::Unknown { message } => assert_eq!(message, "unknown tool: nope"),
        _ => panic!("expected unknown"),
    }
}

#[test]
fn tracker_queries() {
    assert_eq!(
        pivot_sql("model"),
        "SELECT COALESCE(model,'<none>'), COALESCE(SUM(saved_tokens),0)\n             FROM events GROUP BY model ORDER BY 2 DESC LIMIT 20"
    );
    assert_eq!(saved_tokens(10, 4), 6);
    assert_eq!(saved_tokens(4, 10), 0);
}

#[test]
fn event_buffer_batches() {
    let mut b: EventBuffer<u32> = EventBuffer::new(2);
    assert!(b.is_empty());
    assert!(!b.record(1));
    assert!(b.record(2));
    assert_eq!(b.pending(), &vec![1, 2]);
    assert_eq!(b.batch_size(), 2);
    b.delivered();
    assert!(b.is_empty());
}

#[test]
fn init_lines() {
    assert_eq!(Agent::Codex.init_line("Codex"), "[init] Codex CLI hook -> ~/.codex/hooks/tokenlens.sh");
    assert_eq!(Agent::Kilocode.init_line("Kilocode"), "[init] Kilocode rules updated");
    assert_eq!(
        Agent::Vercel.init_line("Vercel"),
        "[init] Vercel: install @tokenlens/vercel and add the middleware"
    );
}

struct Count(u32);

impl TokenFormatter for Count {
    fn format_compact(&self) -> String {
        format!("{}", self.0)
    }
    fn format_ultra(&self) -> String {
        format!("#{}", self.0)
    }
}

#[test]
fn format_modes() {
    assert_eq!(FormatMode::from_verbosity(0), FormatMode::Compact);
    assert_eq!(FormatMode::from_verbosity(1), FormatMode::Verbose);
    assert_eq!(FormatMode::from_verbosity(7), FormatMode::Ultra);
    let c = Count(5);
    assert_eq!(c.format(FormatMode::Verbose), "5");
    assert_eq!(c.format(FormatMode::Ultra), "#5");
}

#[test]
fn semantic_settings_and_prompts() {
    let o = OllamaBackend::from_settings(None, None);
    assert_eq!(o.host, "http://localhost:11434");
    assert_eq!(o.model, "llama3.2");
    assert_eq!(o.generate_url(), "http://localhost:11434/api/generate");
    assert!(OpenAIBackend::from_settings(None, None, None).is_none());
    let b = OpenAIBackend::from_settings(Some("k".to_string()), None, None).unwrap();
    assert_eq!(b.base_url, "https://api.openai.com/v1");
    assert_eq!(b.model, "gpt-4o-mini");
    assert_eq!(b.authorization(), "Bearer k");
    assert_eq!(openai_user_message("T", 42), "Target ~42 tokens.\n\nT");
    let p = ollama_prompt("T", 42);
    assert!(p.starts_with("Compress the following command output to roughly 42 tokens. Preserve"));
    assert!(p.ends_with("\n\n---\nT\n---"));
    assert!(matches!(choose_backend(o, false, Some(b)), Some(Backend::OpenAI(_))));
    let o2 = OllamaBackend::from_settings(Some("h".to_string()), None);
    assert!(matches!(choose_backend(o2, true, None), Some(Backend::Ollama(_))));
}

#[test]
fn cloud_batch_is_due_at_thirty_two() {
    let mut b: EventBuffer<u32> = EventBuffer::new(CLOUD_BATCH_SIZE);
    for e in 1..32u32 {
        assert!(!b.record(e));
    }
    assert!(b.record(32));
    assert_eq!(b.pending(), &(1..=32).collect::<Vec<u32>>());
    b.delivered();
    assert!(b.is_empty());
}

#[test]
fn listed_tools_are_known() {
    let tools = tool_list();
    let names: Vec<&str> = tools.iter().map(|t| t.name).collect();
    assert_eq!(names, vec!["compress", "gain", "lens.read", "lens.diff"]);
    for t in &tools {
        let args = ToolArgs { text: None, command: None, level: None, path: None, max_lines: None, a: None, b: None };
        assert!(!matches!(plan_tool_call(t.name, args), ToolCall::Unknown { .. }));
    }
    assert_eq!(tools[0].params[2].choices, vec!["none", "minimal", "aggressive"]);
    for c in &tools[0].params[2].choices {
        assert!(c.parse::<CompressionLevel>().is_ok());
    }
    assert!(tools[0].description.ends_with("picks a TOML rule."));
    assert!(tools[1].params.is_empty());
}
