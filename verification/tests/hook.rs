use tokenlens::hook::{handle, is_blank_line, respond, stub_rewrite};
use tokenlens::rewrite::{exit_plan, rewrite_command, rewrite_exit, Rewrite, RewriteAction};
use tokenlens::uhp::{HookAction, HookRequest, JsonField, JsonMember, JsonValue};

fn request(tool: &str, members: Vec<(&str, JsonField)>) -> HookRequest {
    HookRequest {
        v: 1,
        event: "tool.before".to_string(),
        agent: "codex-cli".to_string(),
        tool: tool.to_string(),
        payload: JsonValue::Object(
            members
                .into_iter()
                .map(|(k, v)| JsonMember { key: k.to_string(), value: v })
                .collect(),
        ),
        meta: JsonValue::Other("null".to_string()),
    }
}

#[test]
fn stub_rewrite_wraps_noisy_commands() {
    assert_eq!(stub_rewrite("git status"), Some("tokenlens git status".to_string()));
    assert_eq!(stub_rewrite("tsc --watch"), Some("tokenlens tsc --watch".to_string()));
    assert_eq!(stub_rewrite("pytest -q"), Some("tokenlens pytest -q".to_string()));
    assert_eq!(stub_rewrite("tokenlens git status"), None);
    assert_eq!(stub_rewrite("echo hi"), None);
    assert_eq!(stub_rewrite("gitk"), None);
}

#[test]
fn handle_rewrites_shell_command_only() {
    let req = request(
        "bash",
        vec![
            ("command", JsonField::Str("cargo build".to_string())),
            ("cwd", JsonField::Str("/x".to_string())),
        ],
    );
    let resp = handle(req);
    assert_eq!(resp.action, HookAction::Rewrite);
    assert_eq!(resp.reason.as_deref(), Some("structural-stub"));
    match resp.payload {
        Some(JsonValue::Object(ms)) => {
            assert_eq!(ms.len(), 2);
            assert_eq!(ms[0].key, "command");
            assert!(matches!(&ms[0].value, JsonField::Str(s) if s == "tokenlens cargo build"));
            assert!(matches!(&ms[1].value, JsonField::Str(s) if s == "/x"));
        }
        _ => panic!("expected an object payload"),
    }
}

#[test]
fn handle_allows_everything_else() {
    let r = handle(request("read_file", vec![("command", JsonField::Str("git diff".to_string()))]));
    assert_eq!(r.action, HookAction::Allow);
    assert!(r.payload.is_none() && r.reason.is_none());
    let r = handle(request("shell", vec![("command", JsonField::Str("echo hi".to_string()))]));
    assert_eq!(r.action, HookAction::Allow);
    let r = handle(request("bash", vec![("command", JsonField::Other("42".to_string()))]));
    assert_eq!(r.action, HookAction::Allow);
    let r = handle(request("bash", vec![("command", JsonField::Str("tokenlens git diff".to_string()))]));
    assert_eq!(r.action, HookAction::Allow);
}

#[test]
fn parse_errors_are_allowed_with_reason() {
    let r = respond(Err("expected value at line 1".to_string()));
    assert_eq!(r.action, HookAction::Allow);
    assert_eq!(r.reason.as_deref(), Some("parse error: expected value at line 1"));
    assert!(is_blank_line("  \t "));
    assert!(is_blank_line(""));
    assert!(!is_blank_line(" x "));
}

#[test]
fn rewrite_exit_codes() {
    let p = rewrite_exit("git status");
    assert_eq!(p.code, 0);
    assert_eq!(p.print.as_deref(), Some("tokenlens git status"));
    assert_eq!(p.track.as_deref(), Some("rewrite:git status"));
    let p = rewrite_exit("tokenlens git status");
    assert_eq!(p.code, 0);
    assert_eq!(p.print.as_deref(), Some("tokenlens git status"));
    assert!(p.track.is_none());
    assert_eq!(rewrite_exit("echo hi").code, 1);
    assert_eq!(rewrite_exit("   ").code, 1);
    let deny = Rewrite { action: RewriteAction::Deny, reason: String::new(), command: "rm".to_string() };
    assert_eq!(exit_plan("rm", deny).code, 2);
    let ask = Rewrite { action: RewriteAction::Ask, reason: String::new(), command: "x".to_string() };
    let p = exit_plan("y", ask);
    assert_eq!(p.code, 3);
    assert_eq!(p.track.as_deref(), Some("rewrite-ask:y"));
    assert_eq!(rewrite_command("cargo test").action, RewriteAction::Rewrite);
    assert_eq!(rewrite_command("ls").reason, "passthrough");
}

#[test]
fn noisy_commands_rewritten_quiet_ones_allowed() {
    for cmd in ["cargo build", "git status", "npm test"] {
        let r = handle(request("bash", vec![("command", JsonField::Str(cmd.to_string()))]));
        assert_eq!(r.action, HookAction::Rewrite, "{cmd}");
    }
    for cmd in ["echo hi", "cat README.md"] {
        let r = handle(request("bash", vec![("command", JsonField::Str(cmd.to_string()))]));
        assert_eq!(r.action, HookAction::Allow, "{cmd}");
    }
}
