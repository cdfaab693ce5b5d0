use tokenlens::approx_tokens;
use tokenlens::filter::{
    apply_rule, collapse_repeats, compress_text, structural_pass, CompiledRule, CompressionLevel,
    FilterOutcome, FilterRules,
};
use tokenlens::pattern::{Pattern, RuleError};

#[test]
fn structural_collapses_blank_lines() {
    let input = "a\n\n\n\nb\n";
    let out = structural_pass(input, CompressionLevel::Minimal);
    assert_eq!(out, "a\n\nb");
}

#[test]
fn aggressive_drops_all_blanks_and_repeats() {
    let input = "downloading\ndownloading\ndownloading\ndone";
    let out = structural_pass(input, CompressionLevel::Aggressive);
    assert!(out.contains("(x3)"));
}

#[test]
fn aggressive_output_exact() {
    let input = "downloading\ndownloading\ndownloading\ndone";
    assert_eq!(structural_pass(input, CompressionLevel::Aggressive), "downloading (x3)\ndone");
    assert_eq!(structural_pass("a\n\n\nb   \n", CompressionLevel::Aggressive), "a\nb");
}

#[test]
fn structural_trims_trailing_whitespace() {
    assert_eq!(structural_pass("x  \n\ny\t\n\n\n", CompressionLevel::Minimal), "x\n\ny");
    assert_eq!(structural_pass("a\r\nb\r\n", CompressionLevel::Minimal), "a\nb");
    assert_eq!(structural_pass("", CompressionLevel::Minimal), "");
    assert_eq!(structural_pass("a\n\n\nb", CompressionLevel::Off), "a\n\nb");
}

#[test]
fn collapse_repeats_marks_runs() {
    assert_eq!(collapse_repeats("a\na\nb\nc\nc\nc"), "a (x2)\nb\nc (x3)");
    assert_eq!(collapse_repeats(""), "");
    assert_eq!(collapse_repeats("x\ny\nx"), "x\ny\nx");
}

#[test]
fn approx_tokens_rounds_up_bytes() {
    assert_eq!(approx_tokens(""), 0);
    assert_eq!(approx_tokens("abcd"), 1);
    assert_eq!(approx_tokens("abcde"), 2);
    assert_eq!(approx_tokens("\u{e9}"), 1);
    assert_eq!(approx_tokens("\u{65e5}\u{672c}\u{8a9e}"), 3);
}

#[test]
fn outcome_counts_tokens() {
    let o = FilterOutcome::from("abcdefgh", "ab".to_string(), "x".to_string());
    assert_eq!(o.original_tokens, 2);
    assert_eq!(o.compressed_tokens, 1);
    assert_eq!(o.saved_tokens, 1);
    assert_eq!(o.strategy, "x");
    assert_eq!(o.output, "ab");
    let grown = FilterOutcome::from("a", "abcdefgh".to_string(), "y".to_string());
    assert_eq!(grown.saved_tokens, 0);
    let empty = FilterOutcome::from("", String::new(), "noop".to_string());
    assert_eq!(empty.original_tokens, 0);
    assert_eq!(empty.saved_tokens, 0);
}

#[test]
fn level_names_parse_in_any_case() {
    assert_eq!(CompressionLevel::from_name("Aggressive"), Ok(CompressionLevel::Aggressive));
    assert_eq!(CompressionLevel::from_name("NONE"), Ok(CompressionLevel::Off));
    assert_eq!(CompressionLevel::from_name("minimal"), Ok(CompressionLevel::Minimal));
    assert_eq!(CompressionLevel::from_name("Nope"), Err("unknown level: nope".to_string()));
    assert_eq!("aggressive".parse::<CompressionLevel>(), Ok(CompressionLevel::Aggressive));
    assert_eq!(CompressionLevel::from_name_or_default("weird"), CompressionLevel::Minimal);
    assert_eq!(CompressionLevel::default(), CompressionLevel::Minimal);
}

fn rule(
    name: &str,
    cmd: &str,
    ansi: bool,
    strip: &[&str],
    max_lines: Option<usize>,
    trunc: Option<usize>,
) -> CompiledRule {
    let strip: Vec<String> = strip.iter().map(|s| s.to_string()).collect();
    CompiledRule::new(name, cmd, ansi, &strip, max_lines, trunc).unwrap()
}

#[test]
fn rule_strips_and_caps_lines() {
    let r = rule("build", "^cargo", false, &["^warning"], Some(2), None);
    let out = apply_rule("warning: x\nline1\nline2\nline3\n", &r);
    assert_eq!(out, "line1\nline2\n... +1 more lines (truncated by tokenlens)");
}

#[test]
fn rule_truncates_long_lines() {
    let r = rule("t", "x", false, &[], None, Some(3));
    assert_eq!(apply_rule("abcdef\nab", &r), "abc\u{2026}\nab");
}

#[test]
fn rule_strips_ansi_escapes() {
    let r = rule("a", "x", true, &[], None, None);
    assert_eq!(apply_rule("\u{1b}[31mred\u{1b}[0m", &r), "red");
}

#[test]
fn rule_without_steps_keeps_text() {
    let r = rule("id", "x", false, &[], None, None);
    assert_eq!(apply_rule("a\n\n\nb\n", &r), "a\n\n\nb\n");
}

#[test]
fn invalid_pattern_is_refused() {
    let strip: Vec<String> = vec!["(".to_string()];
    assert!(matches!(
        CompiledRule::new("bad", "x", false, &strip, None, None),
        Err(RuleError::InvalidPattern(_))
    ));
    assert!(Pattern::new("(").is_err());
    let p = Pattern::new("a+").unwrap();
    assert_eq!(p.as_str(), "a+");
    let r = rule("r", "a+", false, &[], None, None);
    assert!(r.matches_command("caab"));
    assert!(!r.matches_command("xyz"));
    assert!(r.strips_ansi() == false && r.max_lines().is_none() && r.truncate_lines_at().is_none());
}

#[test]
fn compress_picks_rule_then_structural() {
    let rules = FilterRules::new(vec![
        rule("cargo", "^cargo", false, &["^\\s*Compiling"], None, None),
        rule("any", ".*", false, &[], Some(1), None),
    ]);
    let o = compress_text("  Compiling a\nok\n", Some("cargo build"), CompressionLevel::Minimal, &rules);
    assert_eq!(o.strategy, "rule:cargo");
    assert_eq!(o.output, "ok");
    let o = compress_text("a\nb\n", Some("git log"), CompressionLevel::Minimal, &rules);
    assert_eq!(o.strategy, "rule:any");
    let o = compress_text("a\n\n\nb\n", None, CompressionLevel::Minimal, &rules);
    assert_eq!(o.strategy, "structural");
    assert_eq!(o.output, "a\n\nb");
    let o = compress_text("a\n\n\nb\n", Some("cargo"), CompressionLevel::Off, &rules);
    assert_eq!(o.strategy, "none");
    assert_eq!(o.output, "a\n\n\nb\n");
    assert_eq!(o.saved_tokens, 0);
    let empty = FilterRules::empty();
    assert_eq!(empty.len(), 0);
    assert!(empty.match_cmd("cargo").is_none());
    assert_eq!(rules.match_cmd("cargo test").map(|r| r.name().to_string()), Some("cargo".to_string()));
}

#[test]
fn structural_pass_is_idempotent_at_minimal() {
    for input in ["a  \n\n\n\nb\t\n\n", "x\r\n\r\ny\n", "\n\n a\n", "one"] {
        let once = structural_pass(input, CompressionLevel::Minimal);
        assert_eq!(structural_pass(&once, CompressionLevel::Minimal), once);
        let off = structural_pass(input, CompressionLevel::Off);
        assert_eq!(structural_pass(&off, CompressionLevel::Off), off);
    }
}

#[test]
fn token_estimate_is_monotone_and_subadditive() {
    assert!(approx_tokens("abc") <= approx_tokens("abcdefg"));
    assert_eq!(approx_tokens("\u{e9}"), approx_tokens("ab"));
    assert!(approx_tokens("abcdefgh") <= approx_tokens("abcde") + approx_tokens("fgh"));
    assert_eq!(approx_tokens("abcde"), 2);
}
