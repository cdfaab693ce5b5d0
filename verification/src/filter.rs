//! Compression engine: rule-driven filtering and a generic structural pass.
use vstd::prelude::*;

use crate::pattern::{regex_delete_all, regex_matches, Pattern, RuleError};
use crate::{approx_tokens, token_estimate};
use crate::text::{
    chars_eq, copy_chars, decimal, extend_chars, from_chars, is_blank, join, join_chars, lines,
    decimal_string, lemma_decimal_digits, lemma_join_newlines, lemma_lines_count,
    lemma_newline_count_add, lemma_newline_count_one, lemma_newline_free, newline_count,
    is_ws, push_decimal, slice_chars, split_lines, strip_cr, to_chars, trim_end, trim_end_chars,
    views,
};

verus! {

/// How hard the engine compresses.
#[derive(Debug, Clone, Copy, PartialEq, Eq, Structural)]
pub enum CompressionLevel {
    /// No compression (`none` on the command line).
    Off,
    Minimal,
    Aggressive,
}

/// Number of blank lines a run may keep in the structural pass.
pub open spec fn blank_limit(level: CompressionLevel) -> nat {
    if level == CompressionLevel::Aggressive {
        0
    } else {
        1
    }
}

/// Length of the run of blank lines that ends the sequence.
pub open spec fn blank_run(ls: Seq<Seq<char>>) -> nat
    decreases ls.len(),
{
    if ls.len() == 0 {
        0
    } else if is_blank(ls.last()) {
        blank_run(ls.drop_last()) + 1
    } else {
        0
    }
}

/// The lines the structural pass keeps: every line with trailing whitespace trimmed, except
/// the blank lines beyond the first `limit` of each run of blank lines.
pub open spec fn kept_lines(ls: Seq<Seq<char>>, limit: nat) -> Seq<Seq<char>>
    decreases ls.len(),
{
    if ls.len() == 0 {
        seq![]
    } else {
        let prev = kept_lines(ls.drop_last(), limit);
        if is_blank(ls.last()) && blank_run(ls) > limit {
            prev
        } else {
            prev.push(trim_end(ls.last()))
        }
    }
}

/// Each line followed by a line feed.
pub open spec fn terminated(ls: Seq<Seq<char>>) -> Seq<char>
    decreases ls.len(),
{
    if ls.len() == 0 {
        seq![]
    } else {
        terminated(ls.drop_last()) + ls.last().push('\n')
    }
}

/// Runs of equal consecutive lines, each with its length.
pub open spec fn runs(ls: Seq<Seq<char>>) -> Seq<(Seq<char>, nat)>
    decreases ls.len(),
{
    if ls.len() == 0 {
        seq![]
    } else {
        let r = runs(ls.drop_last());
        if r.len() > 0 && r.last().0 == ls.last() {
            r.update(r.len() - 1, (ls.last(), r.last().1 + 1))
        } else {
            r.push((ls.last(), 1))
        }
    }
}

/// A run written as one line: the line, with ` (xN)` when it repeats.
pub open spec fn render_run(run: (Seq<char>, nat)) -> Seq<char> {
    if run.1 > 1 {
        run.0 + seq![' ', '(', 'x'] + decimal(run.1) + seq![')']
    } else {
        run.0
    }
}

/// The text with each run of identical lines written once.
pub open spec fn collapsed(s: Seq<char>) -> Seq<char> {
    join(runs(lines(s)).map_values(|r: (Seq<char>, nat)| render_run(r)), seq!['\n'])
}

/// The result of the structural pass.
pub open spec fn structural(s: Seq<char>, level: CompressionLevel) -> Seq<char> {
    let body = terminated(kept_lines(lines(s), blank_limit(level)));
    trim_end(
        if level == CompressionLevel::Aggressive {
            collapsed(body)
        } else {
            body
        },
    )
}

/// The runs gathered so far, as line and count.
spec fn run_pairs(ls: Seq<Vec<char>>, counts: Seq<usize>) -> Seq<(Seq<char>, nat)> {
    Seq::new(ls.len(), |k: int| (ls[k]@, counts[k] as nat))
}

/// Collapses runs of identical lines into one line marked ` (xN)`.
pub fn collapse_repeats(input: &str) -> (r: String)
    ensures
        r@ == collapsed(input@),
{
    let chars = to_chars(input);
    let ls = split_lines(&chars);
    let ghost all = views(ls@);
    let mut run_lines: Vec<Vec<char>> = Vec::new();
    let mut counts: Vec<usize> = Vec::new();
    for i in 0..ls.len()
        invariant
            all == views(ls@),
            run_lines.len() == counts.len(),
            run_pairs(run_lines@, counts@) == runs(all.take(i as int)),
            forall|k: int| 0 <= k < counts.len() ==> 1 <= #[trigger] counts@[k] <= i,
    {
        let ghost pre = all.take(i + 1);
        assert(pre.drop_last() =~= all.take(i as int));
        assert(pre.last() == ls@[i as int]@);
        let n = run_lines.len();
        if n > 0 && chars_eq(&run_lines[n - 1], &ls[i]) {
            let c = counts[n - 1];
            counts.set(n - 1, c + 1);
            assert(run_pairs(run_lines@, counts@) =~= runs(pre));
        } else {
            let ghost old_pairs = run_pairs(run_lines@, counts@);
            run_lines.push(copy_chars(&ls[i]));
            counts.push(1);
            assert(run_pairs(run_lines@, counts@) =~= old_pairs.push((ls@[i as int]@, 1)));
        }
    }
    assert(all.take(ls@.len() as int) =~= all);
    let mut rendered: Vec<Vec<char>> = Vec::new();
    for k in 0..run_lines.len()
        invariant
            run_lines.len() == counts.len(),
            views(rendered@) == run_pairs(run_lines@, counts@).take(k as int).map_values(
                |r: (Seq<char>, nat)| render_run(r),
            ),
    {
        let mut line = copy_chars(&run_lines[k]);
        if counts[k] > 1 {
            line.push(' ');
            line.push('(');
            line.push('x');
            push_decimal(&mut line, counts[k] as u64);
            line.push(')');
        }
        let ghost before = views(rendered@);
        let ghost pairs = run_pairs(run_lines@, counts@);
        assert(line@ =~= render_run(pairs[k as int]));
        rendered.push(line);
        assert(views(rendered@) =~= before.push(render_run(pairs[k as int])));
        assert(pairs.take(k + 1).map_values(|r: (Seq<char>, nat)| render_run(r))
            =~= pairs.take(k as int).map_values(|r: (Seq<char>, nat)| render_run(r)).push(
            render_run(pairs[k as int]),
        ));
    }
    assert(run_pairs(run_lines@, counts@).take(run_lines@.len() as int) =~= run_pairs(
        run_lines@,
        counts@,
    ));
    let sep: Vec<char> = vec!['\n'];
    assert(sep@ =~= seq!['\n']);
    let joined = join_chars(&rendered, &sep);
    from_chars(&joined)
}

/// Generic structural pass: trims trailing whitespace, collapses runs of blank lines
/// (dropping them all at `Aggressive`), and at `Aggressive` also collapses repeated lines.
pub fn structural_pass(input: &str, level: CompressionLevel) -> (r: String)
    ensures
        r@ == structural(input@, level),
{
    let chars = to_chars(input);
    let ls = split_lines(&chars);
    let ghost all = views(ls@);
    let limit: usize = match level {
        CompressionLevel::Aggressive => 0,
        _ => 1,
    };
    assert(limit == blank_limit(level));
    let mut out: Vec<char> = Vec::new();
    let mut blanks: usize = 0;
    for i in 0..ls.len()
        invariant
            all == views(ls@),
            limit == blank_limit(level),
            blanks <= i,
            blanks == blank_run(all.take(i as int)),
            out@ == terminated(kept_lines(all.take(i as int), limit as nat)),
    {
        let ghost pre = all.take(i + 1);
        assert(pre.drop_last() =~= all.take(i as int));
        assert(pre.last() == ls@[i as int]@);
        let trimmed = trim_end_chars(&ls[i]);
        let keep = if trimmed.len() == 0 {
            blanks = blanks + 1;
            blanks <= limit
        } else {
            blanks = 0;
            true
        };
        assert(blanks == blank_run(pre));
        assert(keep == !(is_blank(pre.last()) && blank_run(pre) > limit));
        let ghost kept_before = kept_lines(all.take(i as int), limit as nat);
        assert(kept_before.push(trimmed@).drop_last() =~= kept_before);
        if keep {
            let ghost before = out@;
            extend_chars(&mut out, &trimmed);
            out.push('\n');
            assert(out@ =~= before + trimmed@.push('\n'));
        }
    }
    assert(all.take(ls@.len() as int) =~= all);
    let body = match level {
        CompressionLevel::Aggressive => {
            let s = from_chars(&out);
            let c = collapse_repeats(s.as_str());
            to_chars(c.as_str())
        },
        _ => out,
    };
    let t = trim_end_chars(&body);
    from_chars(&t)
}

} // verus!

verus! {

/// The regular expression for ANSI escape sequences.
pub open spec fn ansi_source() -> Seq<char> {
    "\\x1b\\[[0-9;]*[A-Za-z]"@
}

/// Whether some pattern matches the line.
pub open spec fn matches_any(patterns: Seq<Seq<char>>, line: Seq<char>) -> bool {
    exists|k: int| 0 <= k < patterns.len() && regex_matches(#[trigger] patterns[k], line)
}

/// The lines that no pattern matches, in order.
pub open spec fn unmatched(ls: Seq<Seq<char>>, patterns: Seq<Seq<char>>) -> Seq<Seq<char>>
    decreases ls.len(),
{
    if ls.len() == 0 {
        seq![]
    } else {
        let prev = unmatched(ls.drop_last(), patterns);
        if matches_any(patterns, ls.last()) {
            prev
        } else {
            prev.push(ls.last())
        }
    }
}

/// A line cut to `max` characters and marked with an ellipsis when it is longer.
pub open spec fn truncated_line(line: Seq<char>, max: nat) -> Seq<char> {
    if line.len() > max {
        line.take(max as int).push('\u{2026}')
    } else {
        line
    }
}

/// A compiled filter rule.
pub struct CompiledRule {
    name: String,
    match_command: Pattern,
    strip_ansi: bool,
    strip_patterns: Vec<Pattern>,
    max_lines: Option<usize>,
    truncate_lines_at: Option<usize>,
    ansi: Option<Pattern>,
}

/// What a rule is made of, as plain values.
pub struct RuleView {
    pub name: Seq<char>,
    pub match_command: Seq<char>,
    pub strip_ansi: bool,
    pub strip_patterns: Seq<Seq<char>>,
    pub max_lines: Option<usize>,
    pub truncate_lines_at: Option<usize>,
}

impl View for CompiledRule {
    type V = RuleView;

    closed spec fn view(&self) -> RuleView {
        RuleView {
            name: self.name@,
            match_command: self.match_command@,
            strip_ansi: self.strip_ansi,
            strip_patterns: self.strip_patterns@.map_values(|p: Pattern| p@),
            max_lines: self.max_lines,
            truncate_lines_at: self.truncate_lines_at,
        }
    }
}

/// The text after the rule's ANSI stripping.
pub open spec fn after_ansi(s: Seq<char>, rule: RuleView) -> Seq<char> {
    if rule.strip_ansi {
        regex_delete_all(ansi_source(), s)
    } else {
        s
    }
}

/// The text after the rule drops the lines its strip patterns match.
pub open spec fn after_strip(s: Seq<char>, rule: RuleView) -> Seq<char> {
    if rule.strip_patterns.len() > 0 {
        join(unmatched(lines(s), rule.strip_patterns), seq!['\n'])
    } else {
        s
    }
}

/// The text after the rule cuts long lines.
pub open spec fn after_truncate(s: Seq<char>, rule: RuleView) -> Seq<char> {
    match rule.truncate_lines_at {
        Some(max) => join(
            lines(s).map_values(|l: Seq<char>| truncated_line(l, max as nat)),
            seq!['\n'],
        ),
        None => s,
    }
}

/// The marker that ends a text cut to its first lines.
pub open spec fn omitted_marker(n: nat) -> Seq<char> {
    "\n... +"@ + decimal(n) + " more lines (truncated by tokenlens)"@
}

/// The text after the rule caps the number of lines.
pub open spec fn after_cap(s: Seq<char>, rule: RuleView) -> Seq<char> {
    match rule.max_lines {
        Some(max) => if lines(s).len() > max {
            join(lines(s).take(max as int), seq!['\n']) + omitted_marker(
                (lines(s).len() - max) as nat,
            )
        } else {
            s
        },
        None => s,
    }
}

/// What applying the rule to the text gives.
pub open spec fn rule_output(s: Seq<char>, rule: RuleView) -> Seq<char> {
    after_cap(after_truncate(after_strip(after_ansi(s, rule), rule), rule), rule)
}

impl CompiledRule {
    #[verifier::type_invariant]
    closed spec fn inv(self) -> bool {
        &&& self.strip_ansi == self.ansi is Some
        &&& self.ansi matches Some(p) ==> p@ == ansi_source()
    }

    /// Compiles a rule; fails when the command pattern, a strip pattern or (with
    /// `strip_ansi`) the ANSI pattern is refused by the `regex` crate.
    pub fn new(
        name: &str,
        match_command: &str,
        strip_ansi: bool,
        strip_patterns: &Vec<String>,
        max_lines: Option<usize>,
        truncate_lines_at: Option<usize>,
    ) -> (r: Result<CompiledRule, RuleError>)
        ensures
            r matches Ok(rule) ==> {
                &&& rule@.name == name@
                &&& rule@.match_command == match_command@
                &&& rule@.strip_ansi == strip_ansi
                &&& rule@.strip_patterns == strip_patterns@.map_values(|p: String| p@)
                &&& rule@.max_lines == max_lines
                &&& rule@.truncate_lines_at == truncate_lines_at
            },
            r is Ok <==> {
                &&& crate::pattern::regex_valid(match_command@)
                &&& forall|k: int|
                    0 <= k < strip_patterns.len() ==> crate::pattern::regex_valid(
                        #[trigger] strip_patterns@[k]@,
                    )
                &&& strip_ansi ==> crate::pattern::regex_valid(ansi_source())
            },
    {
        let cmd = match Pattern::new(match_command) {
            Ok(p) => p,
            Err(e) => return Err(e),
        };
        let mut pats: Vec<Pattern> = Vec::new();
        for i in 0..strip_patterns.len()
            invariant
                pats.len() == i,
                forall|k: int| 0 <= k < i ==> crate::pattern::regex_valid(#[trigger] strip_patterns@[k]@),
                forall|k: int| 0 <= k < i ==> #[trigger] pats@[k]@ == strip_patterns@[k]@,
        {
            match Pattern::new(strip_patterns[i].as_str()) {
                Ok(p) => pats.push(p),
                Err(e) => return Err(e),
            }
        }
        let ansi = if strip_ansi {
            match Pattern::new("\\x1b\\[[0-9;]*[A-Za-z]") {
                Ok(p) => Some(p),
                Err(e) => return Err(e),
            }
        } else {
            None
        };
        let rule = CompiledRule {
            name: name.to_owned(),
            match_command: cmd,
            strip_ansi,
            strip_patterns: pats,
            max_lines,
            truncate_lines_at,
            ansi,
        };
        assert(rule@.strip_patterns =~= strip_patterns@.map_values(|p: String| p@));
        Ok(rule)
    }

    /// The rule's name.
    pub fn name(&self) -> (r: &str)
        ensures
            r@ == self@.name,
    {
        self.name.as_str()
    }

    /// Whether the rule's command pattern matches `cmd`.
    pub fn matches_command(&self, cmd: &str) -> (r: bool)
        ensures
            r == regex_matches(self@.match_command, cmd@),
    {
        self.match_command.is_match(cmd)
    }

    /// Whether the rule strips ANSI escape sequences.
    pub fn strips_ansi(&self) -> (r: bool)
        ensures
            r == self@.strip_ansi,
    {
        self.strip_ansi
    }

    /// The cap on the number of lines, if any.
    pub fn max_lines(&self) -> (r: Option<usize>)
        ensures
            r == self@.max_lines,
    {
        self.max_lines
    }

    /// The cap on the length of a line, if any.
    pub fn truncate_lines_at(&self) -> (r: Option<usize>)
        ensures
            r == self@.truncate_lines_at,
    {
        self.truncate_lines_at
    }
}

/// The first `max_chars` characters of `s`, then an ellipsis.
fn truncate(s: &Vec<char>, max_chars: usize) -> (r: Vec<char>)
    ensures
        r@ == s@.take(if max_chars < s@.len() { max_chars as int } else { s@.len() as int }).push(
            '\u{2026}',
        ),
{
    let n = if max_chars < s.len() {
        max_chars
    } else {
        s.len()
    };
    let mut out = slice_chars(s, 0, n);
    out.push('\u{2026}');
    assert(s@.subrange(0, n as int) =~= s@.take(n as int));
    out
}

/// Whether some pattern of the list matches the line.
fn any_match(patterns: &Vec<Pattern>, line: &str) -> (r: bool)
    ensures
        r == matches_any(patterns@.map_values(|p: Pattern| p@), line@),
{
    let ghost pats = patterns@.map_values(|p: Pattern| p@);
    for k in 0..patterns.len()
        invariant
            pats == patterns@.map_values(|p: Pattern| p@),
            forall|j: int| 0 <= j < k ==> !regex_matches(#[trigger] pats[j], line@),
    {
        if patterns[k].is_match(line) {
            assert(pats[k as int] == patterns@[k as int]@);
            return true;
        }
    }
    false
}

/// The lines of `text` that no pattern matches, joined by line feeds.
fn drop_matching_lines(text: &str, patterns: &Vec<Pattern>) -> (r: String)
    ensures
        r@ == join(unmatched(lines(text@), patterns@.map_values(|p: Pattern| p@)), seq!['\n']),
{
    let ghost pats = patterns@.map_values(|p: Pattern| p@);
    let ls = split_lines(&to_chars(text));
    let ghost all = views(ls@);
    let mut kept: Vec<Vec<char>> = Vec::new();
    for i in 0..ls.len()
        invariant
            all == views(ls@),
            pats == patterns@.map_values(|p: Pattern| p@),
            views(kept@) == unmatched(all.take(i as int), pats),
    {
        let ghost pre = all.take(i + 1);
        assert(pre.drop_last() =~= all.take(i as int));
        let line = from_chars(&ls[i]);
        if !any_match(patterns, line.as_str()) {
            let ghost before = views(kept@);
            kept.push(copy_chars(&ls[i]));
            assert(views(kept@) =~= before.push(all[i as int]));
        }
    }
    assert(all.take(ls@.len() as int) =~= all);
    let nl: Vec<char> = vec!['\n'];
    assert(nl@ =~= seq!['\n']);
    from_chars(&join_chars(&kept, &nl))
}

/// Every line of `text` cut to `max` characters, joined by line feeds.
fn truncate_lines(text: &str, max: usize) -> (r: String)
    ensures
        r@ == join(
            lines(text@).map_values(|l: Seq<char>| truncated_line(l, max as nat)),
            seq!['\n'],
        ),
{
    let ls = split_lines(&to_chars(text));
    let ghost all = views(ls@);
    let mut cut: Vec<Vec<char>> = Vec::new();
    for i in 0..ls.len()
        invariant
            all == views(ls@),
            views(cut@) == all.take(i as int).map_values(
                |l: Seq<char>| truncated_line(l, max as nat),
            ),
    {
        let line = if ls[i].len() > max {
            truncate(&ls[i], max)
        } else {
            copy_chars(&ls[i])
        };
        let ghost before = views(cut@);
        cut.push(line);
        assert(views(cut@) =~= before.push(truncated_line(all[i as int], max as nat)));
        assert(all.take(i + 1).map_values(|l: Seq<char>| truncated_line(l, max as nat))
            =~= all.take(i as int).map_values(|l: Seq<char>| truncated_line(l, max as nat)).push(
            truncated_line(all[i as int], max as nat),
        ));
    }
    assert(all.take(ls@.len() as int) =~= all);
    let nl: Vec<char> = vec!['\n'];
    assert(nl@ =~= seq!['\n']);
    from_chars(&join_chars(&cut, &nl))
}

/// The first `max` lines of `text` and a marker counting the rest, when it has more.
fn cap_lines(text: String, max: usize) -> (r: String)
    ensures
        r@ == (if lines(text@).len() > max {
            join(lines(text@).take(max as int), seq!['\n']) + omitted_marker(
                (lines(text@).len() - max) as nat,
            )
        } else {
            text@
        }),
{
    let ls = split_lines(&to_chars(text.as_str()));
    if ls.len() > max {
        let mut head: Vec<Vec<char>> = Vec::new();
        for i in 0..max
            invariant
                max < ls.len(),
                views(head@) == views(ls@).take(i as int),
        {
            let ghost before = views(head@);
            head.push(copy_chars(&ls[i]));
            assert(views(head@) =~= before.push(ls@[i as int]@));
            assert(views(head@) =~= views(ls@).take(i + 1));
        }
        let nl: Vec<char> = vec!['\n'];
        assert(nl@ =~= seq!['\n']);
        let mut out = from_chars(&join_chars(&head, &nl));
        out.append("\n... +");
        out.append(decimal_string((ls.len() - max) as u64).as_str());
        out.append(" more lines (truncated by tokenlens)");
        out
    } else {
        text
    }
}

/// Applies a single rule: optional ANSI stripping, dropping lines that a strip pattern
/// matches, cutting long lines, and capping the number of lines.
pub fn apply_rule(input: &str, rule: &CompiledRule) -> (r: String)
    ensures
        r@ == rule_output(input@, rule@),
{
    proof {
        use_type_invariant(rule);
    }
    let mut text: String = match &rule.ansi {
        Some(p) => p.delete_all(input),
        None => input.to_owned(),
    };
    if rule.strip_patterns.len() > 0 {
        text = drop_matching_lines(text.as_str(), &rule.strip_patterns);
    }
    match rule.truncate_lines_at {
        Some(max) => {
            text = truncate_lines(text.as_str(), max);
        },
        None => {},
    }
    match rule.max_lines {
        Some(max) => {
            text = cap_lines(text, max);
        },
        None => {},
    }
    text
}

/// ANSI escapes go before anything else: with `strip_ansi` set, a rule gives what the
/// same rule without it gives on the text whose escapes are deleted, so its strip patterns
/// see each line without its escapes; a rule that only strips escapes gives the text with
/// its escapes deleted.
pub proof fn lemma_ansi_stripped_first(s: Seq<char>, rule: RuleView)
    requires
        rule.strip_ansi,
    ensures
        rule_output(s, rule) == rule_output(
            regex_delete_all(ansi_source(), s),
            RuleView { strip_ansi: false, ..rule },
        ),
        rule.strip_patterns.len() == 0 && rule.truncate_lines_at is None && rule.max_lines is None
            ==> rule_output(s, rule) == regex_delete_all(ansi_source(), s),
{
}

} // verus!

verus! {

/// The lowercase form of a text, as `str::to_lowercase` gives it.
pub uninterp spec fn lowercase(s: Seq<char>) -> Seq<char>;

/// Whether every character is an ASCII lowercase letter.
pub open spec fn is_lowercase_word(s: Seq<char>) -> bool {
    forall|i: int| 0 <= i < s.len() ==> 'a' <= #[trigger] s[i] && s[i] <= 'z'
}

/// Calls `str::to_lowercase`. What the Unicode lowercase mapping gives is named, not
/// stated; only that a text of ASCII lowercase letters, already lowercase, comes back as it
/// is.
#[verifier::external_body]
fn to_lowercase(s: &str) -> (r: String)
    ensures
        r@ == lowercase(s@),
        is_lowercase_word(s@) ==> r@ == s@,
{
    s.to_lowercase()
}

/// The level a lowercase name stands for.
pub open spec fn level_named(name: Seq<char>) -> Option<CompressionLevel> {
    if name == seq!['n', 'o', 'n', 'e'] {
        Some(CompressionLevel::Off)
    } else if name == seq!['m', 'i', 'n', 'i', 'm', 'a', 'l'] {
        Some(CompressionLevel::Minimal)
    } else if name == seq!['a', 'g', 'g', 'r', 'e', 's', 's', 'i', 'v', 'e'] {
        Some(CompressionLevel::Aggressive)
    } else {
        None
    }
}

fn chars_are(v: &Vec<char>, w: Vec<char>) -> (r: bool)
    ensures
        r == (v@ == w@),
{
    chars_eq(v, &w)
}

impl CompressionLevel {
    /// The level for a name already in lowercase; any other name is refused with
    /// `unknown level: <name>`.
    pub fn from_lowercase(name: &str) -> (r: Result<CompressionLevel, String>)
        ensures
            level_named(name@) matches Some(l) ==> r == Ok::<CompressionLevel, String>(l),
            level_named(name@) is None ==> (r matches Err(m) && m@ == "unknown level: "@ + name@),
    {
        let cs = to_chars(name);
        if chars_are(&cs, vec!['n', 'o', 'n', 'e']) {
            Ok(CompressionLevel::Off)
        } else if chars_are(&cs, vec!['m', 'i', 'n', 'i', 'm', 'a', 'l']) {
            Ok(CompressionLevel::Minimal)
        } else if chars_are(&cs, vec!['a', 'g', 'g', 'r', 'e', 's', 's', 'i', 'v', 'e']) {
            Ok(CompressionLevel::Aggressive)
        } else {
            let mut msg = "unknown level: ".to_owned();
            msg.append(name);
            Err(msg)
        }
    }

    /// Parses a level name in any letter case: `none`, `minimal` or `aggressive`.
    pub fn from_name(s: &str) -> (r: Result<CompressionLevel, String>)
        ensures
            level_named(lowercase(s@)) matches Some(l) ==> r == Ok::<CompressionLevel, String>(l),
            level_named(lowercase(s@)) is None ==> (r matches Err(m) && m@ == "unknown level: "@
                + lowercase(s@)),
            is_lowercase_word(s@) ==> lowercase(s@) == s@,
    {
        let lower = to_lowercase(s);
        Self::from_lowercase(lower.as_str())
    }

    /// Parses a level name, falling back to the default level when it is unknown.
    pub fn from_name_or_default(s: &str) -> (r: CompressionLevel)
        ensures
            r == (match level_named(lowercase(s@)) {
                Some(l) => l,
                None => CompressionLevel::Minimal,
            }),
    {
        match Self::from_name(s) {
            Ok(l) => l,
            Err(_) => CompressionLevel::Minimal,
        }
    }
}

impl Default for CompressionLevel {
    fn default() -> (r: Self)
        ensures
            r == CompressionLevel::Minimal,
    {
        CompressionLevel::Minimal
    }
}

impl std::str::FromStr for CompressionLevel {
    type Err = String;

    fn from_str(s: &str) -> (r: Result<Self, Self::Err>)
        ensures
            level_named(lowercase(s@)) matches Some(l) ==> r == Ok::<CompressionLevel, String>(l),
            level_named(lowercase(s@)) is None ==> (r matches Err(m) && m@ == "unknown level: "@
                + lowercase(s@)),
    {
        Self::from_name(s)
    }
}

/// Compressed output and its savings, in tokens.
pub struct FilterOutcome {
    pub original_tokens: u64,
    pub compressed_tokens: u64,
    pub saved_tokens: u64,
    pub strategy: String,
    pub output: String,
}

impl FilterOutcome {
    /// Token counts for compressing `input` into `output` with the named strategy.
    pub fn from(input: &str, output: String, strategy: String) -> (r: FilterOutcome)
        ensures
            r.original_tokens == token_estimate(input@),
            r.compressed_tokens == token_estimate(output@),
            r.saved_tokens == (if r.original_tokens >= r.compressed_tokens {
                r.original_tokens - r.compressed_tokens
            } else {
                0
            }),
            r.output@ == output@,
            r.strategy@ == strategy@,
    {
        let original = approx_tokens(input);
        let compressed = approx_tokens(output.as_str());
        let saved = original.saturating_sub(compressed);
        FilterOutcome {
            original_tokens: original,
            compressed_tokens: compressed,
            saved_tokens: saved,
            strategy,
            output,
        }
    }
}

/// Index of the first rule whose command pattern matches `cmd`.
pub open spec fn first_match(rules: Seq<RuleView>, cmd: Seq<char>) -> Option<int>
    decreases rules.len(),
{
    if rules.len() == 0 {
        None
    } else {
        match first_match(rules.drop_last(), cmd) {
            Some(k) => Some(k),
            None => if regex_matches(rules.last().match_command, cmd) {
                Some(rules.len() - 1)
            } else {
                None
            },
        }
    }
}

/// An ordered registry of filter rules.
pub struct FilterRules {
    rules: Vec<CompiledRule>,
}

impl View for FilterRules {
    type V = Seq<RuleView>;

    closed spec fn view(&self) -> Seq<RuleView> {
        self.rules@.map_values(|r: CompiledRule| r@)
    }
}

impl FilterRules {
    /// A registry holding the rules in the given order.
    pub fn new(rules: Vec<CompiledRule>) -> (r: FilterRules)
        ensures
            r@ == rules@.map_values(|x: CompiledRule| x@),
    {
        FilterRules { rules }
    }

    /// A registry with no rules.
    pub fn empty() -> (r: FilterRules)
        ensures
            r@.len() == 0,
    {
        let r = FilterRules { rules: Vec::new() };
        assert(r@ =~= Seq::<RuleView>::empty());
        r
    }

    /// The number of rules.
    pub fn len(&self) -> (r: usize)
        ensures
            r == self@.len(),
    {
        self.rules.len()
    }

    /// The first rule whose command pattern matches `cmd`.
    pub fn match_cmd(&self, cmd: &str) -> (r: Option<&CompiledRule>)
        ensures
            first_match(self@, cmd@) is None ==> r is None,
            first_match(self@, cmd@) matches Some(k) ==> (r matches Some(rule) && rule@ == self@[k]),
    {
        let ghost all = self@;
        for i in 0..self.rules.len()
            invariant
                all == self.rules@.map_values(|x: CompiledRule| x@),
                first_match(all.take(i as int), cmd@) is None,
        {
            let ghost pre = all.take(i + 1);
            assert(pre.drop_last() =~= all.take(i as int));
            if self.rules[i].matches_command(cmd) {
                proof {
                    lemma_first_match_prefix(all, cmd@, i + 1);
                }
                return Some(&self.rules[i]);
            }
        }
        assert(all.take(self.rules@.len() as int) =~= all);
        None
    }
}

proof fn lemma_first_match_prefix(rules: Seq<RuleView>, cmd: Seq<char>, n: int)
    requires
        0 <= n <= rules.len(),
        first_match(rules.take(n), cmd) is Some,
    ensures
        first_match(rules, cmd) == first_match(rules.take(n), cmd),
    decreases rules.len() - n,
{
    if n < rules.len() {
        assert(rules.take(n + 1).take(n) =~= rules.take(n));
        assert(rules.take(n + 1).drop_last() =~= rules.take(n));
        lemma_first_match_prefix(rules, cmd, n + 1);
    } else {
        assert(rules.take(n) =~= rules);
    }
}

/// What compressing `input` under the command hint `command` at `level` with the given
/// rules gives: no compression at `Off`; else the first rule whose command pattern matches
/// the hint; else the structural pass. Token counts as `FilterOutcome::from` makes them.
pub open spec fn compressed_as(
    input: Seq<char>,
    command: Option<Seq<char>>,
    level: CompressionLevel,
    rules: Seq<RuleView>,
    r: FilterOutcome,
) -> bool {
    &&& r.original_tokens == token_estimate(input)
    &&& r.compressed_tokens == token_estimate(r.output@)
    &&& r.saved_tokens == (if r.original_tokens >= r.compressed_tokens {
        r.original_tokens - r.compressed_tokens
    } else {
        0
    })
    &&& level == CompressionLevel::Off ==> r.output@ == input && r.strategy@ == "none"@
    &&& level != CompressionLevel::Off ==> match command {
        Some(cmd) => match first_match(rules, cmd) {
            Some(k) => r.output@ == rule_output(input, rules[k]) && r.strategy@ == "rule:"@
                + rules[k].name,
            None => r.output@ == structural(input, level) && r.strategy@ == "structural"@,
        },
        None => r.output@ == structural(input, level) && r.strategy@ == "structural"@,
    }
}

/// Top-level entry point: no compression at level `Off`; else the first registered rule
/// whose command pattern matches `command`; else the structural pass.
pub fn compress_text(
    input: &str,
    command: Option<&str>,
    level: CompressionLevel,
    rules: &FilterRules,
) -> (r: FilterOutcome)
    ensures
        compressed_as(
            input@,
            match command {
                Some(c) => Some(c@),
                None => None,
            },
            level,
            rules@,
            r,
        ),
{
    if let CompressionLevel::Off = level {
        return FilterOutcome::from(input, input.to_owned(), "none".to_owned());
    }
    if let Some(cmd) = command {
        if let Some(rule) = rules.match_cmd(cmd) {
            let out = apply_rule(input, rule);
            let mut strategy = "rule:".to_owned();
            strategy.append(rule.name());
            return FilterOutcome::from(input, out, strategy);
        }
    }
    let out = structural_pass(input, level);
    FilterOutcome::from(input, out, "structural".to_owned())
}

} // verus!

verus! {

/// At level `Off` the text comes back unchanged and nothing is saved.
pub proof fn lemma_off_is_identity(
    input: Seq<char>,
    command: Option<Seq<char>>,
    rules: Seq<RuleView>,
    r: FilterOutcome,
)
    requires
        compressed_as(input, command, CompressionLevel::Off, rules, r),
    ensures
        r.output@ == input,
        r.saved_tokens == 0,
{
}

/// Compression never reports more saved tokens than the input had.
pub proof fn lemma_saved_within_input(
    input: Seq<char>,
    command: Option<Seq<char>>,
    level: CompressionLevel,
    rules: Seq<RuleView>,
    r: FilterOutcome,
)
    requires
        compressed_as(input, command, level, rules, r),
    ensures
        r.saved_tokens <= r.original_tokens,
        r.saved_tokens + r.compressed_tokens >= r.original_tokens,
{
}

/// The lines that are not blank.
pub open spec fn nonblank_lines(ls: Seq<Seq<char>>) -> Seq<Seq<char>>
    decreases ls.len(),
{
    if ls.len() == 0 {
        seq![]
    } else if is_blank(ls.last()) {
        nonblank_lines(ls.drop_last())
    } else {
        nonblank_lines(ls.drop_last()).push(ls.last())
    }
}

/// The structural pass keeps every non-blank line, trimmed, in order; every line it keeps
/// has no trailing whitespace.
pub proof fn lemma_structural_keeps_content(ls: Seq<Seq<char>>, limit: nat)
    ensures
        nonblank_lines(kept_lines(ls, limit)) == nonblank_lines(ls).map_values(
            |l: Seq<char>| trim_end(l),
        ),
        forall|i: int|
            0 <= i < kept_lines(ls, limit).len() ==> trim_end(#[trigger] kept_lines(ls, limit)[i])
                == kept_lines(ls, limit)[i],
    decreases ls.len(),
{
    if ls.len() > 0 {
        let prev = ls.drop_last();
        lemma_structural_keeps_content(prev, limit);
        crate::text::lemma_trim_end(ls.last());
        let k = kept_lines(ls, limit);
        let kp = kept_lines(prev, limit);
        let t = trim_end(ls.last());
        assert(is_blank(t) == is_blank(ls.last()));
        if !(is_blank(ls.last()) && blank_run(ls) > limit) {
            assert(k == kp.push(t));
            assert(k.drop_last() =~= kp);
            if is_blank(ls.last()) {
                assert(nonblank_lines(k) == nonblank_lines(kp));
            } else {
                assert(nonblank_lines(k) == nonblank_lines(kp).push(t));
                assert(nonblank_lines(ls).map_values(|l: Seq<char>| trim_end(l)) =~= nonblank_lines(
                    prev,
                ).map_values(|l: Seq<char>| trim_end(l)).push(t));
            }
            assert forall|i: int| 0 <= i < k.len() implies trim_end(#[trigger] k[i]) == k[i] by {
                if i < kp.len() {
                    assert(k[i] == kp[i]);
                }
            }
        }
    }
}

/// At level `Minimal` no two blank lines follow each other in what the structural pass
/// keeps; at level `Aggressive` it keeps no blank line at all.
pub proof fn lemma_structural_blank_runs(ls: Seq<Seq<char>>)
    ensures
        forall|i: int|
            0 <= i < kept_lines(ls, 1).len() - 1 ==> !(is_blank(#[trigger] kept_lines(ls, 1)[i])
                && is_blank(kept_lines(ls, 1)[i + 1])),
        forall|i: int|
            0 <= i < kept_lines(ls, 0).len() ==> !is_blank(#[trigger] kept_lines(ls, 0)[i]),
    decreases ls.len(),
{
    if ls.len() > 0 {
        let prev = ls.drop_last();
        lemma_structural_blank_runs(prev);
        lemma_structural_keeps_content(prev, 1);
        crate::text::lemma_trim_end(ls.last());
        let t = trim_end(ls.last());
        let k1 = kept_lines(ls, 1);
        let p1 = kept_lines(prev, 1);
        let k0 = kept_lines(ls, 0);
        let p0 = kept_lines(prev, 0);
        assert(is_blank(t) == is_blank(ls.last()));
        if !(is_blank(ls.last()) && blank_run(ls) > 1) {
            assert(k1 == p1.push(t));
            if is_blank(t) && p1.len() > 0 {
                assert(blank_run(ls) == 1);
                assert(prev.len() > 0);
                assert(!is_blank(prev.last()));
                lemma_last_kept(prev, 1);
            }
            assert forall|i: int| 0 <= i < k1.len() - 1 implies !(is_blank(#[trigger] k1[i])
                && is_blank(k1[i + 1])) by {
                assert(k1[i] == p1[i]);
                if i + 1 < p1.len() {
                    assert(k1[i + 1] == p1[i + 1]);
                }
            }
        }
        if !(is_blank(ls.last()) && blank_run(ls) > 0) {
            assert(k0 == p0.push(t));
            assert forall|i: int| 0 <= i < k0.len() implies !is_blank(#[trigger] k0[i]) by {
                if i < p0.len() {
                    assert(k0[i] == p0[i]);
                }
            }
        }
    }
}

proof fn lemma_last_kept(ls: Seq<Seq<char>>, limit: nat)
    requires
        ls.len() > 0,
        !is_blank(ls.last()),
    ensures
        kept_lines(ls, limit).len() > 0,
        kept_lines(ls, limit).last() == trim_end(ls.last()),
        !is_blank(kept_lines(ls, limit).last()),
{
    crate::text::lemma_trim_end(ls.last());
}

/// The lines that a sequence of runs stands for.
pub open spec fn expand(rs: Seq<(Seq<char>, nat)>) -> Seq<Seq<char>>
    decreases rs.len(),
{
    if rs.len() == 0 {
        seq![]
    } else {
        expand(rs.drop_last()) + Seq::new(rs.last().1, |_i: int| rs.last().0)
    }
}

/// Collapsing repeats loses nothing: the runs stand for exactly the original lines, each
/// run counts at least one line, and neighbouring runs hold different lines.
pub proof fn lemma_runs_lossless(ls: Seq<Seq<char>>)
    ensures
        expand(runs(ls)) == ls,
        forall|i: int| 0 <= i < runs(ls).len() ==> #[trigger] runs(ls)[i].1 >= 1,
        forall|i: int|
            0 <= i < runs(ls).len() - 1 ==> #[trigger] runs(ls)[i].0 != runs(ls)[i + 1].0,
    decreases ls.len(),
{
    if ls.len() > 0 {
        let prev = ls.drop_last();
        lemma_runs_lossless(prev);
        let r = runs(prev);
        let l = ls.last();
        if r.len() > 0 && r.last().0 == l {
            let c = r.last().1;
            let r2 = r.update(r.len() - 1, (l, c + 1));
            assert(r2.drop_last() =~= r.drop_last());
            assert(Seq::new(c + 1, |_i: int| l) =~= Seq::new(c, |_i: int| l).push(l));
            assert(expand(r2) =~= expand(r).push(l));
            assert(ls =~= prev.push(l));
            assert forall|i: int| 0 <= i < r2.len() - 1 implies #[trigger] r2[i].0 != r2[i + 1].0 by {
                assert(r2[i] == r[i]);
                if i + 1 < r.len() - 1 {
                    assert(r2[i + 1] == r[i + 1]);
                }
            }
        } else {
            let r2 = r.push((l, 1));
            assert(r2.drop_last() =~= r);
            assert(Seq::new(1, |_i: int| l) =~= seq![l]);
            assert(ls =~= prev.push(l));
            assert(expand(r2) =~= expand(r).push(l));
            assert forall|i: int| 0 <= i < r2.len() - 1 implies #[trigger] r2[i].0 != r2[i + 1].0 by {
                assert(r2[i] == r[i]);
                if i + 1 < r.len() {
                    assert(r2[i + 1] == r[i + 1]);
                }
            }
        }
    }
}

} // verus!

verus! {

/// The structural pass leaves no trailing whitespace at the end of its output.
pub proof fn lemma_structural_trimmed(s: Seq<char>, level: CompressionLevel)
    ensures
        trim_end(structural(s, level)) == structural(s, level),
{
    let body = terminated(kept_lines(lines(s), blank_limit(level)));
    if level == CompressionLevel::Aggressive {
        crate::text::lemma_trim_end(collapsed(body));
    } else {
        crate::text::lemma_trim_end(body);
    }
}

} // verus!

verus! {

proof fn lemma_marker_shape(n: nat)
    ensures
        newline_count(omitted_marker(n)) == 1,
        omitted_marker(n).len() > 0,
        omitted_marker(n).last() == ')',
{
    let a = "\n... +"@;
    let b = " more lines (truncated by tokenlens)"@;
    reveal_strlit("\n... +");
    reveal_strlit(" more lines (truncated by tokenlens)");
    let d = decimal(n);
    lemma_decimal_digits(n);
    assert(a == seq!['\n'] + a.skip(1));
    lemma_newline_free(a.skip(1));
    lemma_newline_count_add(seq!['\n'], a.skip(1));
    lemma_newline_count_one('\n');
    lemma_newline_free(d);
    lemma_newline_free(b);
    lemma_newline_count_add(a, d);
    lemma_newline_count_add(a + d, b);
    assert(omitted_marker(n) == a + d + b);
    assert((a + d + b).last() == b.last());
}

/// A rule that caps the number of lines at `m >= 1` leaves at most `m + 1` lines: the
/// first `m` and the marker that counts the rest.
pub proof fn lemma_cap_bounds_lines(s: Seq<char>, rule: RuleView)
    requires
        rule.max_lines matches Some(m) && m >= 1,
    ensures
        lines(after_cap(s, rule)).len() <= rule.max_lines->0 + 1,
{
    let m = rule.max_lines->0;
    let ls = lines(s);
    lemma_lines_count(s);
    if ls.len() > m {
        let head = ls.take(m as int);
        assert forall|i: int, j: int|
            0 <= i < head.len() && 0 <= j < head[i].len() implies #[trigger] head[i][j] != '\n' by {
            assert(head[i] == ls[i]);
        }
        lemma_join_newlines(head);
        let n = (ls.len() - m) as nat;
        lemma_marker_shape(n);
        let out = join(head, seq!['\n']) + omitted_marker(n);
        lemma_newline_count_add(join(head, seq!['\n']), omitted_marker(n));
        lemma_lines_count(out);
        assert(out.last() == ')');
    }
}

} // verus!

verus! {

/// Every line is trimmed and holds no line feed.
pub open spec fn clean_lines(ls: Seq<Seq<char>>) -> bool {
    forall|i: int|
        0 <= i < ls.len() ==> trim_end(#[trigger] ls[i]) == ls[i] && forall|j: int|
            0 <= j < ls[i].len() ==> ls[i][j] != '\n'
}

/// No two neighbouring lines are both blank.
pub open spec fn no_double_blank(ls: Seq<Seq<char>>) -> bool {
    forall|i: int| 0 <= i < ls.len() - 1 ==> !(is_blank(#[trigger] ls[i]) && is_blank(ls[i + 1]))
}

/// The lines without the empty lines at the end.
pub open spec fn strip_tail(ls: Seq<Seq<char>>) -> Seq<Seq<char>>
    decreases ls.len(),
{
    if ls.len() > 0 && ls.last().len() == 0 {
        strip_tail(ls.drop_last())
    } else {
        ls
    }
}

proof fn lemma_strip_tail(ls: Seq<Seq<char>>)
    requires
        clean_lines(ls),
        no_double_blank(ls),
    ensures
        clean_lines(strip_tail(ls)),
        no_double_blank(strip_tail(ls)),
        strip_tail(ls).len() == 0 || strip_tail(ls).last().len() > 0,
        strip_tail(strip_tail(ls)) == strip_tail(ls),
    decreases ls.len(),
{
    if ls.len() > 0 && ls.last().len() == 0 {
        let p = ls.drop_last();
        assert forall|i: int| 0 <= i < p.len() implies trim_end(#[trigger] p[i]) == p[i] && forall|j: int|
            0 <= j < p[i].len() ==> p[i][j] != '\n' by {
            assert(p[i] == ls[i]);
        }
        assert forall|i: int| 0 <= i < p.len() - 1 implies !(is_blank(#[trigger] p[i]) && is_blank(p[i + 1])) by {
            assert(p[i] == ls[i]);
            assert(p[i + 1] == ls[i + 1]);
        }
        lemma_strip_tail(p);
    }
}

proof fn lemma_terminated_join(ls: Seq<Seq<char>>)
    requires
        ls.len() > 0,
    ensures
        terminated(ls) == join(ls, seq!['\n']) + seq!['\n'],
    decreases ls.len(),
{
    if ls.len() > 1 {
        lemma_terminated_join(ls.drop_last());
        assert(terminated(ls) =~= join(ls, seq!['\n']) + seq!['\n']);
    } else {
        assert(ls.drop_last() =~= Seq::<Seq<char>>::empty());
        assert(terminated(ls.drop_last()) =~= Seq::<char>::empty());
        assert(join(ls, seq!['\n']) == ls[0]);
        assert(terminated(ls) =~= join(ls, seq!['\n']) + seq!['\n']);
    }
}

proof fn lemma_trim_terminated(ls: Seq<Seq<char>>)
    requires
        clean_lines(ls),
    ensures
        trim_end(terminated(ls)) == join(strip_tail(ls), seq!['\n']),
    decreases ls.len(),
{
    if ls.len() > 0 {
        let p = ls.drop_last();
        let k = ls.last();
        assert(trim_end(ls[ls.len() - 1]) == ls[ls.len() - 1]);
        let t = terminated(p) + k.push('\n');
        assert(t.drop_last() =~= terminated(p) + k);
        assert(is_ws(t.last()));
        assert(trim_end(t) == trim_end(terminated(p) + k));
        if k.len() == 0 {
            assert(terminated(p) + k =~= terminated(p));
            assert forall|i: int| 0 <= i < p.len() implies trim_end(#[trigger] p[i]) == p[i] && forall|j: int|
                0 <= j < p[i].len() ==> p[i][j] != '\n' by {
                assert(p[i] == ls[i]);
            }
            lemma_trim_terminated(p);
        } else {
            crate::text::lemma_trim_end(k);
            assert(!is_ws(k.last()));
            assert((terminated(p) + k).last() == k.last());
            assert(trim_end(terminated(p) + k) == terminated(p) + k);
            if p.len() > 0 {
                lemma_terminated_join(p);
                assert(terminated(p) + k =~= join(p, seq!['\n']) + seq!['\n'] + k);
            } else {
                assert(terminated(p) + k =~= k);
            }
        }
    } else {
        assert(terminated(ls) =~= Seq::<char>::empty());
    }
}

pub(crate) proof fn lemma_join_front(x: Seq<char>, r: Seq<Seq<char>>)
    requires
        r.len() > 0,
    ensures
        join(seq![x] + r, seq!['\n']) == x + seq!['\n'] + join(r, seq!['\n']),
    decreases r.len(),
{
    let l = seq![x] + r;
    if r.len() == 1 {
        assert(l.drop_last() =~= seq![x]);
        assert(join(seq![x], seq!['\n']) == x);
        assert(l.last() == r[0]);
        assert(join(r, seq!['\n']) == r[0]);
        assert(join(l, seq!['\n']) =~= x + seq!['\n'] + join(r, seq!['\n']));
    } else {
        lemma_join_front(x, r.drop_last());
        assert(l.drop_last() =~= seq![x] + r.drop_last());
        assert(join(l, seq!['\n']) =~= x + seq!['\n'] + join(r, seq!['\n']));
    }
}

proof fn lemma_join_nonempty(ls: Seq<Seq<char>>)
    requires
        ls.len() > 0,
        ls.last().len() > 0,
    ensures
        join(ls, seq!['\n']).len() > 0,
{
}

proof fn lemma_lines_of_join(ls: Seq<Seq<char>>)
    requires
        clean_lines(ls),
        ls.len() == 0 || ls.last().len() > 0,
    ensures
        lines(join(ls, seq!['\n'])) == ls,
    decreases ls.len(),
{
    if ls.len() == 0 {
        assert(join(ls, seq!['\n']) =~= Seq::<char>::empty());
    } else {
        let x = ls[0];
        assert(trim_end(ls[0]) == ls[0]);
        crate::text::lemma_trim_end(x);
        if ls.len() == 1 {
            crate::text::lemma_newline_pos_is(x, x.len() as int);
            assert(lines(x) == seq![x]);
            assert(lines(join(ls, seq!['\n'])) =~= ls);
        } else {
            let r = ls.skip(1);
            assert(ls =~= seq![x] + r);
            assert forall|i: int| 0 <= i < r.len() implies trim_end(#[trigger] r[i]) == r[i] && forall|j: int|
                0 <= j < r[i].len() ==> r[i][j] != '\n' by {
                assert(r[i] == ls[i + 1]);
            }
            assert(r.last() == ls.last());
            lemma_lines_of_join(r);
            lemma_join_front(x, r);
            lemma_join_nonempty(r);
            let s = x + seq!['\n'] + join(r, seq!['\n']);
            crate::text::lemma_newline_pos_is(s, x.len() as int);
            assert(s.take(x.len() as int) =~= x);
            assert(s.skip(x.len() + 1int) =~= join(r, seq!['\n']));
            if x.len() > 0 {
                assert(x.last() != '\r');
            }
            assert(strip_cr(x) == x);
            assert(lines(s) =~= seq![x] + r);
        }
    }
}

proof fn lemma_kept_identity(ls: Seq<Seq<char>>)
    requires
        clean_lines(ls),
        no_double_blank(ls),
    ensures
        kept_lines(ls, 1) == ls,
        blank_run(ls) <= 1,
    decreases ls.len(),
{
    if ls.len() > 0 {
        let p = ls.drop_last();
        assert forall|i: int| 0 <= i < p.len() implies trim_end(#[trigger] p[i]) == p[i] && forall|j: int|
            0 <= j < p[i].len() ==> p[i][j] != '\n' by {
            assert(p[i] == ls[i]);
        }
        assert forall|i: int| 0 <= i < p.len() - 1 implies !(is_blank(#[trigger] p[i]) && is_blank(p[i + 1])) by {
            assert(p[i] == ls[i]);
            assert(p[i + 1] == ls[i + 1]);
        }
        lemma_kept_identity(p);
        assert(trim_end(ls[ls.len() - 1]) == ls[ls.len() - 1]);
        if is_blank(ls.last()) && p.len() > 0 {
            assert(!is_blank(ls[ls.len() - 2]));
            assert(p.last() == ls[ls.len() - 2]);
        }
        assert(p.push(ls.last()) =~= ls);
    }
}

proof fn lemma_kept_clean(ls: Seq<Seq<char>>, limit: nat)
    requires
        forall|i: int, j: int| 0 <= i < ls.len() && 0 <= j < ls[i].len() ==> #[trigger] ls[i][j] != '\n',
    ensures
        clean_lines(kept_lines(ls, limit)),
    decreases ls.len(),
{
    if ls.len() > 0 {
        let p = ls.drop_last();
        assert forall|i: int, j: int| 0 <= i < p.len() && 0 <= j < p[i].len() implies #[trigger] p[i][j] != '\n' by {
            assert(p[i] == ls[i]);
        }
        lemma_kept_clean(p, limit);
        lemma_structural_keeps_content(ls, limit);
        let k = kept_lines(ls, limit);
        let kp = kept_lines(p, limit);
        let last = ls.last();
        crate::text::lemma_trim_end(last);
        assert forall|i: int| 0 <= i < k.len() implies trim_end(#[trigger] k[i]) == k[i] && forall|j: int|
            0 <= j < k[i].len() ==> k[i][j] != '\n' by {
            if i < kp.len() {
                assert(k[i] == kp[i]);
            } else {
                assert(k[i] == trim_end(last));
                assert forall|j: int| 0 <= j < k[i].len() implies k[i][j] != '\n' by {
                    assert(k[i][j] == last[j]);
                    assert(ls[ls.len() - 1][j] != '\n');
                }
            }
        }
    }
}

/// At levels `Off` and `Minimal` the structural pass is idempotent: running it on its own
/// output changes nothing.
pub proof fn lemma_structural_idempotent(s: Seq<char>, level: CompressionLevel)
    requires
        level != CompressionLevel::Aggressive,
    ensures
        structural(structural(s, level), level) == structural(s, level),
{
    let ls = lines(s);
    crate::text::lemma_lines_count(s);
    let k = kept_lines(ls, 1);
    lemma_kept_clean(ls, 1);
    lemma_structural_blank_runs(ls);
    lemma_trim_terminated(k);
    lemma_strip_tail(k);
    let k2 = strip_tail(k);
    let out = join(k2, seq!['\n']);
    assert(structural(s, level) == out);
    lemma_lines_of_join(k2);
    lemma_kept_identity(k2);
    lemma_trim_terminated(k2);
}

} // verus!

verus! {

/// A line as the structural pass keeps it at `Aggressive`: trimmed, without line feed,
/// and not blank.
spec fn plain_line(l: Seq<char>) -> bool {
    &&& trim_end(l) == l
    &&& !is_blank(l)
    &&& forall|j: int| 0 <= j < l.len() ==> l[j] != '\n'
}

/// Whether the lines at `i` and `i + 1` are equal.
spec fn repeated_at(ls: Seq<Seq<char>>, i: int) -> bool {
    ls[i] == ls[i + 1]
}

proof fn lemma_terminated_front(x: Seq<char>, r: Seq<Seq<char>>)
    ensures
        terminated(seq![x] + r) == x.push('\n') + terminated(r),
    decreases r.len(),
{
    let l = seq![x] + r;
    if r.len() == 0 {
        assert(l.drop_last() =~= Seq::<Seq<char>>::empty());
        assert(l.last() == x);
        assert(terminated(l.drop_last()) =~= Seq::<char>::empty());
        assert(terminated(r) =~= Seq::<char>::empty());
        assert(terminated(l) =~= x.push('\n') + terminated(r));
    } else {
        lemma_terminated_front(x, r.drop_last());
        assert(l.drop_last() =~= seq![x] + r.drop_last());
        assert(l.last() == r.last());
        assert(terminated(l) == terminated(seq![x] + r.drop_last()) + r.last().push('\n'));
        assert(terminated(r) == terminated(r.drop_last()) + r.last().push('\n'));
        assert(terminated(l) =~= x.push('\n') + terminated(r));
    }
}

proof fn lemma_lines_of_terminated(ls: Seq<Seq<char>>)
    requires
        clean_lines(ls),
    ensures
        lines(terminated(ls)) == ls,
    decreases ls.len(),
{
    if ls.len() == 0 {
        assert(terminated(ls) =~= Seq::<char>::empty());
    } else {
        let x = ls[0];
        let r = ls.skip(1);
        assert(ls =~= seq![x] + r);
        assert(trim_end(ls[0]) == ls[0]);
        crate::text::lemma_trim_end(x);
        assert forall|i: int| 0 <= i < r.len() implies trim_end(#[trigger] r[i]) == r[i] && forall|j: int|
            0 <= j < r[i].len() ==> r[i][j] != '\n' by {
            assert(r[i] == ls[i + 1]);
        }
        lemma_lines_of_terminated(r);
        lemma_terminated_front(x, r);
        let s = x.push('\n') + terminated(r);
        assert forall|j: int| 0 <= j < x.len() implies s[j] != '\n' by {
            assert(s[j] == x[j]);
            assert(ls[0][j] != '\n');
        }
        crate::text::lemma_newline_pos_is(s, x.len() as int);
        assert(s.take(x.len() as int) =~= x);
        assert(s.skip(x.len() + 1int) =~= terminated(r));
        if x.len() > 0 {
            assert(x.last() != '\r');
        }
        assert(strip_cr(x) == x);
        assert(lines(s) =~= seq![x] + r);
    }
}

proof fn lemma_runs_plain(ls: Seq<Seq<char>>)
    requires
        forall|i: int| 0 <= i < ls.len() ==> plain_line(#[trigger] ls[i]),
    ensures
        forall|i: int| 0 <= i < runs(ls).len() ==> plain_line(#[trigger] runs(ls)[i].0),
    decreases ls.len(),
{
    if ls.len() > 0 {
        let p = ls.drop_last();
        assert forall|i: int| 0 <= i < p.len() implies plain_line(#[trigger] p[i]) by {
            assert(p[i] == ls[i]);
        }
        lemma_runs_plain(p);
        let r = runs(p);
        let r2 = runs(ls);
        assert(plain_line(ls[ls.len() - 1]));
        assert forall|i: int| 0 <= i < r2.len() implies plain_line(#[trigger] r2[i].0) by {
            if i < r.len() && r2[i] != r[i] {
                assert(r2[i].0 == ls.last());
            } else if i >= r.len() {
                assert(r2[i].0 == ls.last());
            }
        }
    }
}

proof fn lemma_render_plain(run: (Seq<char>, nat))
    requires
        plain_line(run.0),
    ensures
        plain_line(render_run(run)),
{
    if run.1 > 1 {
        let e = render_run(run);
        let d = decimal(run.1);
        lemma_decimal_digits(run.1);
        let n0 = run.0.len();
        assert(e == run.0 + seq![' ', '(', 'x'] + d + seq![')']);
        assert(e.len() == n0 + 3 + d.len() + 1);
        assert(e.last() == ')');
        assert(!is_ws(')'));
        assert(trim_end(e) == e);
        assert forall|j: int| 0 <= j < e.len() implies e[j] != '\n' by {
            if j < n0 {
                assert(e[j] == run.0[j]);
            } else if n0 + 3 <= j < n0 + 3 + d.len() {
                assert(e[j] == d[j - n0 - 3]);
            }
        }
    }
}

proof fn lemma_join_last(ls: Seq<Seq<char>>)
    requires
        ls.len() > 0,
        ls.last().len() > 0,
    ensures
        join(ls, seq!['\n']).len() > 0,
        join(ls, seq!['\n']).last() == ls.last().last(),
{
    if ls.len() > 1 {
        let j = join(ls.drop_last(), seq!['\n']) + seq!['\n'] + ls.last();
        assert(j.last() == ls.last().last());
    }
}

proof fn lemma_nonblank_all(ls: Seq<Seq<char>>)
    requires
        forall|i: int| 0 <= i < ls.len() ==> !is_blank(#[trigger] ls[i]),
    ensures
        nonblank_lines(ls) == ls,
    decreases ls.len(),
{
    if ls.len() > 0 {
        let p = ls.drop_last();
        assert forall|i: int| 0 <= i < p.len() implies !is_blank(#[trigger] p[i]) by {
            assert(p[i] == ls[i]);
        }
        lemma_nonblank_all(p);
        assert(!is_blank(ls[ls.len() - 1]));
        assert(p.push(ls.last()) =~= ls);
    }
}

proof fn lemma_runs_len(ls: Seq<Seq<char>>)
    ensures
        runs(ls).len() <= ls.len(),
        ls.len() > 0 ==> runs(ls).len() > 0 && runs(ls).last().0 == ls.last(),
        runs(ls).len() < ls.len() <==> exists|i: int|
            0 <= i < ls.len() - 1 && #[trigger] repeated_at(ls, i),
    decreases ls.len(),
{
    if ls.len() > 0 {
        let p = ls.drop_last();
        lemma_runs_len(p);
        let r = runs(p);
        if exists|i: int| 0 <= i < ls.len() - 1 && #[trigger] repeated_at(ls, i) {
            let i = choose|i: int| 0 <= i < ls.len() - 1 && #[trigger] repeated_at(ls, i);
            if i + 1 < p.len() {
                assert(p[i] == ls[i] && p[i + 1] == ls[i + 1]);
                assert(repeated_at(p, i));
            } else {
                assert(p.last() == ls[i]);
            }
        } else {
            assert forall|i: int| 0 <= i < p.len() - 1 implies !#[trigger] repeated_at(p, i) by {
                assert(p[i] == ls[i] && p[i + 1] == ls[i + 1]);
                assert(!repeated_at(ls, i));
            }
            if p.len() > 0 {
                assert(p.last() == ls[ls.len() - 2]);
                assert(!repeated_at(ls, ls.len() - 2));
            }
        }
    }
}

/// At `Aggressive`, the structural pass writes one line for each run of equal lines that
/// it keeps, and every line it keeps is trimmed, free of line feeds and not blank.
proof fn lemma_aggressive_lines(s: Seq<char>)
    ensures
        lines(structural(s, CompressionLevel::Aggressive)) == runs(
            kept_lines(lines(s), 0),
        ).map_values(|r: (Seq<char>, nat)| render_run(r)),
        forall|i: int|
            0 <= i < kept_lines(lines(s), 0).len() ==> plain_line(
                #[trigger] kept_lines(lines(s), 0)[i],
            ),
        forall|i: int|
            0 <= i < lines(structural(s, CompressionLevel::Aggressive)).len() ==> plain_line(
                #[trigger] lines(structural(s, CompressionLevel::Aggressive))[i],
            ),
{
    let ls = lines(s);
    crate::text::lemma_lines_count(s);
    let k = kept_lines(ls, 0);
    lemma_kept_clean(ls, 0);
    lemma_structural_blank_runs(ls);
    assert forall|i: int| 0 <= i < k.len() implies plain_line(#[trigger] k[i]) by {
        assert(trim_end(k[i]) == k[i]);
        assert(!is_blank(k[i]));
    }
    lemma_lines_of_terminated(k);
    let body = terminated(k);
    lemma_runs_plain(k);
    let rr = runs(k).map_values(|r: (Seq<char>, nat)| render_run(r));
    assert forall|i: int| 0 <= i < rr.len() implies plain_line(#[trigger] rr[i]) by {
        lemma_render_plain(runs(k)[i]);
    }
    assert(collapsed(body) == join(rr, seq!['\n']));
    assert forall|i: int| 0 <= i < rr.len() implies trim_end(#[trigger] rr[i]) == rr[i] && forall|j: int|
        0 <= j < rr[i].len() ==> rr[i][j] != '\n' by {
        assert(plain_line(rr[i]));
    }
    let out = join(rr, seq!['\n']);
    if rr.len() > 0 {
        assert(plain_line(rr[rr.len() - 1]));
        assert(rr.last().len() > 0);
        crate::text::lemma_trim_end(rr.last());
        lemma_join_last(rr);
        assert(!is_ws(out.last()));
        assert(trim_end(out) == out);
    } else {
        assert(out =~= Seq::<char>::empty());
    }
    assert(structural(s, CompressionLevel::Aggressive) == out);
    lemma_lines_of_join(rr);
}

/// With no rule for the command, compressing at `Aggressive` keeps no blank line and
/// writes each group of neighbouring non-blank lines that are equal once trimmed as a
/// single line: the output never has more lines than the input has non-blank lines, and
/// it has fewer exactly when two neighbouring non-blank lines of the input are equal once
/// trimmed.
pub proof fn lemma_aggressive_drops_blanks_and_repeats(
    input: Seq<char>,
    command: Option<Seq<char>>,
    rules: Seq<RuleView>,
    r: FilterOutcome,
)
    requires
        compressed_as(input, command, CompressionLevel::Aggressive, rules, r),
        match command {
            Some(c) => first_match(rules, c) is None,
            None => true,
        },
    ensures
        forall|i: int|
            0 <= i < lines(r.output@).len() ==> !is_blank(#[trigger] lines(r.output@)[i]),
        lines(r.output@).len() <= nonblank_lines(lines(input)).len(),
        lines(r.output@).len() < nonblank_lines(lines(input)).len() <==> exists|i: int|
            0 <= i < nonblank_lines(lines(input)).len() - 1 && #[trigger] trim_end(
                nonblank_lines(lines(input))[i],
            ) == trim_end(nonblank_lines(lines(input))[i + 1]),
{
    let out = structural(input, CompressionLevel::Aggressive);
    assert(r.output@ == out);
    lemma_aggressive_lines(input);
    let ls = lines(input);
    let k = kept_lines(ls, 0);
    let l = nonblank_lines(ls);
    lemma_structural_keeps_content(ls, 0);
    lemma_nonblank_all(k);
    assert(k == l.map_values(|x: Seq<char>| trim_end(x)));
    lemma_runs_len(k);
    assert forall|i: int| 0 <= i < lines(out).len() implies !is_blank(#[trigger] lines(out)[i]) by {
        assert(plain_line(lines(out)[i]));
    }
    if exists|i: int| 0 <= i < l.len() - 1 && #[trigger] trim_end(l[i]) == trim_end(l[i + 1]) {
        let i = choose|i: int| 0 <= i < l.len() - 1 && #[trigger] trim_end(l[i]) == trim_end(l[i + 1]);
        assert(k[i] == trim_end(l[i]) && k[i + 1] == trim_end(l[i + 1]));
        assert(repeated_at(k, i));
    }
    if exists|i: int| 0 <= i < k.len() - 1 && #[trigger] repeated_at(k, i) {
        let i = choose|i: int| 0 <= i < k.len() - 1 && #[trigger] repeated_at(k, i);
        assert(k[i] == trim_end(l[i]) && k[i + 1] == trim_end(l[i + 1]));
        assert(trim_end(l[i]) == trim_end(l[i + 1]));
    }
}

proof fn lemma_strip_tail_nonblank(ls: Seq<Seq<char>>)
    ensures
        nonblank_lines(strip_tail(ls)) == nonblank_lines(ls),
    decreases ls.len(),
{
    if ls.len() > 0 && ls.last().len() == 0 {
        assert(is_blank(ls.last()));
        lemma_strip_tail_nonblank(ls.drop_last());
    }
}

/// With no rule for the command, compressing at `Minimal` keeps every non-blank line of
/// the input, trimmed and in order, and never leaves two blank lines next to each other.
pub proof fn lemma_minimal_keeps_every_line(
    input: Seq<char>,
    command: Option<Seq<char>>,
    rules: Seq<RuleView>,
    r: FilterOutcome,
)
    requires
        compressed_as(input, command, CompressionLevel::Minimal, rules, r),
        match command {
            Some(c) => first_match(rules, c) is None,
            None => true,
        },
    ensures
        nonblank_lines(lines(r.output@)) == nonblank_lines(lines(input)).map_values(
            |l: Seq<char>| trim_end(l),
        ),
        forall|i: int|
            0 <= i < lines(r.output@).len() - 1 ==> !(is_blank(#[trigger] lines(r.output@)[i])
                && is_blank(lines(r.output@)[i + 1])),
{
    let ls = lines(input);
    crate::text::lemma_lines_count(input);
    let k = kept_lines(ls, 1);
    lemma_kept_clean(ls, 1);
    lemma_structural_blank_runs(ls);
    lemma_structural_keeps_content(ls, 1);
    lemma_trim_terminated(k);
    lemma_strip_tail(k);
    let k2 = strip_tail(k);
    assert(r.output@ == join(k2, seq!['\n']));
    lemma_lines_of_join(k2);
    lemma_strip_tail_nonblank(k);
}

/// Capping comes last: with `max_lines` set to `m`, a rule gives the output of the same
/// rule without the cap, cut to its first `m` lines and followed by a line that counts the
/// rest when it has more than `m` lines, and that output unchanged otherwise.
pub proof fn lemma_cap_applies_last(s: Seq<char>, rule: RuleView)
    requires
        rule.max_lines is Some,
    ensures
        ({
            let u = rule_output(s, RuleView { max_lines: None, ..rule });
            let m = rule.max_lines->0;
            &&& lines(u).len() > m ==> rule_output(s, rule) == join(
                lines(u).take(m as int),
                seq!['\n'],
            ) + "\n... +"@ + decimal((lines(u).len() - m) as nat)
                + " more lines (truncated by tokenlens)"@
            &&& lines(u).len() <= m ==> rule_output(s, rule) == u
        }),
{
}

/// Long lines are cut after the strip patterns have dropped theirs: with
/// `truncate_lines_at` set to `w` and no cap, a rule gives each line of what the same rule
/// without cutting gives, cut to `w` characters and an ellipsis when it is longer.
pub proof fn lemma_truncate_after_strip(s: Seq<char>, rule: RuleView)
    requires
        rule.truncate_lines_at is Some,
        rule.max_lines is None,
    ensures
        rule_output(s, rule) == join(
            lines(rule_output(s, RuleView { truncate_lines_at: None, ..rule })).map_values(
                |l: Seq<char>|
                    if l.len() > rule.truncate_lines_at->0 {
                        l.take(rule.truncate_lines_at->0 as int).push('\u{2026}')
                    } else {
                        l
                    },
            ),
            seq!['\n'],
        ),
{
    let w = rule.truncate_lines_at->0;
    let t = lines(rule_output(s, RuleView { truncate_lines_at: None, ..rule }));
    assert(t.map_values(|l: Seq<char>| truncated_line(l, w as nat)) =~= t.map_values(
        |l: Seq<char>|
            if l.len() > w {
                l.take(w as int).push('\u{2026}')
            } else {
                l
            },
    ));
}

proof fn lemma_lines_of_join_bounded(ls: Seq<Seq<char>>, b: nat)
    requires
        forall|i: int, j: int| 0 <= i < ls.len() && 0 <= j < ls[i].len() ==> #[trigger] ls[i][j] != '\n',
        forall|i: int| 0 <= i < ls.len() ==> #[trigger] ls[i].len() <= b,
    ensures
        forall|i: int|
            0 <= i < lines(join(ls, seq!['\n'])).len() ==> #[trigger] lines(join(ls, seq!['\n']))[i].len()
                <= b,
    decreases ls.len(),
{
    if ls.len() == 0 {
        assert(join(ls, seq!['\n']) =~= Seq::<char>::empty());
    } else if ls.len() == 1 {
        let x = ls[0];
        assert(join(ls, seq!['\n']) == x);
        assert(x.len() <= b);
        if x.len() > 0 {
            assert forall|j: int| 0 <= j < x.len() implies x[j] != '\n' by {
                assert(ls[0][j] != '\n');
            }
            crate::text::lemma_newline_pos_is(x, x.len() as int);
            assert(lines(x) == seq![x]);
        }
    } else {
        let x = ls[0];
        let r = ls.skip(1);
        assert(ls =~= seq![x] + r);
        assert(x.len() <= b);
        assert forall|i: int, j: int| 0 <= i < r.len() && 0 <= j < r[i].len() implies #[trigger] r[i][j] != '\n' by {
            assert(r[i] == ls[i + 1]);
        }
        assert forall|i: int| 0 <= i < r.len() implies #[trigger] r[i].len() <= b by {
            assert(r[i] == ls[i + 1]);
        }
        lemma_lines_of_join_bounded(r, b);
        lemma_join_front(x, r);
        let st = x + seq!['\n'] + join(r, seq!['\n']);
        assert forall|j: int| 0 <= j < x.len() implies st[j] != '\n' by {
            assert(st[j] == x[j]);
            assert(ls[0][j] != '\n');
        }
        crate::text::lemma_newline_pos_is(st, x.len() as int);
        assert(st.take(x.len() as int) =~= x);
        assert(st.skip(x.len() + 1int) =~= join(r, seq!['\n']));
        assert(lines(st) == seq![strip_cr(x)] + lines(join(r, seq!['\n'])));
        assert forall|i: int| 0 <= i < lines(st).len() implies #[trigger] lines(st)[i].len() <= b by {
            if i > 0 {
                assert(lines(st)[i] == lines(join(r, seq!['\n']))[i - 1]);
            }
        }
    }
}

/// A rule that cuts long lines at `w` characters and caps none leaves no line longer than
/// `w` characters and the ellipsis that marks a cut.
pub proof fn lemma_truncate_bounds_width(s: Seq<char>, rule: RuleView)
    requires
        rule.truncate_lines_at is Some,
        rule.max_lines is None,
    ensures
        forall|i: int|
            0 <= i < lines(rule_output(s, rule)).len() ==> #[trigger] lines(rule_output(s, rule))[i].len()
                <= rule.truncate_lines_at->0 + 1,
{
    let w = rule.truncate_lines_at->0;
    let t = after_strip(after_ansi(s, rule), rule);
    let ls = lines(t);
    crate::text::lemma_lines_count(t);
    let tl = ls.map_values(|l: Seq<char>| truncated_line(l, w as nat));
    assert forall|i: int, j: int| 0 <= i < tl.len() && 0 <= j < tl[i].len() implies #[trigger] tl[i][j] != '\n' by {
        if ls[i].len() > w && j == w {
            assert(tl[i][j] == '\u{2026}');
        } else {
            assert(tl[i][j] == ls[i][j]);
        }
    }
    assert forall|i: int| 0 <= i < tl.len() implies #[trigger] tl[i].len() <= w + 1 by {}
    lemma_lines_of_join_bounded(tl, (w + 1) as nat);
    assert(rule_output(s, rule) == join(tl, seq!['\n']));
}

proof fn lemma_nonblank_len(ls: Seq<Seq<char>>)
    ensures
        nonblank_lines(ls).len() <= ls.len(),
    decreases ls.len(),
{
    if ls.len() > 0 {
        lemma_nonblank_len(ls.drop_last());
    }
}

/// With no rule for the command, compressing a text at `Aggressive` and at `Minimal` gives
/// different outputs whenever two neighbouring non-blank lines of it are equal once
/// trimmed: only `Aggressive` writes them as one.
pub proof fn lemma_aggressive_differs_on_repeats(
    input: Seq<char>,
    command: Option<Seq<char>>,
    rules: Seq<RuleView>,
    aggressive: FilterOutcome,
    minimal: FilterOutcome,
)
    requires
        compressed_as(input, command, CompressionLevel::Aggressive, rules, aggressive),
        compressed_as(input, command, CompressionLevel::Minimal, rules, minimal),
        match command {
            Some(c) => first_match(rules, c) is None,
            None => true,
        },
        exists|i: int|
            0 <= i < nonblank_lines(lines(input)).len() - 1 && #[trigger] trim_end(
                nonblank_lines(lines(input))[i],
            ) == trim_end(nonblank_lines(lines(input))[i + 1]),
    ensures
        aggressive.output@ != minimal.output@,
{
    lemma_aggressive_drops_blanks_and_repeats(input, command, rules, aggressive);
    lemma_minimal_keeps_every_line(input, command, rules, minimal);
    lemma_nonblank_len(lines(minimal.output@));
}

} // verus!
