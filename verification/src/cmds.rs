//! The computing part of the per-tool commands: `read`, `fetch` and `run`.
use vstd::prelude::*;

use crate::filter::{compress_text, CompressionLevel, FilterOutcome, FilterRules};
use crate::text::{
    decimal, decimal_string, join, join_chars, lemma_decimal_digits, lemma_lines_count, lemma_newline_pos_is,
    lines, split_lines, strip_cr, to_chars, views,
};

verus! {

/// A text cut to its first `max` lines, with a count of the rest when there are more.
pub open spec fn limited(text: Seq<char>, max_lines: Option<usize>) -> Seq<char> {
    match max_lines {
        Some(n) => {
            let ls = lines(text);
            let head = join(ls.take(if n < ls.len() { n as int } else { ls.len() as int }), seq!['\n']);
            if ls.len() > n {
                head + "\n... +"@ + decimal((ls.len() - n) as nat) + " more lines"@
            } else {
                head
            }
        },
        None => text,
    }
}

/// Keeps the first `max_lines` lines of a file's text.
pub fn limit_lines(text: &str, max_lines: Option<usize>) -> (r: String)
    ensures
        r@ == limited(text@, max_lines),
{
    match max_lines {
        Some(n) => {
            let ls = split_lines(&to_chars(text));
            let take = if n < ls.len() {
                n
            } else {
                ls.len()
            };
            let mut head: Vec<Vec<char>> = Vec::new();
            for i in 0..take
                invariant
                    take <= ls.len(),
                    views(head@) == views(ls@).take(i as int),
            {
                let ghost before = views(head@);
                head.push(crate::text::copy_chars(&ls[i]));
                assert(views(head@) =~= before.push(ls@[i as int]@));
                assert(views(head@) =~= views(ls@).take(i + 1));
            }
            let nl: Vec<char> = vec!['\n'];
            assert(nl@ =~= seq!['\n']);
            let mut out = crate::text::from_chars(&join_chars(&head, &nl));
            if ls.len() > n {
                out.append("\n... +");
                out.append(decimal_string((ls.len() - n) as u64).as_str());
                out.append(" more lines");
            }
            out
        },
        None => text.to_owned(),
    }
}

/// `prefix` followed by `s`.
fn prefixed(prefix: &str, s: &str) -> (r: String)
    ensures
        r@ == prefix@ + s@,
{
    let mut out = prefix.to_owned();
    out.append(s);
    out
}

/// `tokenlens read`: a file's text, cut to `max_lines` lines, compressed under the command
/// hint `read <path>`.
pub fn read_outcome(
    path: &str,
    text: &str,
    level: CompressionLevel,
    max_lines: Option<usize>,
    rules: &FilterRules,
) -> (r: FilterOutcome)
    ensures
        crate::filter::compressed_as(
            limited(text@, max_lines),
            Some("read "@ + path@),
            level,
            rules@,
            r,
        ),
{
    let limited_text = limit_lines(text, max_lines);
    let cmd = prefixed("read ", path);
    compress_text(limited_text.as_str(), Some(cmd.as_str()), level, rules)
}

/// `tokenlens fetch`: a response body compressed under the command hint `fetch <url>`.
pub fn fetch_outcome(url: &str, body: &str, level: CompressionLevel, rules: &FilterRules) -> (r:
    FilterOutcome)
    ensures
        crate::filter::compressed_as(body@, Some("fetch "@ + url@), level, rules@, r),
{
    let cmd = prefixed("fetch ", url);
    compress_text(body, Some(cmd.as_str()), level, rules)
}

/// The combined output of a process: its standard output, then, when there is any, its
/// standard error on a line of its own.
pub open spec fn combined(stdout: Seq<char>, stderr: Seq<char>) -> Seq<char> {
    if stderr.len() == 0 {
        stdout
    } else if stdout.len() > 0 && stdout.last() == '\n' {
        stdout + stderr
    } else {
        stdout.push('\n') + stderr
    }
}

/// Joins standard output and standard error as `run` shows them.
pub fn combine_output(stdout: &str, stderr: &str) -> (r: String)
    ensures
        r@ == combined(stdout@, stderr@),
{
    let mut raw = stdout.to_owned();
    if !stderr.is_empty() {
        let out = to_chars(stdout);
        if !(out.len() > 0 && out[out.len() - 1] == '\n') {
            crate::text::push_char(&mut raw, '\n');
        }
        raw.append(stderr);
    }
    raw
}

/// The command line `program args...`: the program, a space, the arguments joined by spaces.
pub open spec fn command_line_of(program: Seq<char>, args: Seq<Seq<char>>) -> Seq<char> {
    program + seq![' '] + join(args, seq![' '])
}

/// Writes the command line that a proxied command is recorded under.
pub fn command_line(program: &str, args: &Vec<String>) -> (r: String)
    ensures
        r@ == command_line_of(program@, args@.map_values(|a: String| a@)),
{
    let mut cs: Vec<Vec<char>> = Vec::new();
    for i in 0..args.len()
        invariant
            views(cs@) == args@.map_values(|a: String| a@).take(i as int),
    {
        let ghost before = views(cs@);
        cs.push(to_chars(args[i].as_str()));
        assert(views(cs@) =~= before.push(args@[i as int]@));
        assert(views(cs@) =~= args@.map_values(|a: String| a@).take(i + 1));
    }
    assert(args@.map_values(|a: String| a@).take(args@.len() as int) =~= args@.map_values(
        |a: String| a@,
    ));
    let sp: Vec<char> = vec![' '];
    assert(sp@ =~= seq![' ']);
    let joined = crate::text::from_chars(&join_chars(&cs, &sp));
    let mut out = program.to_owned();
    crate::text::push_char(&mut out, ' ');
    out.append(joined.as_str());
    out
}

/// A proxied command: its exit status, its raw combined output, and that output compressed.
pub struct ProxyResult {
    pub status: i32,
    pub raw: String,
    pub outcome: FilterOutcome,
}

/// `tokenlens run`: combines what the process wrote and compresses it under the hint of its
/// command line.
pub fn proxy_result(
    status: i32,
    stdout: &str,
    stderr: &str,
    program: &str,
    args: &Vec<String>,
    level: CompressionLevel,
    rules: &FilterRules,
) -> (r: ProxyResult)
    ensures
        r.status == status,
        r.raw@ == combined(stdout@, stderr@),
        crate::filter::compressed_as(
            r.raw@,
            Some(command_line_of(program@, args@.map_values(|a: String| a@))),
            level,
            rules@,
            r.outcome,
        ),
{
    let raw = combine_output(stdout, stderr);
    let cmd = command_line(program, args);
    let outcome = compress_text(raw.as_str(), Some(cmd.as_str()), level, rules);
    ProxyResult { status, raw, outcome }
}

proof fn lemma_lines_join_then(ls: Seq<Seq<char>>, q: Seq<char>)
    requires
        ls.len() >= 1,
        forall|i: int, j: int| 0 <= i < ls.len() && 0 <= j < ls[i].len() ==> #[trigger] ls[i][j] != '\n',
    ensures
        lines(join(ls, seq!['\n']) + seq!['\n'] + q) == ls.map_values(|l: Seq<char>| strip_cr(l))
            + lines(q),
    decreases ls.len(),
{
    let x = ls[0];
    assert forall|j: int| 0 <= j < x.len() implies x[j] != '\n' by {
        assert(ls[0][j] != '\n');
    }
    if ls.len() == 1 {
        assert(join(ls, seq!['\n']) == x);
        let st = x + seq!['\n'] + q;
        assert forall|j: int| 0 <= j < x.len() implies st[j] != '\n' by {
            assert(st[j] == x[j]);
        }
        lemma_newline_pos_is(st, x.len() as int);
        assert(st.take(x.len() as int) =~= x);
        assert(st.skip(x.len() + 1int) =~= q);
        assert(lines(st) == seq![strip_cr(x)] + lines(q));
        assert(ls.map_values(|l: Seq<char>| strip_cr(l)) =~= seq![strip_cr(x)]);
    } else {
        let r = ls.skip(1);
        assert(ls =~= seq![x] + r);
        assert forall|i: int, j: int| 0 <= i < r.len() && 0 <= j < r[i].len() implies #[trigger] r[i][j] != '\n' by {
            assert(r[i] == ls[i + 1]);
        }
        lemma_lines_join_then(r, q);
        crate::filter::lemma_join_front(x, r);
        let rest = join(r, seq!['\n']) + seq!['\n'] + q;
        let st = x + seq!['\n'] + rest;
        assert(join(ls, seq!['\n']) + seq!['\n'] + q =~= st);
        assert forall|j: int| 0 <= j < x.len() implies st[j] != '\n' by {
            assert(st[j] == x[j]);
        }
        lemma_newline_pos_is(st, x.len() as int);
        assert(st.take(x.len() as int) =~= x);
        assert(st.skip(x.len() + 1int) =~= rest);
        assert(lines(st) == seq![strip_cr(x)] + lines(rest));
        assert(ls.map_values(|l: Seq<char>| strip_cr(l)) =~= seq![strip_cr(x)] + r.map_values(
            |l: Seq<char>| strip_cr(l),
        ));
    }
}

/// Reading with a limit of `n >= 1` lines a text that has more keeps its first `n` lines
/// (each without the carriage return of a `\r\n` ending) and adds one line that counts
/// the lines left out.
pub proof fn lemma_limit_keeps_head(text: Seq<char>, n: usize)
    requires
        n >= 1,
        lines(text).len() > n,
    ensures
        lines(limited(text, Some(n))).len() == n + 1,
        forall|i: int|
            0 <= i < n ==> #[trigger] lines(limited(text, Some(n)))[i] == strip_cr(lines(text)[i]),
        lines(limited(text, Some(n)))[n as int] == "... +"@ + decimal((lines(text).len() - n) as nat)
            + " more lines"@,
{
    let ls = lines(text);
    lemma_lines_count(text);
    let head = ls.take(n as int);
    assert forall|i: int, j: int| 0 <= i < head.len() && 0 <= j < head[i].len() implies #[trigger] head[i][j] != '\n' by {
        assert(head[i] == ls[i]);
    }
    reveal_strlit("\n... +");
    reveal_strlit("... +");
    reveal_strlit(" more lines");
    let d = decimal((ls.len() - n) as nat);
    lemma_decimal_digits((ls.len() - n) as nat);
    let q = "... +"@ + d + " more lines"@;
    assert("\n... +"@ =~= seq!['\n'] + "... +"@);
    assert(limited(text, Some(n)) =~= join(head, seq!['\n']) + seq!['\n'] + q);
    lemma_lines_join_then(head, q);
    assert forall|j: int| 0 <= j < q.len() implies q[j] != '\n' by {
        if 5 <= j < 5 + d.len() {
            assert(q[j] == d[j - 5]);
        }
    }
    lemma_newline_pos_is(q, q.len() as int);
    assert(q.last() == 's');
    assert(strip_cr(q) == q);
    assert(lines(q) =~= seq![q]);
}

} // verus!
