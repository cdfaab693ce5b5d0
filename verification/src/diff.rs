//! Line-level difference of two texts, position by position.
use vstd::prelude::*;

use crate::text::{chars_eq, contains, extend_chars, from_chars, lines, split_lines, to_chars, views};

verus! {

/// What the diff writes for line position `i`.
pub open spec fn diff_piece(av: Seq<Seq<char>>, bv: Seq<Seq<char>>, i: int) -> Seq<char> {
    if i < av.len() && i < bv.len() {
        if av[i] == bv[i] {
            seq![]
        } else {
            seq!['-', ' '] + av[i] + seq!['\n', '+', ' '] + bv[i] + seq!['\n']
        }
    } else if i < av.len() {
        seq!['-', ' '] + av[i] + seq!['\n']
    } else if i < bv.len() {
        seq!['+', ' '] + bv[i] + seq!['\n']
    } else {
        seq![]
    }
}

/// The pieces for the first `n` line positions.
pub open spec fn diff_body(av: Seq<Seq<char>>, bv: Seq<Seq<char>>, n: nat) -> Seq<char>
    decreases n,
{
    if n == 0 {
        seq![]
    } else {
        diff_body(av, bv, (n - 1) as nat) + diff_piece(av, bv, n - 1)
    }
}

/// The number of line positions to compare.
pub open spec fn positions(av: Seq<Seq<char>>, bv: Seq<Seq<char>>) -> nat {
    if av.len() >= bv.len() {
        av.len()
    } else {
        bv.len()
    }
}

/// The diff of two texts: a `- old` / `+ new` pair for each line position where they
/// differ, or `(no diff)` when nothing differs.
pub open spec fn diff_text(a: Seq<char>, b: Seq<char>) -> Seq<char> {
    let body = diff_body(lines(a), lines(b), positions(lines(a), lines(b)));
    if body.len() == 0 {
        "(no diff)"@
    } else {
        body
    }
}

/// Tiny line-level diff: compares the lines of `a` and `b` at equal positions.
pub fn simple_diff(a: &str, b: &str) -> (r: String)
    ensures
        r@ == diff_text(a@, b@),
{
    let av = split_lines(&to_chars(a));
    let bv = split_lines(&to_chars(b));
    let ghost sa = views(av@);
    let ghost sb = views(bv@);
    let max = if av.len() >= bv.len() {
        av.len()
    } else {
        bv.len()
    };
    let mut out: Vec<char> = Vec::new();
    for i in 0..max
        invariant
            sa == views(av@),
            sb == views(bv@),
            max == positions(sa, sb),
            out@ == diff_body(sa, sb, i as nat),
    {
        let ghost before = out@;
        if i < av.len() && i < bv.len() {
            if !chars_eq(&av[i], &bv[i]) {
                out.push('-');
                out.push(' ');
                extend_chars(&mut out, &av[i]);
                out.push('\n');
                out.push('+');
                out.push(' ');
                extend_chars(&mut out, &bv[i]);
                out.push('\n');
            }
        } else if i < av.len() {
            out.push('-');
            out.push(' ');
            extend_chars(&mut out, &av[i]);
            out.push('\n');
        } else if i < bv.len() {
            out.push('+');
            out.push(' ');
            extend_chars(&mut out, &bv[i]);
            out.push('\n');
        }
        assert(out@ =~= before + diff_piece(sa, sb, i as int));
    }
    if out.len() == 0 {
        "(no diff)".to_owned()
    } else {
        from_chars(&out)
    }
}

} // verus!

verus! {

proof fn lemma_body_shape(av: Seq<Seq<char>>, bv: Seq<Seq<char>>, n: nat)
    ensures
        diff_body(av, bv, n).len() == 0 <==> (forall|i: int|
            0 <= i < n ==> #[trigger] diff_piece(av, bv, i).len() == 0),
        diff_body(av, bv, n).len() > 0 ==> diff_body(av, bv, n)[0] == '-' || diff_body(
            av,
            bv,
            n,
        )[0] == '+',
    decreases n,
{
    if n > 0 {
        lemma_body_shape(av, bv, (n - 1) as nat);
        let prev = diff_body(av, bv, (n - 1) as nat);
        let p = diff_piece(av, bv, n - 1);
        if prev.len() > 0 {
            assert((prev + p)[0] == prev[0]);
        } else {
            assert(prev + p =~= p);
        }
    }
}

/// The diff says `(no diff)` exactly when the two texts have the same lines.
pub proof fn lemma_no_diff_iff_same_lines(a: Seq<char>, b: Seq<char>)
    ensures
        diff_text(a, b) == "(no diff)"@ <==> lines(a) == lines(b),
{
    let av = lines(a);
    let bv = lines(b);
    let n = positions(av, bv);
    lemma_body_shape(av, bv, n);
    reveal_strlit("(no diff)");
    if av == bv {
        assert forall|i: int| 0 <= i < n implies #[trigger] diff_piece(av, bv, i).len() == 0 by {}
    } else {
        assert(diff_body(av, bv, n).len() > 0) by {
            if av.len() == bv.len() {
                if forall|j: int| 0 <= j < av.len() ==> av[j] == bv[j] {
                    assert(av =~= bv);
                }
                let i = choose|i: int| 0 <= i < av.len() && av[i] != bv[i];
                assert(diff_piece(av, bv, i).len() > 0);
            } else if av.len() > bv.len() {
                assert(diff_piece(av, bv, bv.len() as int).len() > 0);
            } else {
                assert(diff_piece(av, bv, av.len() as int).len() > 0);
            }
        }
        assert("(no diff)"@[0] == '(');
    }
}

/// A text compared with itself shows no difference.
pub proof fn lemma_diff_self(a: Seq<char>)
    ensures
        diff_text(a, a) == "(no diff)"@,
{
    lemma_no_diff_iff_same_lines(a, a);
}

proof fn lemma_piece_in_body(av: Seq<Seq<char>>, bv: Seq<Seq<char>>, i: int, n: nat)
    requires
        0 <= i < n,
    ensures
        diff_body(av, bv, (i + 1) as nat).len() <= diff_body(av, bv, n).len(),
        diff_body(av, bv, n).subrange(
            diff_body(av, bv, i as nat).len() as int,
            diff_body(av, bv, (i + 1) as nat).len() as int,
        ) == diff_piece(av, bv, i),
    decreases n,
{
    let lo = diff_body(av, bv, i as nat).len() as int;
    let hi = diff_body(av, bv, (i + 1) as nat).len() as int;
    if i == n - 1 {
        assert(diff_body(av, bv, n).subrange(lo, hi) =~= diff_piece(av, bv, i));
    } else {
        lemma_piece_in_body(av, bv, i, (n - 1) as nat);
        let prev = diff_body(av, bv, (n - 1) as nat);
        assert(diff_body(av, bv, n).subrange(lo, hi) =~= prev.subrange(lo, hi));
    }
}

/// Every line position where the texts differ shows in the diff: a line that only the
/// first text has appears as `- line`, one that only the second has as `+ line`, and two
/// different lines at one position as `- old` followed by `+ new`.
pub proof fn lemma_diff_shows_every_change(a: Seq<char>, b: Seq<char>, i: int)
    requires
        0 <= i,
    ensures
        lines(b).len() <= i < lines(a).len() ==> contains(
            diff_text(a, b),
            seq!['-', ' '] + lines(a)[i] + seq!['\n'],
        ),
        lines(a).len() <= i < lines(b).len() ==> contains(
            diff_text(a, b),
            seq!['+', ' '] + lines(b)[i] + seq!['\n'],
        ),
        i < lines(a).len() && i < lines(b).len() && lines(a)[i] != lines(b)[i] ==> contains(
            diff_text(a, b),
            seq!['-', ' '] + lines(a)[i] + seq!['\n', '+', ' '] + lines(b)[i] + seq!['\n'],
        ),
{
    let av = lines(a);
    let bv = lines(b);
    let n = positions(av, bv);
    if i < n {
        let p = diff_piece(av, bv, i);
        let body = diff_body(av, bv, n);
        lemma_piece_in_body(av, bv, i, n);
        let lo = diff_body(av, bv, i as nat).len() as int;
        assert(diff_body(av, bv, (i + 1) as nat).len() == lo + p.len());
        if p.len() > 0 {
            assert(body.len() > 0);
            assert(diff_text(a, b) == body);
            assert(body.subrange(lo, lo + p.len()) == p);
            assert(contains(body, p));
        }
    }
}

} // verus!
