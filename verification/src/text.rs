use vstd::prelude::*;

verus! {

/// Calls `String::push`, which appends the character at the end of the string.
#[verifier::external_body]
pub(crate) fn push_char(s: &mut String, c: char)
    ensures
        final(s)@ == old(s)@.push(c),
{
    s.push(c);
}

/// The characters of a string slice, in order.
pub fn to_chars(s: &str) -> (r: Vec<char>)
    ensures
        r@ == s@,
{
    let mut out: Vec<char> = Vec::new();
    for c in it: s.chars()
        invariant
            out@ == it.seq().take(it.index() as int),
    {
        out.push(c);
    }
    out
}

/// A string holding the given characters.
pub fn from_chars(cs: &Vec<char>) -> (r: String)
    ensures
        r@ == cs@,
{
    let mut out = String::new();
    for i in 0..cs.len()
        invariant
            out@ == cs@.take(i as int),
    {
        push_char(&mut out, cs[i]);
        assert(cs@.take(i as int).push(cs@[i as int]) =~= cs@.take(i + 1));
    }
    assert(cs@.take(cs@.len() as int) =~= cs@);
    out
}

} // verus!

verus! {

/// Unicode `White_Space`: the characters that `char::is_whitespace` accepts.
pub open spec fn is_ws(c: char) -> bool {
    let u = c as u32;
    (0x09 <= u && u <= 0x0d) || u == 0x20 || u == 0x85 || u == 0xa0 || u == 0x1680 || (0x2000
        <= u && u <= 0x200a) || u == 0x2028 || u == 0x2029 || u == 0x202f || u == 0x205f || u
        == 0x3000
}

pub fn is_whitespace(c: char) -> (r: bool)
    ensures
        r == is_ws(c),
{
    let u = c as u32;
    (0x09 <= u && u <= 0x0d) || u == 0x20 || u == 0x85 || u == 0xa0 || u == 0x1680 || (0x2000
        <= u && u <= 0x200a) || u == 0x2028 || u == 0x2029 || u == 0x202f || u == 0x205f || u
        == 0x3000
}

/// The text with its trailing whitespace removed.
pub open spec fn trim_end(s: Seq<char>) -> Seq<char>
    decreases s.len(),
{
    if s.len() > 0 && is_ws(s.last()) {
        trim_end(s.drop_last())
    } else {
        s
    }
}

/// Whether the text is empty once trailing whitespace is removed.
pub open spec fn is_blank(s: Seq<char>) -> bool {
    trim_end(s).len() == 0
}

/// Index of the first line feed, or the length when there is none.
pub open spec fn newline_pos(s: Seq<char>) -> int
    decreases s.len(),
{
    if s.len() == 0 {
        0
    } else if s[0] == '\n' {
        0
    } else {
        1 + newline_pos(s.drop_first())
    }
}

/// A line with the carriage return of a `\r\n` ending removed.
pub open spec fn strip_cr(line: Seq<char>) -> Seq<char> {
    if line.len() > 0 && line.last() == '\r' {
        line.drop_last()
    } else {
        line
    }
}

/// The lines of a text as `str::lines` yields them: split at `\n`, a `\r` before the
/// `\n` dropped, and no empty line after a final line ending.
pub open spec fn lines(s: Seq<char>) -> Seq<Seq<char>>
    decreases s.len(),
{
    if s.len() == 0 {
        seq![]
    } else {
        let k = newline_pos(s);
        proof {
            lemma_newline_pos_bounds(s);
        }
        if k >= s.len() {
            seq![s]
        } else {
            seq![strip_cr(s.take(k))] + lines(s.skip(k + 1))
        }
    }
}

/// The pieces joined, with `sep` between each two.
pub open spec fn join(ls: Seq<Seq<char>>, sep: Seq<char>) -> Seq<char>
    decreases ls.len(),
{
    if ls.len() == 0 {
        seq![]
    } else if ls.len() == 1 {
        ls[0]
    } else {
        join(ls.drop_last(), sep) + sep + ls.last()
    }
}

/// The views of a sequence of character vectors.
pub open spec fn views(v: Seq<Vec<char>>) -> Seq<Seq<char>> {
    Seq::new(v.len(), |i: int| v[i]@)
}

pub proof fn lemma_newline_pos_bounds(s: Seq<char>)
    ensures
        0 <= newline_pos(s) <= s.len(),
        newline_pos(s) < s.len() ==> s[newline_pos(s)] == '\n',
        forall|j: int| 0 <= j < newline_pos(s) ==> s[j] != '\n',
    decreases s.len(),
{
    if s.len() > 0 && s[0] != '\n' {
        lemma_newline_pos_bounds(s.drop_first());
        assert forall|j: int| 0 <= j < newline_pos(s) implies s[j] != '\n' by {
            if j > 0 {
                assert(s[j] == s.drop_first()[j - 1]);
            }
        }
    }
}

pub proof fn lemma_newline_pos_is(s: Seq<char>, k: int)
    requires
        0 <= k <= s.len(),
        forall|j: int| 0 <= j < k ==> s[j] != '\n',
        k < s.len() ==> s[k] == '\n',
    ensures
        newline_pos(s) == k,
    decreases k,
{
    if k > 0 {
        assert forall|j: int| 0 <= j < k - 1 implies s.drop_first()[j] != '\n' by {
            assert(s.drop_first()[j] == s[j + 1]);
        }
        lemma_newline_pos_is(s.drop_first(), k - 1);
    }
}

/// The characters with all trailing whitespace removed.
pub fn trim_end_chars(v: &Vec<char>) -> (r: Vec<char>)
    ensures
        r@ == trim_end(v@),
{
    let mut j = v.len();
    assert(v@.take(j as int) =~= v@);
    while j > 0 && is_whitespace(v[j - 1])
        invariant
            j <= v.len(),
            trim_end(v@) == trim_end(v@.take(j as int)),
        decreases j,
    {
        assert(v@.take(j as int).drop_last() =~= v@.take(j - 1));
        j = j - 1;
    }
    let mut out: Vec<char> = Vec::new();
    for i in 0..j
        invariant
            j <= v.len(),
            out@ == v@.take(i as int),
    {
        out.push(v[i]);
        assert(v@.take(i as int).push(v@[i as int]) =~= v@.take(i + 1));
    }
    out
}

/// Appends the characters of `v` to `out`.
pub fn extend_chars(out: &mut Vec<char>, v: &Vec<char>)
    ensures
        final(out)@ == old(out)@ + v@,
{
    let ghost start = out@;
    for i in 0..v.len()
        invariant
            out@ == start + v@.take(i as int),
    {
        out.push(v[i]);
        assert(start + v@.take(i as int).push(v@[i as int]) =~= start + v@.take(i + 1));
    }
    assert(v@.take(v@.len() as int) =~= v@);
}

/// The characters `s[from..to]`.
pub fn slice_chars(s: &Vec<char>, from: usize, to: usize) -> (r: Vec<char>)
    requires
        from <= to <= s.len(),
    ensures
        r@ == s@.subrange(from as int, to as int),
{
    let mut out: Vec<char> = Vec::new();
    for i in from..to
        invariant
            to <= s.len(),
            out@ == s@.subrange(from as int, i as int),
    {
        out.push(s[i]);
        assert(s@.subrange(from as int, i as int).push(s@[i as int]) =~= s@.subrange(
            from as int,
            i + 1,
        ));
    }
    out
}

/// Splits a text into lines as `str::lines` does.
pub fn split_lines(s: &Vec<char>) -> (r: Vec<Vec<char>>)
    ensures
        views(r@) == lines(s@),
{
    let mut done: Vec<Vec<char>> = Vec::new();
    let mut start: usize = 0;
    let mut i: usize = 0;
    assert(s@.skip(0) =~= s@);
    assert(views(done@) + lines(s@) =~= lines(s@));
    while i < s.len()
        invariant
            start <= i <= s.len(),
            lines(s@) == views(done@) + lines(s@.skip(start as int)),
            forall|j: int| start <= j < i ==> s@[j] != '\n',
        decreases s.len() - i,
    {
        if s[i] == '\n' {
            let ghost t = s@.skip(start as int);
            proof {
                lemma_newline_pos_is(t, i - start);
                assert(t.take(i - start) =~= s@.subrange(start as int, i as int));
                assert(t.skip(i - start + 1) =~= s@.skip(i + 1));
            }
            let mut line = slice_chars(s, start, i);
            if line.len() > 0 && line[line.len() - 1] == '\r' {
                line.pop();
            }
            assert(line@ == strip_cr(t.take(i - start)));
            let ghost before = done@;
            done.push(line);
            assert(views(done@) =~= views(before).push(line@));
            assert(views(done@) + lines(s@.skip(i + 1)) =~= views(before) + lines(t));
            start = i + 1;
        }
        i = i + 1;
    }
    if start < s.len() {
        let ghost t = s@.skip(start as int);
        proof {
            lemma_newline_pos_is(t, t.len() as int);
        }
        let line = slice_chars(s, start, s.len());
        assert(line@ =~= t);
        let ghost before = done@;
        done.push(line);
        assert(views(done@) =~= views(before).push(line@));
        assert(views(done@) =~= views(before) + lines(t));
    } else {
        assert(lines(s@.skip(start as int)) =~= Seq::<Seq<char>>::empty());
        assert(views(done@) =~= views(done@) + Seq::<Seq<char>>::empty());
    }
    done
}

/// Joins the lines with `sep` between each two.
pub fn join_chars(ls: &Vec<Vec<char>>, sep: &Vec<char>) -> (r: Vec<char>)
    ensures
        r@ == join(views(ls@), sep@),
{
    let mut out: Vec<char> = Vec::new();
    for i in 0..ls.len()
        invariant
            out@ == join(views(ls@).take(i as int), sep@),
    {
        let ghost before = out@;
        if i > 0 {
            extend_chars(&mut out, sep);
        }
        extend_chars(&mut out, &ls[i]);
        proof {
            let pre = views(ls@).take(i + 1);
            assert(pre.drop_last() =~= views(ls@).take(i as int));
            if i == 0 {
                assert(join(pre, sep@) == pre[0]);
                assert(before =~= Seq::<char>::empty());
                assert(out@ =~= pre[0]);
            }
        }
    }
    assert(views(ls@).take(ls@.len() as int) =~= views(ls@));
    out
}

} // verus!

verus! {

/// Whether two character sequences are equal.
pub fn chars_eq(a: &Vec<char>, b: &Vec<char>) -> (r: bool)
    ensures
        r == (a@ == b@),
{
    if a.len() != b.len() {
        return false;
    }
    for i in 0..a.len()
        invariant
            a.len() == b.len(),
            forall|j: int| 0 <= j < i ==> a@[j] == b@[j],
    {
        if a[i] != b[i] {
            return false;
        }
    }
    assert(a@ =~= b@);
    true
}

/// A copy of the characters.
pub fn copy_chars(v: &Vec<char>) -> (r: Vec<char>)
    ensures
        r@ == v@,
{
    let r = slice_chars(v, 0, v.len());
    assert(v@.subrange(0, v@.len() as int) =~= v@);
    r
}

/// The decimal digit for `d < 10`.
pub open spec fn digit_char(d: nat) -> char {
    if d == 0 {
        '0'
    } else if d == 1 {
        '1'
    } else if d == 2 {
        '2'
    } else if d == 3 {
        '3'
    } else if d == 4 {
        '4'
    } else if d == 5 {
        '5'
    } else if d == 6 {
        '6'
    } else if d == 7 {
        '7'
    } else if d == 8 {
        '8'
    } else {
        '9'
    }
}

/// The decimal representation of `n`, as `Display` writes an unsigned integer.
pub open spec fn decimal(n: nat) -> Seq<char>
    decreases n,
{
    if n < 10 {
        seq![digit_char(n)]
    } else {
        decimal(n / 10).push(digit_char(n % 10))
    }
}

fn digit(d: u64) -> (c: char)
    requires
        d < 10,
    ensures
        c == digit_char(d as nat),
{
    match d {
        0 => '0',
        1 => '1',
        2 => '2',
        3 => '3',
        4 => '4',
        5 => '5',
        6 => '6',
        7 => '7',
        8 => '8',
        _ => '9',
    }
}

/// Appends the decimal representation of `n`.
pub fn push_decimal(out: &mut Vec<char>, n: u64)
    ensures
        final(out)@ == old(out)@ + decimal(n as nat),
    decreases n,
{
    if n >= 10 {
        push_decimal(out, n / 10);
    }
    out.push(digit(n % 10));
    assert(out@ =~= old(out)@ + decimal(n as nat));
}

/// The decimal representation of `n` as a string.
pub fn decimal_string(n: u64) -> (r: String)
    ensures
        r@ == decimal(n as nat),
{
    let mut v: Vec<char> = Vec::new();
    push_decimal(&mut v, n);
    assert(v@ =~= decimal(n as nat));
    from_chars(&v)
}

} // verus!

verus! {

/// Whether `p` occurs in `s`.
pub open spec fn contains(s: Seq<char>, p: Seq<char>) -> bool {
    exists|i: int| 0 <= i && i + p.len() <= s.len() && #[trigger] s.subrange(i, i + p.len()) == p
}

/// Whether `p` occurs in `s`, as `str::contains` with a string pattern.
pub fn contains_str(s: &str, p: &str) -> (r: bool)
    ensures
        r == contains(s@, p@),
{
    let sv = to_chars(s);
    let pv = to_chars(p);
    if pv.len() > sv.len() {
        return false;
    }
    let last = sv.len() - pv.len();
    let mut i: usize = 0;
    while i <= last
        invariant
            sv@ == s@,
            pv@ == p@,
            last == sv.len() - pv.len(),
            pv.len() <= sv.len(),
            i <= last + 1,
            forall|j: int| 0 <= j < i ==> #[trigger] s@.subrange(j, j + p@.len()) != p@,
        decreases last + 1 - i,
    {
        let mut k: usize = 0;
        let mut same = true;
        while k < pv.len()
            invariant
                sv@ == s@,
                pv@ == p@,
                i + pv.len() <= sv.len(),
                k <= pv.len(),
                same == (forall|t: int| 0 <= t < k ==> sv@[i + t] == pv@[t]),
            decreases pv.len() - k,
        {
            if sv[i + k] != pv[k] {
                same = false;
            }
            k = k + 1;
        }
        if same {
            assert(s@.subrange(i as int, i + p@.len()) =~= p@);
            return true;
        }
        assert(s@.subrange(i as int, i + p@.len()) != p@) by {
            let t = choose|t: int| 0 <= t < pv.len() && sv@[i + t] != pv@[t];
            assert(s@.subrange(i as int, i + p@.len())[t] != p@[t]);
        }
        i = i + 1;
    }
    false
}

} // verus!

verus! {

/// Trimming removes all trailing whitespace, and trimming again changes nothing.
pub proof fn lemma_trim_end(s: Seq<char>)
    ensures
        trim_end(s).len() == 0 || !is_ws(trim_end(s).last()),
        trim_end(trim_end(s)) == trim_end(s),
        trim_end(s).len() <= s.len(),
        trim_end(s) == s.take(trim_end(s).len() as int),
    decreases s.len(),
{
    if s.len() > 0 && is_ws(s.last()) {
        lemma_trim_end(s.drop_last());
        assert(s.drop_last().take(trim_end(s).len() as int) =~= s.take(trim_end(s).len() as int));
    } else {
        assert(s.take(s.len() as int) =~= s);
    }
}

} // verus!

verus! {

/// The number of line feeds in a text.
pub open spec fn newline_count(s: Seq<char>) -> nat
    decreases s.len(),
{
    if s.len() == 0 {
        0
    } else {
        newline_count(s.drop_last()) + if s.last() == '\n' {
            1nat
        } else {
            0nat
        }
    }
}

pub proof fn lemma_newline_count_add(a: Seq<char>, b: Seq<char>)
    ensures
        newline_count(a + b) == newline_count(a) + newline_count(b),
    decreases b.len(),
{
    if b.len() == 0 {
        assert(a + b =~= a);
    } else {
        lemma_newline_count_add(a, b.drop_last());
        assert((a + b).drop_last() =~= a + b.drop_last());
    }
}

pub proof fn lemma_newline_count_one(c: char)
    ensures
        newline_count(seq![c]) == (if c == '\n' { 1nat } else { 0nat }),
{
    assert(seq![c].drop_last() =~= Seq::<char>::empty());
    assert(newline_count(Seq::<char>::empty()) == 0);
}

pub proof fn lemma_newline_free(s: Seq<char>)
    requires
        forall|j: int| 0 <= j < s.len() ==> s[j] != '\n',
    ensures
        newline_count(s) == 0,
    decreases s.len(),
{
    if s.len() > 0 {
        lemma_newline_free(s.drop_last());
    }
}

/// A text has one line per line feed, plus one when it ends in an unterminated line; no
/// line holds a line feed.
pub proof fn lemma_lines_count(s: Seq<char>)
    ensures
        lines(s).len() == newline_count(s) + if s.len() > 0 && s.last() != '\n' {
            1nat
        } else {
            0nat
        },
        forall|i: int, j: int|
            0 <= i < lines(s).len() && 0 <= j < lines(s)[i].len() ==> #[trigger] lines(s)[i][j]
                != '\n',
    decreases s.len(),
{
    if s.len() > 0 {
        lemma_newline_pos_bounds(s);
        let k = newline_pos(s);
        if k >= s.len() {
            lemma_newline_free(s);
            assert(s[s.len() - 1] != '\n');
            assert(lines(s) == seq![s]);
        } else {
            let head = s.take(k);
            let rest = s.skip(k + 1);
            lemma_lines_count(rest);
            assert(s =~= head + seq!['\n'] + rest);
            lemma_newline_free(head);
            lemma_newline_count_add(head + seq!['\n'], rest);
            lemma_newline_count_add(head, seq!['\n']);
            lemma_newline_count_one('\n');
            assert(newline_count(s) == 1 + newline_count(rest));
            if rest.len() > 0 {
                assert(rest.last() == s.last());
            }
            let ls = lines(s);
            assert(ls == seq![strip_cr(head)] + lines(rest));
            assert forall|i: int, j: int|
                0 <= i < ls.len() && 0 <= j < ls[i].len() implies #[trigger] ls[i][j] != '\n' by {
                if i == 0 {
                    assert(ls[0] == strip_cr(head));
                    assert(strip_cr(head)[j] == head[j]);
                } else {
                    assert(ls[i] == lines(rest)[i - 1]);
                }
            }
        }
    }
}

/// Joining lines without line feeds by a line feed gives one line feed fewer than lines.
pub proof fn lemma_join_newlines(ls: Seq<Seq<char>>)
    requires
        ls.len() > 0,
        forall|i: int, j: int| 0 <= i < ls.len() && 0 <= j < ls[i].len() ==> #[trigger] ls[i][j] != '\n',
    ensures
        newline_count(join(ls, seq!['\n'])) == ls.len() - 1,
    decreases ls.len(),
{
    if ls.len() == 1 {
        lemma_newline_free(ls[0]);
    } else {
        let prev = ls.drop_last();
        assert forall|i: int, j: int| 0 <= i < prev.len() && 0 <= j < prev[i].len() implies #[trigger] prev[i][j] != '\n' by {
            assert(prev[i] == ls[i]);
        }
        lemma_join_newlines(prev);
        lemma_newline_free(ls.last());
        lemma_newline_count_add(join(prev, seq!['\n']) + seq!['\n'], ls.last());
        lemma_newline_count_add(join(prev, seq!['\n']), seq!['\n']);
        lemma_newline_count_one('\n');
        assert(join(ls, seq!['\n']) == join(prev, seq!['\n']) + seq!['\n'] + ls.last());
    }
}

/// No digit of a decimal representation is a line feed.
pub proof fn lemma_decimal_digits(n: nat)
    ensures
        decimal(n).len() > 0,
        forall|j: int| 0 <= j < decimal(n).len() ==> #[trigger] decimal(n)[j] != '\n',
    decreases n,
{
    if n >= 10 {
        lemma_decimal_digits(n / 10);
        assert forall|j: int| 0 <= j < decimal(n).len() implies #[trigger] decimal(n)[j] != '\n' by {
            if j < decimal(n / 10).len() {
                assert(decimal(n)[j] == decimal(n / 10)[j]);
            }
        }
    }
}

} // verus!
