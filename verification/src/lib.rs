//! TokenLens: compression, rewriting and token-savings logic for coding agents.
use vstd::prelude::*;

pub mod budget;
pub mod cmds;
pub mod diff;
pub mod filter;
pub mod format;
pub mod hook;
pub mod init;
pub mod mcp;
pub mod pattern;
pub mod pricing;
pub mod recorder;
pub mod rewrite;
pub mod semantic;
pub mod text;
pub mod tracking;
pub mod uhp;

verus! {

/// Estimated number of tokens in a text: one token for every four bytes of its UTF-8
/// encoding, rounded up (`str::len` reports that byte count as a `usize`).
pub open spec fn token_estimate(s: Seq<char>) -> int {
    if s.len() == 0 {
        0
    } else {
        ((vstd::utf8::encode_utf8(s).len() as usize) + 3) / 4
    }
}

/// Token estimate by the rule "one token is about four characters" of English or code,
/// counted in bytes.
pub fn approx_tokens(text: &str) -> (r: u64)
    ensures
        r == token_estimate(text@),
{
    if text.is_empty() {
        0
    } else {
        let len: usize = text.len();
        let n = len as u64;
        let q = n / 4;
        if n % 4 == 0 {
            assert((n + 3) / 4 == q);
            q
        } else {
            assert((n + 3) / 4 == q + 1);
            q + 1
        }
    }
}

} // verus!

verus! {

proof fn lemma_encode_utf8_append(a: Seq<char>, b: Seq<char>)
    ensures
        vstd::utf8::encode_utf8(a + b) == vstd::utf8::encode_utf8(a) + vstd::utf8::encode_utf8(b),
    decreases a.len(),
{
    if a.len() == 0 {
        assert(a + b =~= b);
    } else {
        lemma_encode_utf8_append(a.drop_first(), b);
        assert((a + b).drop_first() =~= a.drop_first() + b);
        assert((a + b)[0] == a[0]);
    }
}

proof fn lemma_encode_utf8_empty(a: Seq<char>)
    ensures
        (vstd::utf8::encode_utf8(a).len() == 0) == (a.len() == 0),
{
    if a.len() > 0 {
        let c = a[0] as u32;
        assert(vstd::utf8::encode_scalar(c).len() >= 1);
    }
}

/// A text of more bytes is never estimated at fewer tokens, and texts of equally many bytes
/// are estimated alike.
pub proof fn lemma_token_estimate_monotone(a: Seq<char>, b: Seq<char>)
    requires
        vstd::utf8::encode_utf8(a).len() <= usize::MAX,
        vstd::utf8::encode_utf8(b).len() <= usize::MAX,
    ensures
        vstd::utf8::encode_utf8(a).len() <= vstd::utf8::encode_utf8(b).len() ==> token_estimate(a)
            <= token_estimate(b),
        vstd::utf8::encode_utf8(a).len() == vstd::utf8::encode_utf8(b).len() ==> token_estimate(a)
            == token_estimate(b),
{
    lemma_encode_utf8_empty(a);
    lemma_encode_utf8_empty(b);
}

/// The estimate of two texts together is at most the sum of their estimates.
pub proof fn lemma_token_estimate_subadditive(a: Seq<char>, b: Seq<char>)
    requires
        vstd::utf8::encode_utf8(a + b).len() <= usize::MAX,
    ensures
        token_estimate(a + b) <= token_estimate(a) + token_estimate(b),
{
    lemma_encode_utf8_append(a, b);
    lemma_encode_utf8_empty(a);
    lemma_encode_utf8_empty(b);
    lemma_encode_utf8_empty(a + b);
}

/// The estimate is the byte count divided by four and rounded up: four tokens per estimate
/// cover every byte, with fewer than four bytes to spare, and only the empty text counts
/// no token.
pub proof fn lemma_token_estimate_bytes(s: Seq<char>)
    requires
        vstd::utf8::encode_utf8(s).len() <= usize::MAX,
    ensures
        4 * token_estimate(s) >= vstd::utf8::encode_utf8(s).len(),
        4 * token_estimate(s) < vstd::utf8::encode_utf8(s).len() + 4,
        token_estimate(s) == 0 <==> s.len() == 0,
{
    lemma_encode_utf8_empty(s);
}

} // verus!
