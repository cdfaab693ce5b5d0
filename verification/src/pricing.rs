//! Per-model input prices, used to turn saved tokens into saved dollars.
use vstd::prelude::*;

use crate::text::{contains, contains_str};

verus! {

/// The price of one million input tokens, in cents, for a model name: the first of the
/// listed name fragments that occurs in it decides, in this order.
pub open spec fn price_cents(model: Seq<char>) -> u64 {
    if contains(model, "opus"@) {
        1500
    } else if contains(model, "sonnet"@) {
        300
    } else if contains(model, "haiku"@) {
        80
    } else if contains(model, "gpt-4o-mini"@) {
        15
    } else if contains(model, "gpt-4o"@) {
        500
    } else if contains(model, "gpt-5"@) {
        800
    } else if contains(model, "gemini-2.5-pro"@) {
        350
    } else if contains(model, "gemini"@) {
        125
    } else if contains(model, "llama"@) {
        0
    } else {
        200
    }
}

/// The price of one million input tokens, in cents; an unknown model, or none, costs 200.
pub fn price_per_million_cents(model: Option<&str>) -> (r: u64)
    ensures
        r == price_cents(
            match model {
                Some(m) => m@,
                None => Seq::<char>::empty(),
            },
        ),
{
    let m = match model {
        Some(m) => m,
        None => "",
    };
    proof {
        reveal_strlit("");
    }
    assert(m@ == match model {
        Some(m) => m@,
        None => Seq::<char>::empty(),
    });
    if contains_str(m, "opus") {
        1500
    } else if contains_str(m, "sonnet") {
        300
    } else if contains_str(m, "haiku") {
        80
    } else if contains_str(m, "gpt-4o-mini") {
        15
    } else if contains_str(m, "gpt-4o") {
        500
    } else if contains_str(m, "gpt-5") {
        800
    } else if contains_str(m, "gemini-2.5-pro") {
        350
    } else if contains_str(m, "gemini") {
        125
    } else if contains_str(m, "llama") {
        0
    } else {
        200
    }
}

/// Each model family has its own price, in cents per million input tokens: a name
/// decides by the first of `opus`, `sonnet`, `haiku`, `gpt-4o-mini`, `gpt-4o`, `gpt-5`,
/// `gemini-2.5-pro`, `gemini`, `llama` that occurs in it, and a name with none of them
/// costs 200.
pub proof fn lemma_model_prices(m: Seq<char>)
    ensures
        contains(m, "opus"@) ==> price_cents(m) == 1500,
        !contains(m, "opus"@) && contains(m, "sonnet"@) ==> price_cents(m) == 300,
        !contains(m, "opus"@) && !contains(m, "sonnet"@) && contains(m, "haiku"@)
            ==> price_cents(m) == 80,
        !contains(m, "opus"@) && !contains(m, "sonnet"@) && !contains(m, "haiku"@) && contains(
            m,
            "gpt-4o-mini"@,
        ) ==> price_cents(m) == 15,
        !contains(m, "opus"@) && !contains(m, "sonnet"@) && !contains(m, "haiku"@) && !contains(
            m,
            "gpt-4o-mini"@,
        ) && contains(m, "gpt-4o"@) ==> price_cents(m) == 500,
        !contains(m, "opus"@) && !contains(m, "sonnet"@) && !contains(m, "haiku"@) && !contains(
            m,
            "gpt-4o"@,
        ) && contains(m, "gpt-5"@) ==> price_cents(m) == 800,
        !contains(m, "opus"@) && !contains(m, "sonnet"@) && !contains(m, "haiku"@) && !contains(
            m,
            "gpt-4o"@,
        ) && !contains(m, "gpt-5"@) && contains(m, "gemini-2.5-pro"@) ==> price_cents(m) == 350,
        !contains(m, "opus"@) && !contains(m, "sonnet"@) && !contains(m, "haiku"@) && !contains(
            m,
            "gpt-4o"@,
        ) && !contains(m, "gpt-5"@) && !contains(m, "gemini-2.5-pro"@) && contains(m, "gemini"@)
            ==> price_cents(m) == 125,
        !contains(m, "opus"@) && !contains(m, "sonnet"@) && !contains(m, "haiku"@) && !contains(
            m,
            "gpt-4o"@,
        ) && !contains(m, "gpt-5"@) && !contains(m, "gemini"@) && contains(m, "llama"@)
            ==> price_cents(m) == 0,
        !contains(m, "opus"@) && !contains(m, "sonnet"@) && !contains(m, "haiku"@) && !contains(
            m,
            "gpt-4o"@,
        ) && !contains(m, "gpt-5"@) && !contains(m, "gemini"@) && !contains(m, "llama"@)
            ==> price_cents(m) == 200,
{
    reveal_strlit("gpt-4o");
    reveal_strlit("gpt-4o-mini");
    reveal_strlit("gemini");
    reveal_strlit("gemini-2.5-pro");
    assert("gpt-4o-mini"@.take(6) =~= "gpt-4o"@);
    lemma_contains_prefix(m, "gpt-4o"@, "gpt-4o-mini"@);
    assert("gemini-2.5-pro"@.take(6) =~= "gemini"@);
    lemma_contains_prefix(m, "gemini"@, "gemini-2.5-pro"@);
}

/// A text that holds `long` holds every prefix of it.
proof fn lemma_contains_prefix(m: Seq<char>, short: Seq<char>, long: Seq<char>)
    requires
        short.len() <= long.len(),
        long.take(short.len() as int) == short,
    ensures
        contains(m, long) ==> contains(m, short),
{
    if contains(m, long) {
        let i = choose|i: int|
            0 <= i && i + long.len() <= m.len() && #[trigger] m.subrange(i, i + long.len()) == long;
        assert(m.subrange(i, i + short.len()) =~= long.take(short.len() as int));
    }
}

} // verus!
