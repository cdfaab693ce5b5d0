//! Queries of the token-savings tracker.
use vstd::prelude::*;

verus! {

/// The query that sums saved tokens per value of column `col`, largest first, at most 20
/// rows, with `<none>` for a missing value.
pub open spec fn pivot_sql_of(col: Seq<char>) -> Seq<char> {
    "SELECT COALESCE("@ + col
        + ",'<none>'), COALESCE(SUM(saved_tokens),0)\n             FROM events GROUP BY "@ + col
        + " ORDER BY 2 DESC LIMIT 20"@
}

/// Writes the pivot query for a column.
pub fn pivot_sql(col: &str) -> (r: String)
    ensures
        r@ == pivot_sql_of(col@),
{
    let mut q = "SELECT COALESCE(".to_owned();
    q.append(col);
    q.append(",'<none>'), COALESCE(SUM(saved_tokens),0)\n             FROM events GROUP BY ");
    q.append(col);
    q.append(" ORDER BY 2 DESC LIMIT 20");
    q
}

/// Tokens saved by one command: what went in minus what came out, never below zero.
pub fn saved_tokens(input: u64, output: u64) -> (r: u64)
    ensures
        r == (if input >= output {
            input - output
        } else {
            0
        }),
{
    input.saturating_sub(output)
}

} // verus!
