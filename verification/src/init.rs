//! What `tokenlens init` reports for each agent.
use vstd::prelude::*;

use crate::text::{from_chars, to_chars};

verus! {

/// The coding agents that `init` knows.
#[derive(Debug, Clone, Copy, PartialEq, Eq, Structural)]
pub enum Agent {
    Claude,
    Codex,
    Cursor,
    Perplexity,
    Windsurf,
    Cline,
    Kilocode,
    Antigravity,
    Vercel,
}

/// ASCII letters in lowercase, other characters unchanged.
pub open spec fn ascii_lower(s: Seq<char>) -> Seq<char> {
    s.map_values(
        |c: char|
            if 'A' <= c && c <= 'Z' {
                ((c as u32) + 32) as char
            } else {
                c
            },
    )
}

fn ascii_lowercase(s: &str) -> (r: String)
    ensures
        r@ == ascii_lower(s@),
{
    let cs = to_chars(s);
    let mut out: Vec<char> = Vec::new();
    for i in 0..cs.len()
        invariant
            cs@ == s@,
            out@ == ascii_lower(s@).take(i as int),
    {
        let c = cs[i];
        let l = if 'A' <= c && c <= 'Z' {
            ((c as u8) + 32) as char
        } else {
            c
        };
        out.push(l);
        assert(out@ =~= ascii_lower(s@).take(i + 1));
    }
    assert(ascii_lower(s@).take(cs@.len() as int) =~= ascii_lower(s@));
    from_chars(&out)
}

/// The line `init` prints for an agent whose display name is `name`.
pub open spec fn init_line_of(a: Agent, name: Seq<char>) -> Seq<char> {
    match a {
        Agent::Claude => "[init] "@ + name + " Code hook -> ~/."@ + ascii_lower(name)
            + "/hooks/tokenlens-rewrite.sh"@,
        Agent::Codex => "[init] Codex CLI hook -> ~/.codex/hooks/tokenlens.sh"@,
        Agent::Cursor => "[init] Cursor hook -> ~/.cursor/hooks/tokenlens-rewrite.sh"@,
        Agent::Perplexity => "[init] Perplexity Computer skill + bash wrapper installed"@,
        Agent::Vercel => "[init] Vercel: install @tokenlens/vercel and add the middleware"@,
        _ => "[init] "@ + name + " rules updated"@,
    }
}

impl Agent {
    /// The line `init` prints for this agent, given its display name.
    pub fn init_line(self, name: &str) -> (r: String)
        ensures
            r@ == init_line_of(self, name@),
    {
        match self {
            Agent::Claude => {
                let mut l = "[init] ".to_owned();
                l.append(name);
                l.append(" Code hook -> ~/.");
                l.append(ascii_lowercase(name).as_str());
                l.append("/hooks/tokenlens-rewrite.sh");
                l
            },
            Agent::Codex => "[init] Codex CLI hook -> ~/.codex/hooks/tokenlens.sh".to_owned(),
            Agent::Cursor => "[init] Cursor hook -> ~/.cursor/hooks/tokenlens-rewrite.sh".to_owned(),
            Agent::Perplexity => "[init] Perplexity Computer skill + bash wrapper installed".to_owned(),
            Agent::Vercel => "[init] Vercel: install @tokenlens/vercel and add the middleware".to_owned(),
            _ => {
                let mut l = "[init] ".to_owned();
                l.append(name);
                l.append(" rules updated");
                l
            },
        }
    }
}

} // verus!
