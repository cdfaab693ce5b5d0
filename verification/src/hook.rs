//! Decisions of the hook server: which tool calls get rewritten, and how.
use vstd::prelude::*;

use crate::text::{chars_eq, is_whitespace, is_ws, to_chars};
use crate::uhp::{FieldV, HookAction, HookRequest, HookResponse, JsonField, JsonMember, JsonValue, ValueV};

verus! {

/// Whether `s` starts with `p`.
pub open spec fn starts_with(s: Seq<char>, p: Seq<char>) -> bool {
    p.len() <= s.len() && s.take(p.len() as int) == p
}

/// `tokenlens ` followed by a space: the prefix of a wrapped command.
pub open spec fn wrapper_prefix() -> Seq<char> {
    seq!['t', 'o', 'k', 'e', 'n', 'l', 'e', 'n', 's', ' ']
}

/// The command prefixes that the hook wraps.
pub open spec fn wrapped_prefixes() -> Seq<Seq<char>> {
    seq![
        seq!['g', 'i', 't', ' '],
        seq!['c', 'a', 'r', 'g', 'o', ' '],
        seq!['n', 'p', 'm', ' '],
        seq!['p', 'n', 'p', 'm', ' '],
        seq!['p', 'y', 't', 'e', 's', 't'],
        seq!['t', 's', 'c'],
    ]
}

/// The command the hook runs in place of `cmd`, if it wraps it.
pub open spec fn rewrite_of(cmd: Seq<char>) -> Option<Seq<char>> {
    if (exists|i: int| 0 <= i < 6 && starts_with(cmd, #[trigger] wrapped_prefixes()[i]))
        && !starts_with(cmd, wrapper_prefix()) {
        Some(wrapper_prefix() + cmd)
    } else {
        None
    }
}

fn starts_with_chars(s: &Vec<char>, p: &Vec<char>) -> (r: bool)
    ensures
        r == starts_with(s@, p@),
{
    if p.len() > s.len() {
        return false;
    }
    for i in 0..p.len()
        invariant
            p.len() <= s.len(),
            forall|j: int| 0 <= j < i ==> s@[j] == p@[j],
    {
        if s[i] != p[i] {
            return false;
        }
    }
    assert(s@.take(p@.len() as int) =~= p@);
    true
}

fn prefixes() -> (r: Vec<Vec<char>>)
    ensures
        r@.len() == 6,
        forall|i: int| 0 <= i < 6 ==> #[trigger] r@[i]@ == wrapped_prefixes()[i],
{
    let r = vec![
        vec!['g', 'i', 't', ' '],
        vec!['c', 'a', 'r', 'g', 'o', ' '],
        vec!['n', 'p', 'm', ' '],
        vec!['p', 'n', 'p', 'm', ' '],
        vec!['p', 'y', 't', 'e', 's', 't'],
        vec!['t', 's', 'c'],
    ];
    assert(r@[0]@ =~= wrapped_prefixes()[0]);
    assert(r@[1]@ =~= wrapped_prefixes()[1]);
    assert(r@[2]@ =~= wrapped_prefixes()[2]);
    assert(r@[3]@ =~= wrapped_prefixes()[3]);
    assert(r@[4]@ =~= wrapped_prefixes()[4]);
    assert(r@[5]@ =~= wrapped_prefixes()[5]);
    r
}

/// Wraps noisy commands (`git `, `cargo `, `npm `, `pnpm `, `pytest`, `tsc`) in
/// `tokenlens`, unless the command is wrapped already.
pub fn stub_rewrite(cmd: &str) -> (r: Option<String>)
    ensures
        r matches Some(s) ==> rewrite_of(cmd@) == Some(s@),
        r is None ==> rewrite_of(cmd@) is None,
{
    let cs = to_chars(cmd);
    let ps = prefixes();
    let tl = vec!['t', 'o', 'k', 'e', 'n', 'l', 'e', 'n', 's', ' '];
    assert(tl@ =~= wrapper_prefix());
    for i in 0..ps.len()
        invariant
            ps@.len() == 6,
            forall|k: int| 0 <= k < 6 ==> #[trigger] ps@[k]@ == wrapped_prefixes()[k],
            tl@ == wrapper_prefix(),
            cs@ == cmd@,
            forall|k: int| 0 <= k < i ==> !starts_with(cmd@, #[trigger] wrapped_prefixes()[k]) || starts_with(cmd@, wrapper_prefix()),
    {
        if starts_with_chars(&cs, &ps[i]) && !starts_with_chars(&cs, &tl) {
            let mut out = "tokenlens ".to_owned();
            proof {
                reveal_strlit("tokenlens ");
            }
            assert("tokenlens "@ =~= wrapper_prefix());
            out.append(cmd);
            return Some(out);
        }
    }
    None
}

/// The index of the first member with the given key.
pub open spec fn member_index(ms: Seq<(Seq<char>, FieldV)>, key: Seq<char>) -> Option<int>
    decreases ms.len(),
{
    if ms.len() == 0 {
        None
    } else {
        match member_index(ms.drop_last(), key) {
            Some(k) => Some(k),
            None => if ms.last().0 == key {
                Some(ms.len() - 1)
            } else {
                None
            },
        }
    }
}

/// `command`
pub open spec fn command_key() -> Seq<char> {
    seq!['c', 'o', 'm', 'm', 'a', 'n', 'd']
}

/// The `command` string of a payload, when it has one.
pub open spec fn command_of(payload: ValueV) -> Option<Seq<char>> {
    match payload {
        ValueV::Object(ms) => match member_index(ms, command_key()) {
            Some(k) => match ms[k].1 {
                FieldV::Str(s) => Some(s),
                FieldV::Other(_) => None,
            },
            None => None,
        },
        ValueV::Other(_) => None,
    }
}

/// The payload with its `command` member set to the string `cmd`.
pub open spec fn with_command(payload: ValueV, cmd: Seq<char>) -> ValueV {
    match payload {
        ValueV::Object(ms) => match member_index(ms, command_key()) {
            Some(k) => ValueV::Object(ms.update(k, (ms[k].0, FieldV::Str(cmd)))),
            None => payload,
        },
        ValueV::Other(_) => payload,
    }
}

/// Whether the tool runs shell commands.
pub open spec fn is_shell_tool(tool: Seq<char>) -> bool {
    tool == seq!['b', 'a', 's', 'h'] || tool == seq!['s', 'h', 'e', 'l', 'l']
}

/// The command the hook substitutes for the request's, if any.
pub open spec fn hook_rewrite(tool: Seq<char>, payload: ValueV) -> Option<Seq<char>> {
    if is_shell_tool(tool) {
        match command_of(payload) {
            Some(cmd) => rewrite_of(cmd),
            None => None,
        }
    } else {
        None
    }
}

fn find_member(ms: &Vec<JsonMember>, key: &Vec<char>) -> (r: Option<usize>)
    ensures
        r matches Some(k) ==> member_index(ms@.map_values(|m: JsonMember| m@), key@) == Some(
            k as int,
        ),
        r is None ==> member_index(ms@.map_values(|m: JsonMember| m@), key@) is None,
{
    let ghost all = ms@.map_values(|m: JsonMember| m@);
    for i in 0..ms.len()
        invariant
            all == ms@.map_values(|m: JsonMember| m@),
            member_index(all.take(i as int), key@) is None,
    {
        let ghost pre = all.take(i + 1);
        assert(pre.drop_last() =~= all.take(i as int));
        if chars_eq(&to_chars(ms[i].key.as_str()), key) {
            proof {
                lemma_member_index_prefix(all, key@, i + 1);
            }
            return Some(i);
        }
    }
    assert(all.take(ms@.len() as int) =~= all);
    None
}

proof fn lemma_member_index_prefix(ms: Seq<(Seq<char>, FieldV)>, key: Seq<char>, n: int)
    requires
        0 <= n <= ms.len(),
        member_index(ms.take(n), key) is Some,
    ensures
        member_index(ms, key) == member_index(ms.take(n), key),
    decreases ms.len() - n,
{
    if n < ms.len() {
        assert(ms.take(n + 1).drop_last() =~= ms.take(n));
        lemma_member_index_prefix(ms, key, n + 1);
    } else {
        assert(ms.take(n) =~= ms);
    }
}

proof fn lemma_member_index_bounds(ms: Seq<(Seq<char>, FieldV)>, key: Seq<char>)
    ensures
        member_index(ms, key) matches Some(k) ==> 0 <= k < ms.len() && ms[k].0 == key,
    decreases ms.len(),
{
    if ms.len() > 0 {
        lemma_member_index_bounds(ms.drop_last(), key);
    }
}

fn is_shell(tool: &str) -> (r: bool)
    ensures
        r == is_shell_tool(tool@),
{
    let t = to_chars(tool);
    let bash = vec!['b', 'a', 's', 'h'];
    let shell = vec!['s', 'h', 'e', 'l', 'l'];
    assert(bash@ =~= seq!['b', 'a', 's', 'h']);
    assert(shell@ =~= seq!['s', 'h', 'e', 'l', 'l']);
    chars_eq(&t, &bash) || chars_eq(&t, &shell)
}

/// The response the hook gives to a request for `tool` with `payload`.
pub open spec fn answers(tool: Seq<char>, payload: ValueV, r: HookResponse) -> bool {
    match hook_rewrite(tool, payload) {
        Some(cmd) => {
            &&& r.action == HookAction::Rewrite
            &&& r.payload matches Some(p) && p@ == with_command(payload, cmd)
            &&& r.reason matches Some(s) && s@ == "structural-stub"@
        },
        None => {
            &&& r.action == HookAction::Allow
            &&& r.payload is None
            &&& r.reason is None
        },
    }
}

/// Answers a request: a shell tool call whose `command` the stub rewrite wraps comes
/// back as `rewrite` with that one member changed; everything else is allowed as is.
pub fn handle(req: HookRequest) -> (r: HookResponse)
    ensures
        answers(req.tool@, req.payload@, r),
{
    let allow = HookResponse { action: HookAction::Allow, payload: None, reason: None };
    if !is_shell(req.tool.as_str()) {
        return allow;
    }
    let ghost pv = req.payload@;
    let mut ms = match req.payload {
        JsonValue::Object(ms) => ms,
        JsonValue::Other(_) => {
            return allow;
        },
    };
    let ghost all = ms@.map_values(|m: JsonMember| m@);
    assert(pv == ValueV::Object(all));
    let key = vec!['c', 'o', 'm', 'm', 'a', 'n', 'd'];
    assert(key@ =~= command_key());
    let k = match find_member(&ms, &key) {
        Some(k) => k,
        None => {
            return allow;
        },
    };
    proof {
        lemma_member_index_bounds(all, command_key());
    }
    let rewritten = match &ms[k].value {
        JsonField::Str(c) => stub_rewrite(c.as_str()),
        JsonField::Other(_) => None,
    };
    match rewritten {
        Some(new_cmd) => {
            let ghost new_view = new_cmd@;
            let old = ms.remove(k);
            ms.insert(k, JsonMember { key: old.key, value: JsonField::Str(new_cmd) });
            let payload = JsonValue::Object(ms);
            assert(payload@ == with_command(pv, new_view)) by {
                if let ValueV::Object(ms2) = payload@ {
                    assert(ms2 =~= all.update(k as int, (all[k as int].0, FieldV::Str(new_view))));
                }
            }
            HookResponse {
                action: HookAction::Rewrite,
                payload: Some(payload),
                reason: Some("structural-stub".to_owned()),
            }
        },
        None => allow,
    }
}

/// The response to one input line: the handled request, or an `allow` that carries the
/// parse error as its reason.
pub fn respond(parsed: Result<HookRequest, String>) -> (r: HookResponse)
    ensures
        parsed matches Ok(req) ==> answers(req.tool@, req.payload@, r),
        parsed matches Err(e) ==> {
            &&& r.action == HookAction::Allow
            &&& r.payload is None
            &&& r.reason matches Some(s) && s@ == "parse error: "@ + e@
        },
{
    match parsed {
        Ok(req) => handle(req),
        Err(e) => {
            let mut reason = "parse error: ".to_owned();
            reason.append(e.as_str());
            HookResponse { action: HookAction::Allow, payload: None, reason: Some(reason) }
        },
    }
}

/// Whether a line holds nothing but whitespace (such lines get no response).
pub fn is_blank_line(line: &str) -> (r: bool)
    ensures
        r == (forall|i: int| 0 <= i < line@.len() ==> is_ws(#[trigger] line@[i])),
{
    let cs = to_chars(line);
    for i in 0..cs.len()
        invariant
            cs@ == line@,
            forall|j: int| 0 <= j < i ==> is_ws(#[trigger] line@[j]),
    {
        if !is_whitespace(cs[i]) {
            return false;
        }
    }
    true
}

} // verus!

verus! {

/// A wrapped command is never wrapped again.
pub proof fn lemma_rewrite_never_nests(cmd: Seq<char>)
    ensures
        rewrite_of(cmd) matches Some(w) ==> rewrite_of(w) is None,
{
    if let Some(w) = rewrite_of(cmd) {
        assert(w.take(wrapper_prefix().len() as int) =~= wrapper_prefix());
    }
}

/// Answering the request that a rewrite produced allows it unchanged: the hook is
/// idempotent on shell tool calls.
pub proof fn lemma_hook_idempotent(tool: Seq<char>, payload: ValueV)
    ensures
        hook_rewrite(tool, payload) matches Some(cmd) ==> hook_rewrite(
            tool,
            with_command(payload, cmd),
        ) is None,
{
    if let Some(cmd) = hook_rewrite(tool, payload) {
        lemma_rewrite_never_nests(command_of(payload)->0);
        if let ValueV::Object(ms) = payload {
            let k = member_index(ms, command_key())->0;
            let ms2 = ms.update(k, (ms[k].0, FieldV::Str(cmd)));
            lemma_member_index_bounds(ms, command_key());
            lemma_member_index_same_keys(ms, ms2, command_key());
        }
    }
}

proof fn lemma_member_index_same_keys(
    ms: Seq<(Seq<char>, FieldV)>,
    ms2: Seq<(Seq<char>, FieldV)>,
    key: Seq<char>,
)
    requires
        ms.len() == ms2.len(),
        forall|i: int| 0 <= i < ms.len() ==> #[trigger] ms[i].0 == ms2[i].0,
    ensures
        member_index(ms, key) == member_index(ms2, key),
    decreases ms.len(),
{
    if ms.len() > 0 {
        lemma_member_index_same_keys(ms.drop_last(), ms2.drop_last(), key);
    }
}

/// Whether the command starts with one of the noisy tools the hook wraps: `git `,
/// `cargo `, `npm `, `pnpm `, `pytest` or `tsc`.
pub open spec fn runs_noisy_tool(cmd: Seq<char>) -> bool {
    ||| starts_with(cmd, "git "@)
    ||| starts_with(cmd, "cargo "@)
    ||| starts_with(cmd, "npm "@)
    ||| starts_with(cmd, "pnpm "@)
    ||| starts_with(cmd, "pytest"@)
    ||| starts_with(cmd, "tsc"@)
}

/// A command is rewritten exactly when it starts with `git `, `cargo `, `npm `, `pnpm `,
/// `pytest` or `tsc` and not with `tokenlens `; the rewrite is `tokenlens ` followed by
/// the command.
pub proof fn lemma_wraps_noisy_tools(cmd: Seq<char>)
    ensures
        runs_noisy_tool(cmd) && !starts_with(cmd, "tokenlens "@) ==> rewrite_of(cmd) == Some(
            "tokenlens "@ + cmd,
        ),
        !(runs_noisy_tool(cmd) && !starts_with(cmd, "tokenlens "@)) ==> rewrite_of(cmd) is None,
{
    reveal_strlit("git ");
    reveal_strlit("cargo ");
    reveal_strlit("npm ");
    reveal_strlit("pnpm ");
    reveal_strlit("pytest");
    reveal_strlit("tsc");
    reveal_strlit("tokenlens ");
    let ps = wrapped_prefixes();
    assert(ps[0] =~= "git "@);
    assert(ps[1] =~= "cargo "@);
    assert(ps[2] =~= "npm "@);
    assert(ps[3] =~= "pnpm "@);
    assert(ps[4] =~= "pytest"@);
    assert(ps[5] =~= "tsc"@);
    assert(wrapper_prefix() =~= "tokenlens "@);
    if runs_noisy_tool(cmd) {
        if starts_with(cmd, "git "@) {
            assert(starts_with(cmd, ps[0]));
        } else if starts_with(cmd, "cargo "@) {
            assert(starts_with(cmd, ps[1]));
        } else if starts_with(cmd, "npm "@) {
            assert(starts_with(cmd, ps[2]));
        } else if starts_with(cmd, "pnpm "@) {
            assert(starts_with(cmd, ps[3]));
        } else if starts_with(cmd, "pytest"@) {
            assert(starts_with(cmd, ps[4]));
        } else {
            assert(starts_with(cmd, ps[5]));
        }
    }
    if exists|i: int| 0 <= i < 6 && starts_with(cmd, #[trigger] wrapped_prefixes()[i]) {
        let i = choose|i: int| 0 <= i < 6 && starts_with(cmd, #[trigger] wrapped_prefixes()[i]);
        assert(runs_noisy_tool(cmd));
    }
}

proof fn lemma_member_index_first(ms: Seq<(Seq<char>, FieldV)>, key: Seq<char>)
    ensures
        member_index(ms, key) is None ==> forall|j: int| 0 <= j < ms.len() ==> #[trigger] ms[j].0 != key,
        member_index(ms, key) matches Some(k) ==> forall|j: int| 0 <= j < k ==> #[trigger] ms[j].0 != key,
    decreases ms.len(),
{
    if ms.len() > 0 {
        let p = ms.drop_last();
        lemma_member_index_first(p, key);
        lemma_member_index_bounds(p, key);
        match member_index(p, key) {
            Some(k) => {
                assert forall|j: int| 0 <= j < k implies #[trigger] ms[j].0 != key by {
                    assert(p[j] == ms[j]);
                }
            },
            None => {
                assert forall|j: int| 0 <= j < ms.len() - 1 implies #[trigger] ms[j].0 != key by {
                    assert(p[j] == ms[j]);
                }
            },
        }
    }
}

/// Setting the command of a request payload changes its first `command` member alone,
/// keeps every key, and the command then reads back as the one set; a payload that is no
/// object stays as it is.
pub proof fn lemma_with_command_reads_back(payload: ValueV, cmd: Seq<char>)
    ensures
        command_of(payload) is Some ==> command_of(with_command(payload, cmd)) == Some(cmd),
        payload matches ValueV::Object(ms) ==> (with_command(payload, cmd) matches ValueV::Object(
            ms2,
        ) && ms2.len() == ms.len() && forall|i: int|
            0 <= i < ms.len() ==> #[trigger] ms2[i].0 == ms[i].0 && (ms2[i] != ms[i] ==> ms[i].0
                == "command"@ && forall|j: int| 0 <= j < i ==> ms[j].0 != "command"@)),
        payload is Other ==> with_command(payload, cmd) == payload,
{
    reveal_strlit("command");
    assert(command_key() =~= "command"@);
    if let ValueV::Object(ms) = payload {
        lemma_member_index_bounds(ms, command_key());
        lemma_member_index_first(ms, command_key());
        if let Some(k) = member_index(ms, command_key()) {
            let ms2 = ms.update(k, (ms[k].0, FieldV::Str(cmd)));
            lemma_member_index_same_keys(ms, ms2, command_key());
            lemma_member_index_bounds(ms2, command_key());
        }
    }
}

} // verus!
