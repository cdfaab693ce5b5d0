//! The exit-code protocol of `tokenlens rewrite`: 0 rewrite, 1 passthrough, 2 deny, 3 ask.
use vstd::prelude::*;

use crate::hook::{is_blank_line, rewrite_of, starts_with, stub_rewrite, wrapper_prefix};
use crate::text::{is_ws, to_chars};

verus! {

/// What to do with a command.
#[derive(Debug, Clone, Copy, PartialEq, Eq, Structural)]
pub enum RewriteAction {
    Allow,
    Rewrite,
    Deny,
    Ask,
}

/// A decision on a command: the action, why, and the command to run.
pub struct Rewrite {
    pub action: RewriteAction,
    pub reason: String,
    pub command: String,
}

/// Decides on a command with the built-in rules: wrap what the hook wraps, pass an
/// already wrapped command through as it is, and let everything else run unchanged.
pub fn rewrite_command(cmd: &str) -> (r: Rewrite)
    ensures
        rewrite_of(cmd@) matches Some(w) ==> r.action == RewriteAction::Rewrite && r.command@ == w
            && r.reason@ == "structural-stub"@,
        rewrite_of(cmd@) is None ==> r.action == RewriteAction::Allow && r.command@ == cmd@,
        rewrite_of(cmd@) is None && starts_with(cmd@, wrapper_prefix()) ==> r.reason@
            == "already-wrapped"@,
        rewrite_of(cmd@) is None && !starts_with(cmd@, wrapper_prefix()) ==> r.reason@
            == "passthrough"@,
{
    match stub_rewrite(cmd) {
        Some(w) => Rewrite {
            action: RewriteAction::Rewrite,
            reason: "structural-stub".to_owned(),
            command: w,
        },
        None => {
            let cs = to_chars(cmd);
            let tl = vec!['t', 'o', 'k', 'e', 'n', 'l', 'e', 'n', 's', ' '];
            let mut wrapped = tl.len() <= cs.len();
            let mut i: usize = 0;
            while wrapped && i < tl.len()
                invariant
                    tl@ == wrapper_prefix(),
                    cs@ == cmd@,
                    i <= tl.len(),
                    wrapped ==> tl.len() <= cs.len() && forall|j: int| 0 <= j < i ==> cs@[j]
                        == tl@[j],
                    !wrapped ==> !starts_with(cmd@, wrapper_prefix()),
                decreases tl.len() - i,
            {
                if cs[i] != tl[i] {
                    wrapped = false;
                    assert(cmd@.take(10)[i as int] != wrapper_prefix()[i as int]);
                }
                i = i + 1;
            }
            if wrapped {
                assert(cmd@.take(10) =~= wrapper_prefix());
            }
            Rewrite {
                action: RewriteAction::Allow,
                reason: if wrapped {
                    "already-wrapped".to_owned()
                } else {
                    "passthrough".to_owned()
                },
                command: cmd.to_owned(),
            }
        },
    }
}

/// How `tokenlens rewrite` ends: its exit code, the line it prints, and the label of the
/// event it records.
pub struct ExitPlan {
    pub code: i32,
    pub print: Option<String>,
    pub track: Option<String>,
}

/// The exit plan for a decision: a rewrite prints the new command, records
/// `rewrite:<cmd>` and exits 0; an ask prints it, records `rewrite-ask:<cmd>` and exits 3;
/// a deny exits 2; an allow exits 0 with the command printed when it is already wrapped,
/// else 1.
pub fn exit_plan(cmd: &str, r: Rewrite) -> (p: ExitPlan)
    ensures
        r.action == RewriteAction::Rewrite ==> p.code == 0 && (p.print matches Some(s) && s@
            == r.command@) && (p.track matches Some(t) && t@ == "rewrite:"@ + cmd@),
        r.action == RewriteAction::Ask ==> p.code == 3 && (p.print matches Some(s) && s@
            == r.command@) && (p.track matches Some(t) && t@ == "rewrite-ask:"@ + cmd@),
        r.action == RewriteAction::Deny ==> p.code == 2 && p.print is None && p.track is None,
        r.action == RewriteAction::Allow && r.reason@ == "already-wrapped"@ ==> p.code == 0
            && (p.print matches Some(s) && s@ == r.command@) && p.track is None,
        r.action == RewriteAction::Allow && r.reason@ != "already-wrapped"@ ==> p.code == 1
            && p.print is None && p.track is None,
{
    match r.action {
        RewriteAction::Allow => {
            let aw = to_chars("already-wrapped");
            let reason = to_chars(r.reason.as_str());
            if crate::text::chars_eq(&reason, &aw) {
                ExitPlan { code: 0, print: Some(r.command), track: None }
            } else {
                ExitPlan { code: 1, print: None, track: None }
            }
        },
        RewriteAction::Rewrite => {
            let mut t = "rewrite:".to_owned();
            t.append(cmd);
            ExitPlan { code: 0, print: Some(r.command), track: Some(t) }
        },
        RewriteAction::Deny => ExitPlan { code: 2, print: None, track: None },
        RewriteAction::Ask => {
            let mut t = "rewrite-ask:".to_owned();
            t.append(cmd);
            ExitPlan { code: 3, print: Some(r.command), track: Some(t) }
        },
    }
}

/// `tokenlens rewrite <cmd>`: a blank command passes through with exit code 1; any other
/// is decided by the built-in rules.
pub fn rewrite_exit(cmd: &str) -> (p: ExitPlan)
    ensures
        (forall|i: int| 0 <= i < cmd@.len() ==> is_ws(#[trigger] cmd@[i])) ==> p.code == 1
            && p.print is None && p.track is None,
        !(forall|i: int| 0 <= i < cmd@.len() ==> is_ws(#[trigger] cmd@[i])) ==> match rewrite_of(
            cmd@,
        ) {
            Some(w) => p.code == 0 && (p.print matches Some(s) && s@ == w) && (p.track matches Some(
                t,
            ) && t@ == "rewrite:"@ + cmd@),
            None => if starts_with(cmd@, wrapper_prefix()) {
                p.code == 0 && (p.print matches Some(s) && s@ == cmd@) && p.track is None
            } else {
                p.code == 1 && p.print is None && p.track is None
            },
        },
{
    if is_blank_line(cmd) {
        return ExitPlan { code: 1, print: None, track: None };
    }
    let r = rewrite_command(cmd);
    proof {
        reveal_strlit("already-wrapped");
        reveal_strlit("passthrough");
        assert("passthrough"@.len() != "already-wrapped"@.len());
        assert("passthrough"@ != "already-wrapped"@);
    }
    exit_plan(cmd, r)
}

} // verus!
