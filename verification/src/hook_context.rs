//! The context that a hook recipe receives from the recipe it runs around.
//!
//! A hook learns through environment variables which recipe it runs for
//! (`JUST_HOOK_TARGET`), whether it runs before or after it
//! (`JUST_HOOK_TYPE`), and, after it, the recipe's exit status
//! (`JUST_HOOK_STATUS`).

use vstd::prelude::*;
use vstd::string::StringExecFns;
use crate::decimal::{i32_to_string, int_decimal};

verus! {

/// Whether a hook runs before its target or after it, with the target's exit status.
#[derive(Clone, Copy, Debug, PartialEq, Eq, Structural)]
pub enum HookType {
    Before,
    After { status: i32 },
}

/// The recipe a hook runs around, and how.
#[derive(Debug)]
pub struct HookContext {
    pub target: String,
    pub hook_type: HookType,
}

/// What a hook context holds, as values.
pub struct HookContextView {
    pub target: Seq<char>,
    pub hook_type: HookType,
}

impl View for HookContext {
    type V = HookContextView;

    open spec fn view(&self) -> HookContextView {
        HookContextView { target: self.target@, hook_type: self.hook_type }
    }
}

impl Clone for HookContext {
    fn clone(&self) -> (r: Self)
        ensures
            r@ == self@,
    {
        HookContext { target: self.target.clone(), hook_type: self.hook_type }
    }
}

/// The environment assignments that a command is given, in the order they were made.
/// As with `std::process::Command::env`, a later assignment to a key overrides an earlier one.
#[derive(Debug)]
pub struct CommandEnv {
    vars: Vec<(String, String)>,
}

impl View for CommandEnv {
    type V = Seq<(Seq<char>, Seq<char>)>;

    closed spec fn view(&self) -> Seq<(Seq<char>, Seq<char>)> {
        self.vars@.map_values(|p: (String, String)| (p.0@, p.1@))
    }
}

/// The value that the last assignment to `key` in `vars` gives it.
pub open spec fn env_value(vars: Seq<(Seq<char>, Seq<char>)>, key: Seq<char>) -> Option<Seq<char>>
    decreases vars.len(),
{
    if vars.len() == 0 {
        None
    } else if vars.last().0 == key {
        Some(vars.last().1)
    } else {
        env_value(vars.drop_last(), key)
    }
}

/// The assignments that `export` makes for a context, in order.
pub open spec fn context_vars(ctx: HookContextView) -> Seq<(Seq<char>, Seq<char>)> {
    match ctx.hook_type {
        HookType::Before => seq![
            ("JUST_HOOK_TARGET"@, ctx.target),
            ("JUST_HOOK_TYPE"@, "before"@),
        ],
        HookType::After { status } => seq![
            ("JUST_HOOK_TARGET"@, ctx.target),
            ("JUST_HOOK_TYPE"@, "after"@),
            ("JUST_HOOK_STATUS"@, int_decimal(status as int)),
        ],
    }
}

impl CommandEnv {
    /// A command environment with no assignments.
    pub fn new() -> (r: CommandEnv)
        ensures
            r@ == Seq::<(Seq<char>, Seq<char>)>::empty(),
    {
        let r = CommandEnv { vars: Vec::new() };
        assert(r@ =~= Seq::<(Seq<char>, Seq<char>)>::empty());
        r
    }

    /// Assigns `value` to `key`.
    pub fn env(&mut self, key: &str, value: &str)
        ensures
            final(self)@ == old(self)@.push((key@, value@)),
    {
        self.vars.push((String::from_str(key), String::from_str(value)));
        assert(final(self)@ =~= old(self)@.push((key@, value@)));
    }

    /// The assignments made, in order.
    pub fn vars(&self) -> (r: &Vec<(String, String)>)
        ensures
            r@.map_values(|p: (String, String)| (p.0@, p.1@)) == self@,
    {
        &self.vars
    }

    /// The value that `key` has in the environment, if it was assigned.
    pub fn get(&self, key: &str) -> (r: Option<String>)
        ensures
            r matches Some(v) ==> env_value(self@, key@) == Some(v@),
            r is None ==> env_value(self@, key@) is None,
    {
        let wanted = String::from_str(key);
        let mut i = self.vars.len();
        assert(self@.take(i as int) =~= self@);
        while i > 0
            invariant
                i <= self.vars.len(),
                self@ == self.vars@.map_values(|p: (String, String)| (p.0@, p.1@)),
                wanted@ == key@,
                env_value(self@, key@) == env_value(self@.take(i as int), key@),
            decreases i,
        {
            let ghost pre = self@.take(i as int);
            assert(pre.drop_last() =~= self@.take(i - 1));
            assert(pre.last() == self@[i - 1]);
            if self.vars[i - 1].0 == wanted {
                return Some(self.vars[i - 1].1.clone());
            }
            i = i - 1;
        }
        assert(self@.take(0) =~= Seq::<(Seq<char>, Seq<char>)>::empty());
        None
    }
}

impl HookContext {
    /// The context of a hook that runs before `target`.
    pub fn before(target: &str) -> (r: HookContext)
        ensures
            r@.target == target@,
            r@.hook_type == HookType::Before,
    {
        HookContext { target: String::from_str(target), hook_type: HookType::Before }
    }

    /// The context of a hook that runs after `target`, which exited with `status`.
    pub fn after(target: &str, status: i32) -> (r: HookContext)
        ensures
            r@.target == target@,
            r@.hook_type == (HookType::After { status }),
    {
        HookContext { target: String::from_str(target), hook_type: HookType::After { status } }
    }

    /// Makes the context known to a command through its environment:
    /// `JUST_HOOK_TARGET` and `JUST_HOOK_TYPE`, and for an after hook `JUST_HOOK_STATUS`.
    pub fn export(&self, cmd: &mut CommandEnv)
        ensures
            final(cmd)@ == old(cmd)@ + context_vars(self@),
    {
        proof {
            reveal_strlit("JUST_HOOK_TARGET");
            reveal_strlit("JUST_HOOK_TYPE");
            reveal_strlit("JUST_HOOK_STATUS");
            reveal_strlit("before");
            reveal_strlit("after");
        }
        cmd.env("JUST_HOOK_TARGET", self.target.as_str());
        match &self.hook_type {
            HookType::Before => {
                cmd.env("JUST_HOOK_TYPE", "before");
            },
            HookType::After { status } => {
                cmd.env("JUST_HOOK_TYPE", "after");
                let text = i32_to_string(*status);
                cmd.env("JUST_HOOK_STATUS", text.as_str());
            },
        }
        assert(final(cmd)@ =~= old(cmd)@ + context_vars(self@));
    }
}


/// What a command reads back of an exported context: the target and the type,
/// and for an after hook the status in decimal; a before hook leaves
/// `JUST_HOOK_STATUS` as it was.
pub proof fn lemma_export_read_back(vars: Seq<(Seq<char>, Seq<char>)>, ctx: HookContextView)
    ensures
        env_value(vars + context_vars(ctx), "JUST_HOOK_TARGET"@) == Some(ctx.target),
        env_value(vars + context_vars(ctx), "JUST_HOOK_TYPE"@) == Some(
            match ctx.hook_type {
                HookType::Before => "before"@,
                HookType::After { .. } => "after"@,
            },
        ),
        env_value(vars + context_vars(ctx), "JUST_HOOK_STATUS"@) == match ctx.hook_type {
            HookType::Before => env_value(vars, "JUST_HOOK_STATUS"@),
            HookType::After { status } => Some(int_decimal(status as int)),
        },
{
    reveal_strlit("JUST_HOOK_TARGET");
    reveal_strlit("JUST_HOOK_TYPE");
    reveal_strlit("JUST_HOOK_STATUS");
    let all = vars + context_vars(ctx);
    assert("JUST_HOOK_TARGET"@ != "JUST_HOOK_TYPE"@) by {
        assert("JUST_HOOK_TARGET"@[11] != "JUST_HOOK_TYPE"@[11]);
    }
    assert("JUST_HOOK_STATUS"@ != "JUST_HOOK_TYPE"@) by {
        assert("JUST_HOOK_STATUS"@[10] != "JUST_HOOK_TYPE"@[10]);
    }
    assert("JUST_HOOK_STATUS"@ != "JUST_HOOK_TARGET"@) by {
        assert("JUST_HOOK_STATUS"@[10] != "JUST_HOOK_TARGET"@[10]);
    }
    match ctx.hook_type {
        HookType::Before => {
            assert(all.drop_last() =~= vars + seq![("JUST_HOOK_TARGET"@, ctx.target)]);
            assert(all.drop_last().drop_last() =~= vars);
            assert(env_value(all.drop_last(), "JUST_HOOK_TARGET"@) == Some(ctx.target));
            assert(env_value(all.drop_last(), "JUST_HOOK_STATUS"@) == env_value(vars, "JUST_HOOK_STATUS"@));
        },
        HookType::After { status } => {
            assert(all.drop_last() =~= vars + seq![("JUST_HOOK_TARGET"@, ctx.target), ("JUST_HOOK_TYPE"@, "after"@)]);
            assert(all.drop_last().drop_last() =~= vars + seq![("JUST_HOOK_TARGET"@, ctx.target)]);
            assert(env_value(all.drop_last().drop_last(), "JUST_HOOK_TARGET"@) == Some(ctx.target));
            assert(env_value(all.drop_last(), "JUST_HOOK_TARGET"@) == Some(ctx.target));
            assert(env_value(all.drop_last(), "JUST_HOOK_TYPE"@) == Some("after"@));
        },
    }
}

} // verus!
