//! `canon init` and `canon hook install`: what they refuse, and what they do with
//! the state of the repository they find. The paths and file contents are given by
//! the caller.

use vstd::prelude::*;
use crate::text::str_eq;

verus! {

/// `canon hook <action>` accepts exactly one action, `install`.
pub open spec fn hook_command_spec(args: Seq<Seq<char>>) -> Result<(), Seq<char>> {
    if args.len() != 1 {
        Err("usage: canon hook install"@)
    } else if args[0] == "install"@ {
        Ok(())
    } else {
        Err("unknown hook command: "@ + args[0])
    }
}

pub open spec fn arg_views(v: Seq<String>) -> Seq<Seq<char>> {
    Seq::new(v.len(), |k: int| v[k]@)
}

/// `Ok` when the arguments ask to install the hook.
pub fn hook_command(args: &Vec<String>) -> (r: Result<(), String>)
    ensures
        match hook_command_spec(arg_views(args@)) {
            Ok(()) => r is Ok,
            Err(m) => r matches Err(e) && e@ == m,
        },
{
    if args.len() != 1 {
        return Err(String::from_str("usage: canon hook install"));
    }
    assert(arg_views(args@)[0] == args@[0]@);
    if str_eq(args[0].as_str(), "install") {
        Ok(())
    } else {
        let mut m = String::from_str("unknown hook command: ");
        m.append(args[0].as_str());
        Err(m)
    }
}

/// What `canon hook install` finds: the current pre-commit hook, if there is one,
/// git's `core.hooksPath`, and whether the directory is a git work tree.
pub struct HookInstallState {
    pub pre_commit_hook: Option<String>,
    pub current_git_hooks_path: Option<String>,
    pub is_git_worktree: bool,
}

/// An existing hook is reused only when it is canon's hook, letter for letter.
pub fn pre_commit_hook_is_reusable(content: &str, hook: &str) -> (r: bool)
    ensures
        r == (content@ == hook@),
{
    str_eq(content, hook)
}

pub fn preflight_pre_commit_hook_content(content: Option<&str>, hook: &str, hook_path: &str) -> (r: Result<(), String>)
    ensures
        match content {
            Some(c) if c@ != hook@ => r matches Err(e) && e@ == hook_path@ + " already exists with different content"@,
            _ => r is Ok,
        },
{
    if let Some(existing) = content {
        if pre_commit_hook_is_reusable(existing, hook) {
            return Ok(());
        }
        let mut m = String::from_str(hook_path);
        m.append(" already exists with different content");
        return Err(m);
    }
    Ok(())
}

pub fn preflight_git_hooks_path_state(state: &HookInstallState, hooks_path: &str) -> (r: Result<(), String>)
    ensures
        match state.current_git_hooks_path {
            Some(p) if p@ != hooks_path@ => r matches Err(e) && e@ == "git core.hooksPath is already set to "@ + p@
                + "; set it to "@ + hooks_path@ + " manually if desired"@,
            _ => r is Ok,
        },
{
    if let Some(existing) = &state.current_git_hooks_path {
        if str_eq(existing.as_str(), hooks_path) {
            return Ok(());
        }
        let mut m = String::from_str("git core.hooksPath is already set to ");
        m.append(existing.as_str());
        m.append("; set it to ");
        m.append(hooks_path);
        m.append(" manually if desired");
        return Err(m);
    }
    Ok(())
}

/// What is done with git's `core.hooksPath`.
#[derive(Clone, Copy, Debug, PartialEq, Eq, Structural)]
pub enum HooksPathStep {
    /// Not a git work tree: the hook is written, the setting left alone.
    NotWorktree,
    /// The setting already names the hooks directory.
    AlreadySet,
    /// The setting is made to name the hooks directory.
    Configure,
}

/// What `canon hook install` does.
#[derive(Clone, Copy, Debug, PartialEq, Eq, Structural)]
pub struct HookInstallPlan {
    /// Whether the hook file is (re)written: it is unless it already holds canon's hook.
    pub write_hook: bool,
    pub hooks_path: HooksPathStep,
}

/// The plan of `canon hook install`: refused when a different hook is installed or
/// `core.hooksPath` names another directory; else the hook is written unless it is
/// already there, and `core.hooksPath` set in a git work tree where it is not set.
pub fn hook_install_plan(state: &HookInstallState, hook: &str, hook_path: &str, hooks_path: &str) -> (r: Result<HookInstallPlan, String>)
    ensures
        match state.pre_commit_hook {
            Some(c) if c@ != hook@ => r matches Err(e) && e@ == hook_path@ + " already exists with different content"@,
            _ => match state.current_git_hooks_path {
                Some(p) if p@ != hooks_path@ => r matches Err(e) && e@ == "git core.hooksPath is already set to "@ + p@
                    + "; set it to "@ + hooks_path@ + " manually if desired"@,
                _ => r == Ok::<HookInstallPlan, String>(HookInstallPlan {
                    write_hook: !(state.pre_commit_hook matches Some(c) && c@ == hook@),
                    hooks_path: if !state.is_git_worktree {
                        HooksPathStep::NotWorktree
                    } else if state.current_git_hooks_path matches Some(p) && p@ == hooks_path@ {
                        HooksPathStep::AlreadySet
                    } else {
                        HooksPathStep::Configure
                    },
                }),
            },
        },
{
    let content = match &state.pre_commit_hook {
        Some(c) => Some(c.as_str()),
        None => None,
    };
    match preflight_pre_commit_hook_content(content, hook, hook_path) {
        Err(e) => return Err(e),
        Ok(()) => {},
    }
    match preflight_git_hooks_path_state(state, hooks_path) {
        Err(e) => return Err(e),
        Ok(()) => {},
    }
    let write_hook = match content {
        Some(c) => !str_eq(c, hook),
        None => true,
    };
    let step = if !state.is_git_worktree {
        HooksPathStep::NotWorktree
    } else {
        match &state.current_git_hooks_path {
            Some(p) => if str_eq(p.as_str(), hooks_path) {
                HooksPathStep::AlreadySet
            } else {
                HooksPathStep::Configure
            },
            None => HooksPathStep::Configure,
        }
    };
    Ok(HookInstallPlan { write_hook, hooks_path: step })
}

/// The line written for what was done with `core.hooksPath`.
pub fn hooks_path_step_message(step: HooksPathStep, hook_path: &str, hooks_path: &str) -> (r: String)
    ensures
        r@ == match step {
            HooksPathStep::NotWorktree => "Git worktree not detected; "@ + hook_path@
                + " was created but core.hooksPath was not set."@,
            HooksPathStep::AlreadySet => "Git core.hooksPath already = "@ + hooks_path@,
            HooksPathStep::Configure => "Configured git core.hooksPath = "@ + hooks_path@,
        },
{
    match step {
        HooksPathStep::NotWorktree => {
            let mut m = String::from_str("Git worktree not detected; ");
            m.append(hook_path);
            m.append(" was created but core.hooksPath was not set.");
            m
        },
        HooksPathStep::AlreadySet => {
            let mut m = String::from_str("Git core.hooksPath already = ");
            m.append(hooks_path);
            m
        },
        HooksPathStep::Configure => {
            let mut m = String::from_str("Configured git core.hooksPath = ");
            m.append(hooks_path);
            m
        },
    }
}

/// `canon init` refuses to overwrite an existing check configuration.
pub fn init_refusal(check_exists: bool, check_path: &str) -> (r: Option<String>)
    ensures
        check_exists ==> (r matches Some(m) && m@ == check_path@ + " already exists"@),
        !check_exists ==> r is None,
{
    if check_exists {
        let mut m = String::from_str(check_path);
        m.append(" already exists");
        Some(m)
    } else {
        None
    }
}

} // verus!
