//! Updating an installed Codesync from its Git checkout: the checks, in
//! order, and what each outcome means.
use vstd::prelude::*;
use crate::text::{chars, eq_str, owned, push_str, string_of, trim};

verus! {

/// The installer script in the checkout.
pub fn installer_name(windows: bool) -> (r: &'static str)
    ensures
        r@ == if windows { "install.ps1"@ } else { "install.sh"@ },
{
    if windows {
        "install.ps1"
    } else {
        "install.sh"
    }
}

/// The installer flag that leaves the desktop app out.
pub fn cli_only_flag(windows: bool) -> (r: &'static str)
    ensures
        r@ == if windows { "-CliOnly"@ } else { "--cli-only"@ },
{
    if windows {
        "-CliOnly"
    } else {
        "--cli-only"
    }
}

/// `Cargo.toml` names the package `codesync` on a line of its own.
pub open spec fn names_codesync(manifest: Seq<char>) -> bool {
    exists|i: int|
        0 <= i < crate::config::lines(manifest).len() && trim(#[trigger] crate::config::lines(manifest)[i])
            == "name = \"codesync\""@
}

pub fn manifest_names_codesync(manifest: &str) -> (r: bool)
    ensures
        r == names_codesync(manifest@),
{
    let ls = crate::config::lines_of(&chars(manifest));
    let ghost l = crate::config::lines(manifest@);
    let mut i: usize = 0;
    while i < ls.len()
        invariant
            i <= ls@.len(),
            l == crate::config::lines(manifest@),
            ls@.len() == l.len(),
            forall|k: int| 0 <= k < ls@.len() ==> #[trigger] ls@[k]@ == l[k],
            forall|k: int| 0 <= k < i ==> trim(#[trigger] l[k]) != "name = \"codesync\""@,
        decreases ls@.len() - i,
    {
        let t = crate::text::trim_of(&ls[i]);
        if eq_str(&t, "name = \"codesync\"") {
            assert(trim(l[i as int]) == "name = \"codesync\""@);
            return true;
        }
        i = i + 1;
    }
    false
}

/// The steps of an update, in order.
#[derive(Clone, Copy, PartialEq, Eq, Structural, Debug)]
pub enum UpdateStep {
    /// `git status --porcelain`: the checkout must have no changes.
    CheckClean,
    /// `git symbolic-ref HEAD`: it must be on a branch.
    CheckBranch,
    /// The branch must track an upstream.
    CheckUpstream,
    /// `git pull --ff-only`.
    Pull,
    /// The pulled checkout must still be Codesync's.
    Recheck,
    /// Run the installer.
    Install,
    Done,
}

/// How a step's command ended.
pub enum StepResult {
    /// It ran and succeeded, printing this.
    Succeeded(String),
    /// It ran and failed.
    Failed,
    /// It could not be run, or its failure carries this message.
    Error(String),
}

pub open spec fn changes_error() -> Seq<char> {
    "The Codesync checkout has local changes or untracked files. Commit or stash them before updating; no files have been changed."@
}

/// The step after `step` given how it ended, or the error that ends the
/// update.
pub open spec fn next_step(step: UpdateStep, result: StepResult) -> Result<UpdateStep, Seq<char>> {
    match step {
        UpdateStep::CheckClean => match result {
            StepResult::Succeeded(out) => if out@.len() == 0 {
                Ok(UpdateStep::CheckBranch)
            } else {
                Err(changes_error())
            },
            StepResult::Failed => Err(changes_error()),
            StepResult::Error(e) => Err(e@),
        },
        UpdateStep::CheckBranch => match result {
            StepResult::Succeeded(_) => Ok(UpdateStep::CheckUpstream),
            _ => Err("The checkout is on a detached commit. Switch to a branch before updating."@),
        },
        UpdateStep::CheckUpstream => match result {
            StepResult::Succeeded(_) => Ok(UpdateStep::Pull),
            _ => Err("The current branch has no upstream. Configure its Git tracking branch before updating."@),
        },
        UpdateStep::Pull => match result {
            StepResult::Succeeded(_) => Ok(UpdateStep::Recheck),
            StepResult::Failed => Err("Git pull failed. Resolve the reported network, authentication, or branch divergence issue and retry; installation was not started."@),
            StepResult::Error(e) => Err(e@),
        },
        UpdateStep::Recheck => match result {
            StepResult::Succeeded(_) => Ok(UpdateStep::Install),
            StepResult::Failed => Err("This does not look like the Codesync source repository."@),
            StepResult::Error(e) => Err(e@),
        },
        UpdateStep::Install => match result {
            StepResult::Succeeded(_) => Ok(UpdateStep::Done),
            StepResult::Failed => Err("The repository was updated, but installation failed. Fix the installer error, then run codesync update again."@),
            StepResult::Error(e) => Err("Cannot start installer: "@ + e@),
        },
        UpdateStep::Done => Ok(UpdateStep::Done),
    }
}

/// Decides what follows a step of the update.
pub fn update_next(step: UpdateStep, result: StepResult) -> (r: Result<UpdateStep, String>)
    ensures
        match r {
            Ok(s) => next_step(step, result) == Ok::<UpdateStep, Seq<char>>(s),
            Err(e) => next_step(step, result) == Err::<UpdateStep, Seq<char>>(e@),
        },
{
    match step {
        UpdateStep::CheckClean => match result {
            StepResult::Succeeded(out) => if chars(out.as_str()).len() == 0 {
                Ok(UpdateStep::CheckBranch)
            } else {
                Err(owned("The Codesync checkout has local changes or untracked files. Commit or stash them before updating; no files have been changed."))
            },
            StepResult::Failed => Err(owned("The Codesync checkout has local changes or untracked files. Commit or stash them before updating; no files have been changed.")),
            StepResult::Error(e) => Err(e),
        },
        UpdateStep::CheckBranch => match result {
            StepResult::Succeeded(_) => Ok(UpdateStep::CheckUpstream),
            _ => Err(owned("The checkout is on a detached commit. Switch to a branch before updating.")),
        },
        UpdateStep::CheckUpstream => match result {
            StepResult::Succeeded(_) => Ok(UpdateStep::Pull),
            _ => Err(owned("The current branch has no upstream. Configure its Git tracking branch before updating.")),
        },
        UpdateStep::Pull => match result {
            StepResult::Succeeded(_) => Ok(UpdateStep::Recheck),
            StepResult::Failed => Err(owned("Git pull failed. Resolve the reported network, authentication, or branch divergence issue and retry; installation was not started.")),
            StepResult::Error(e) => Err(e),
        },
        UpdateStep::Recheck => match result {
            StepResult::Succeeded(_) => Ok(UpdateStep::Install),
            StepResult::Failed => Err(owned("This does not look like the Codesync source repository.")),
            StepResult::Error(e) => Err(e),
        },
        UpdateStep::Install => match result {
            StepResult::Succeeded(_) => Ok(UpdateStep::Done),
            StepResult::Failed => Err(owned("The repository was updated, but installation failed. Fix the installer error, then run codesync update again.")),
            StepResult::Error(e) => {
                let mut out = chars("Cannot start installer: ");
                push_str(&mut out, e.as_str());
                Err(string_of(&out))
            },
        },
        UpdateStep::Done => Ok(UpdateStep::Done),
    }
}

} // verus!
