//! Decisions of the asset build: which external tool runs next, and what a
//! tool's exit status leads to.
use vstd::prelude::*;
use vstd::string::StringExecFns;

verus! {

/// Where a build stands.
#[derive(PartialEq, Eq, Structural, Clone, Copy, Debug)]
pub enum BuildStage {
    /// The dependency installer is to run.
    Install,
    /// The bundler is to run; it reads what the installer produced.
    Bundle,
    /// Both tools succeeded: per-plugin clean-up follows.
    Cleanup,
    /// A tool failed with this exit code (-1 when it was killed by a signal).
    Failed { code: i32 },
}

/// An external tool of the build.
#[derive(PartialEq, Eq, Structural, Clone, Copy, Debug)]
pub enum Tool {
    Installer,
    Bundler,
}

/// The tool that runs in `stage`, if any.
pub open spec fn tool_of(stage: BuildStage) -> Option<Tool> {
    match stage {
        BuildStage::Install => Some(Tool::Installer),
        BuildStage::Bundle => Some(Tool::Bundler),
        _ => None,
    }
}

/// The stage after the tool of `stage` exited with `exit` (`None`: killed by
/// a signal). Only a zero exit code is success.
pub open spec fn next_of(stage: BuildStage, exit: Option<i32>) -> BuildStage {
    match stage {
        BuildStage::Install => if exit == Some(0i32) {
            BuildStage::Bundle
        } else {
            BuildStage::Failed { code: exit_code(exit) }
        },
        BuildStage::Bundle => if exit == Some(0i32) {
            BuildStage::Cleanup
        } else {
            BuildStage::Failed { code: exit_code(exit) }
        },
        _ => stage,
    }
}

/// The code a failure reports: the exit code, or -1 without one.
pub open spec fn exit_code(exit: Option<i32>) -> i32 {
    match exit {
        Some(c) => c,
        None => -1i32,
    }
}

/// The stages a build passes through from `stage` when its tools exit with
/// `exits` in turn; it stops at a stage that runs no tool.
pub open spec fn trace(stage: BuildStage, exits: Seq<Option<i32>>) -> Seq<BuildStage>
    decreases exits.len(),
{
    if exits.len() == 0 || tool_of(stage).is_none() {
        seq![stage]
    } else {
        seq![stage] + trace(next_of(stage, exits[0]), exits.drop_first())
    }
}

/// The tool to run in `stage`, if any.
pub fn tool_for(stage: BuildStage) -> (r: Option<Tool>)
    ensures
        r == tool_of(stage),
{
    match stage {
        BuildStage::Install => Some(Tool::Installer),
        BuildStage::Bundle => Some(Tool::Bundler),
        _ => None,
    }
}

/// The stage that follows when the tool of `stage` exited with `exit`.
pub fn next_stage(stage: BuildStage, exit: Option<i32>) -> (r: BuildStage)
    ensures
        r == next_of(stage, exit),
{
    let code = match exit {
        Some(c) => c,
        None => -1i32,
    };
    match stage {
        BuildStage::Install => if code == 0 && exit.is_some() {
            BuildStage::Bundle
        } else {
            BuildStage::Failed { code }
        },
        BuildStage::Bundle => if code == 0 && exit.is_some() {
            BuildStage::Cleanup
        } else {
            BuildStage::Failed { code }
        },
        _ => stage,
    }
}

/// A failed build runs no tool again.
proof fn lemma_failed_trace(code: i32, exits: Seq<Option<i32>>)
    ensures
        trace(BuildStage::Failed { code }, exits) == seq![BuildStage::Failed { code }],
{
}

/// When the installer does not exit with zero, the bundler is never run:
/// no stage of the build's trace runs it.
pub proof fn lemma_install_failure_skips_bundle(exits: Seq<Option<i32>>)
    requires
        exits.len() > 0,
        exits[0] != Some(0i32),
    ensures
        forall|i: int|
            0 <= i < trace(BuildStage::Install, exits).len() ==> tool_of(
                #[trigger] trace(BuildStage::Install, exits)[i],
            ) != Some(Tool::Bundler),
{
    let f = BuildStage::Failed { code: exit_code(exits[0]) };
    lemma_failed_trace(exit_code(exits[0]), exits.drop_first());
    assert(trace(BuildStage::Install, exits) =~= seq![BuildStage::Install, f]);
}

/// Whether a file extension marks a source file that the built plugin does
/// not ship (TypeScript and SCSS sources).
pub fn is_source_file(ext: &String) -> (r: bool)
    ensures
        r == (ext@ == "ts"@ || ext@ == "tsx"@ || ext@ == "scss"@),
{
    *ext == String::from_str("ts") || *ext == String::from_str("tsx") || *ext == String::from_str("scss")
}

} // verus!
