use vstd::prelude::*;
use vstd::string::StringSliceAdditionalSpecFns;
use crate::err::CmdErr;
use crate::util::{copy_bytes, lit_bytes};

verus! {

/// The process exit code used when the pipeline fails before launch or when
/// the runtime was ended by a signal and left no exit code.
pub const FAILURE_EXIT_CODE: i32 = 1;

/// What the Runtime Launcher decides to do.
#[derive(Debug, Clone, Copy, PartialEq, Eq, Structural)]
pub enum LaunchAction {
    /// Test mode: wait for one line of synchronization input and report
    /// success without spawning anything.
    Simulate,
    /// Normal mode: run the external runtime in the foreground.
    Invoke,
}

/// Decides the launch mode: the runtime is simulated exactly in test mode.
pub fn plan_launch(test_mode: bool) -> (a: LaunchAction)
    ensures
        a is Simulate <==> test_mode,
{
    if test_mode {
        LaunchAction::Simulate
    } else {
        LaunchAction::Invoke
    }
}

/// The synthetic status a simulated launch reports: success, exit code 0.
pub fn simulated_exit_status() -> (r: Option<i32>)
    ensures
        r == Some(0i32),
{
    Some(0)
}

/// Maps the pipeline's outcome to the final process exit code: the runtime's
/// own exit code when it ran to completion, and the fixed failure code when
/// the pipeline failed or the runtime left no exit code.
pub fn process_exit_code(outcome: &Result<Option<i32>, CmdErr>) -> (r: i32)
    ensures
        match outcome {
            Ok(Some(c)) => r == c,
            Ok(None) => r == FAILURE_EXIT_CODE,
            Err(_) => r == FAILURE_EXIT_CODE,
        },
{
    match outcome {
        Ok(Some(c)) => *c,
        Ok(None) => FAILURE_EXIT_CODE,
        Err(_) => FAILURE_EXIT_CODE,
    }
}

/// Classifies one external-tool invocation, the three-way split every staged
/// call uses: a tool that could not be launched at all is an internal error;
/// a tool that launched and exited non-zero is a user error carrying the
/// tool's diagnostic text; a clean exit is success.
pub fn classify_tool_outcome(
    launched: bool,
    exited_ok: bool,
    detail: String,
    launch_message: &str,
    failure_message: &str,
) -> (r: Result<(), CmdErr>)
    ensures
        r is Ok <==> launched && exited_ok,
        !launched ==> (r matches Err(e) && e.kind is Internal && e.message@ == launch_message@
            && e.secondary == Some(detail)),
        launched && !exited_ok ==> (r matches Err(e) && e.kind is User && e.message@
            == failure_message@ && e.secondary == Some(detail)),
{
    if !launched {
        Err(CmdErr::internal_with(launch_message, detail))
    } else if !exited_ok {
        Err(CmdErr::user_with(failure_message, detail))
    } else {
        Ok(())
    }
}

/// The argument list for the extraction tool: extract `archive` into
/// `dest_dir`, stripping one leading path component from every entry.
pub fn tar_args(dest_dir: &Vec<u8>, archive: &Vec<u8>) -> (r: Vec<Vec<u8>>)
    ensures
        r@.len() == 6,
        r@[0]@ == "--strip-components".spec_bytes(),
        r@[1]@ == "1".spec_bytes(),
        r@[2]@ == "-C".spec_bytes(),
        r@[3]@ == dest_dir@,
        r@[4]@ == "-xf".spec_bytes(),
        r@[5]@ == archive@,
{
    let mut r: Vec<Vec<u8>> = Vec::new();
    r.push(lit_bytes("--strip-components"));
    r.push(lit_bytes("1"));
    r.push(lit_bytes("-C"));
    r.push(copy_bytes(dest_dir));
    r.push(lit_bytes("-xf"));
    r.push(copy_bytes(archive));
    r
}

/// The argument list for the unpack tool, run from the workspace root:
/// unpack `image_dir` into the fixed `bundle` subdirectory, passing
/// `--rootless` through when requested.
pub fn umoci_args(image_dir: &Vec<u8>, rootless: bool) -> (r: Vec<Vec<u8>>)
    ensures
        r@.len() == (if rootless { 5int } else { 4int }),
        r@[0]@ == "unpack".spec_bytes(),
        r@[1]@ == "--image".spec_bytes(),
        r@[2]@ == image_dir@,
        rootless ==> r@[3]@ == "--rootless".spec_bytes(),
        r@[r@.len() - 1]@ == "bundle".spec_bytes(),
{
    let mut r: Vec<Vec<u8>> = Vec::new();
    r.push(lit_bytes("unpack"));
    r.push(lit_bytes("--image"));
    r.push(copy_bytes(image_dir));
    if rootless {
        r.push(lit_bytes("--rootless"));
    }
    r.push(lit_bytes("bundle"));
    r
}

/// The argument list for the runtime, run from the bundle root: `run` the
/// container under the generated identity, with an isolated state-root
/// directory when rootless.
pub fn runc_args(rootless: bool, root_dir: &Vec<u8>, name: &Vec<u8>) -> (r: Vec<Vec<u8>>)
    ensures
        r@.len() == (if rootless { 4int } else { 2int }),
        rootless ==> r@[0]@ == "--root".spec_bytes() && r@[1]@ == root_dir@,
        r@[r@.len() - 2]@ == "run".spec_bytes(),
        r@[r@.len() - 1]@ == name@,
{
    let mut r: Vec<Vec<u8>> = Vec::new();
    if rootless {
        r.push(lit_bytes("--root"));
        r.push(copy_bytes(root_dir));
    }
    r.push(lit_bytes("run"));
    r.push(copy_bytes(name));
    r
}

} // verus!
