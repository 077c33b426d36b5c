//! The formatter invoker's decisions: the exact command line that flushes one
//! group to the external formatting tool, and the error synthesized when the
//! tool exits with a failure status.
//!
//! Launching the process, waiting for it and reading its diagnostic stream
//! are the caller's side effects; everything decided here — which program,
//! which arguments, which message — is computed and verified in this module.

use vstd::prelude::*;
use vstd::string::StringExecFns;

use crate::hunks::FileGroup;
use crate::selector::{selector_json, selector_of};

verus! {

/// The formatting tool invoked by default.
pub const RUSTFMT: &'static str = "rustfmt";

/// One prepared invocation of the external formatting tool: the program to
/// launch and its arguments, in order.
pub struct Invocation {
    pub program: String,
    pub args: Vec<String>,
}

/// Build the invocation that flushes one group: the default tool, told to
/// enable unstable features, given the group's file, and told to restrict
/// formatting to the group's line ranges through the JSON selector.
pub fn invocation(group: &FileGroup) -> (inv: Invocation)
    ensures
        inv.program@ == "rustfmt"@,
        inv.args@.len() == 4,
        inv.args@[0]@ == "--unstable-features"@,
        inv.args@[1]@ == group@.file,
        inv.args@[2]@ == "--file-lines"@,
        inv.args@[3]@ == selector_of(group@),
{
    let mut program = String::new();
    program.append(RUSTFMT);
    let mut args: Vec<String> = Vec::new();
    let mut flag = String::new();
    flag.append("--unstable-features");
    args.push(flag);
    let mut file = String::new();
    file.append(group.file.as_str());
    args.push(file);
    let mut lines_flag = String::new();
    lines_flag.append("--file-lines");
    args.push(lines_flag);
    args.push(selector_json(group));
    proof {
        reveal_strlit("rustfmt");
    }
    Invocation { program, args }
}

/// What `str::trim` returns: the argument without its leading and trailing
/// whitespace. The result depends on the characters alone.
pub uninterp spec fn trim_of(s: Seq<char>) -> Seq<char>;

/// Relies on `str::trim`: it returns the argument's slice with leading and
/// trailing whitespace removed.
#[verifier::external_body]
fn trim_str<'a>(s: &'a str) -> (r: &'a str)
    ensures
        r@ == trim_of(s@),
{
    s.trim()
}

/// The message reported when the tool exits with a failure status and no
/// usable diagnostic line is at hand.
pub open spec fn bare_failure_of(program: Seq<char>) -> Seq<char> {
    "process `"@ + program + "` failed"@
}

/// The view of an optional diagnostic line.
pub open spec fn diag_view(diagnostic: Option<&str>) -> Option<Seq<char>> {
    match diagnostic {
        Some(d) => Some(d@),
        None => None,
    }
}

/// The message reported when the tool exits with a failure status: it names
/// the program, and carries the trimmed first diagnostic line when one was
/// read and trimming leaves something of it.
pub open spec fn failure_message_of(program: Seq<char>, diagnostic: Option<Seq<char>>) -> Seq<
    char,
> {
    match diagnostic {
        Some(d) => if trim_of(d).len() == 0 {
            bare_failure_of(program)
        } else {
            bare_failure_of(program) + ": "@ + trim_of(d)
        },
        None => bare_failure_of(program),
    }
}

/// Build the failure message for one tool run: `process `<program>` failed`,
/// suffixed with the trimmed first diagnostic line when one is available and
/// non-empty.
pub fn failure_message(program: &str, diagnostic: Option<&str>) -> (r: String)
    ensures
        r@ == failure_message_of(program@, diag_view(diagnostic)),
{
    let mut r = String::new();
    r.append("process `");
    r.append(program);
    r.append("` failed");
    proof {
        assert(r@ =~= bare_failure_of(program@));
    }
    match diagnostic {
        Some(d) => {
            let t = trim_str(d);
            if !t.is_empty() {
                r.append(": ");
                r.append(t);
                proof {
                    assert(r@ =~= bare_failure_of(program@) + ": "@ + trim_of(d@));
                }
            }
        },
        None => {},
    }
    r
}

/// Decide the outcome of one tool run from its exit status and the first
/// diagnostic line read from its error stream: success exactly when the tool
/// exited successfully, and otherwise the synthesized failure message.
pub fn invocation_outcome(program: &str, exited_ok: bool, diagnostic: Option<&str>) -> (r: Result<
    (),
    String,
>)
    ensures
        exited_ok <==> r is Ok,
        !exited_ok ==> (r matches Err(m) && m@ == failure_message_of(
            program@,
            diag_view(diagnostic),
        )),
{
    if exited_ok {
        Ok(())
    } else {
        Err(failure_message(program, diagnostic))
    }
}

} // verus!
