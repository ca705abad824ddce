//! Construction of the commands sent verbatim to the remote spooler, and
//! the executor's reading of a finished command: submission, queue
//! listing and cancel commands, and the rule that a nonzero exit is an
//! error carrying whichever diagnostic stream has content.
use vstd::prelude::*;
use vstd::string::StringExecFns;
use crate::digits::{append_u64, dec_digits};
use crate::types::{DuplexMode, PrintError, PrintErrorView, PrintSettings, PrintSettingsView};

verus! {

/// The queue actually addressed: single-sided printing goes to the
/// queue with the `-sx` suffix, double-sided to the bare queue name.
/// This mapping is a deployment contract of the print cluster.
pub open spec fn spec_queue_name(printer: Seq<char>, duplex: DuplexMode) -> Seq<char> {
    if duplex == DuplexMode::Simplex {
        printer + "-sx"@
    } else {
        printer
    }
}

/// The print submission command: the destination queue, a copies flag
/// when more than one copy is asked for, then the document path.
pub open spec fn spec_lpr_command(
    printer: Seq<char>,
    remote_path: Seq<char>,
    s: PrintSettingsView,
) -> Seq<char> {
    "lpr -P "@ + spec_queue_name(printer, s.duplex) + (if s.copies > 1 {
        " -\\# "@ + dec_digits(s.copies as nat)
    } else {
        Seq::<char>::empty()
    }) + " "@ + remote_path
}

/// The queue listing command for one destination.
pub open spec fn spec_queue_command(printer: Seq<char>) -> Seq<char> {
    "lpq -P "@ + printer
}

/// The cancel command for one job, by destination and job name.
pub open spec fn spec_cancel_command(printer: Seq<char>, job_name: Seq<char>) -> Seq<char> {
    "lprm -P "@ + printer + " "@ + job_name
}

/// Builds the print submission command.
pub fn build_lpr_command(printer: &str, remote_path: &str, settings: &PrintSettings) -> (r: String)
    ensures
        r@ == spec_lpr_command(printer@, remote_path@, settings@),
{
    let mut out = String::from_str("lpr -P ");
    out.append(printer);
    match settings.duplex {
        DuplexMode::Simplex => {
            out.append("-sx");
        },
        _ => {},
    }
    if settings.copies > 1 {
        out.append(" -\\# ");
        append_u64(&mut out, settings.copies as u64);
    }
    out.append(" ");
    out.append(remote_path);
    assert(out@ =~= spec_lpr_command(printer@, remote_path@, settings@));
    out
}

/// Builds the queue listing command.
pub fn build_queue_command(printer: &str) -> (r: String)
    ensures
        r@ == spec_queue_command(printer@),
{
    let out = String::from_str("lpq -P ").concat(printer);
    assert(out@ =~= spec_queue_command(printer@));
    out
}

/// Builds the cancel command.
pub fn build_cancel_command(printer: &str, job_name: &str) -> (r: String)
    ensures
        r@ == spec_cancel_command(printer@, job_name@),
{
    let mut out = String::from_str("lprm -P ");
    out.append(printer);
    out.append(" ");
    out.append(job_name);
    assert(out@ =~= spec_cancel_command(printer@, job_name@));
    out
}

/// What the executor reports for a drained remote command: a zero exit
/// hands back stdout; a nonzero exit is a command error carrying the
/// exit code and stderr, or stdout where stderr is empty.
pub open spec fn spec_command_outcome(
    exit_status: i32,
    stdout: Seq<char>,
    stderr: Seq<char>,
) -> Result<Seq<char>, PrintErrorView> {
    if exit_status == 0 {
        Ok(stdout)
    } else {
        Err(
            PrintErrorView::Command {
                exit_code: exit_status,
                diagnostic: if stderr.len() > 0 {
                    stderr
                } else {
                    stdout
                },
            },
        )
    }
}

/// Turns a finished command's exit status and captured streams into the
/// executor's result. The executor never retries: retry policy, if any,
/// belongs to the caller.
pub fn command_outcome(exit_status: i32, stdout: String, stderr: String) -> (r: Result<
    String,
    PrintError,
>)
    ensures
        match r {
            Ok(s) => spec_command_outcome(exit_status, stdout@, stderr@) == Ok::<
                Seq<char>,
                PrintErrorView,
            >(s@),
            Err(e) => spec_command_outcome(exit_status, stdout@, stderr@) == Err::<
                Seq<char>,
                PrintErrorView,
            >(e@),
        },
{
    if exit_status == 0 {
        Ok(stdout)
    } else if stderr.as_str().unicode_len() > 0 {
        Err(PrintError::Command { exit_code: exit_status, diagnostic: stderr })
    } else {
        Err(PrintError::Command { exit_code: exit_status, diagnostic: stdout })
    }
}

} // verus!
