//! The job orchestrator's decisions, one lifecycle step at a time. The
//! blocking work — reading the disk, the layout transform, the upload,
//! the remote command — happens outside, between these calls, never
//! under the registry's guard: each function here takes the outcome of
//! one step, moves the job's record accordingly, and says what the next
//! step is. Every transition these functions make follows the lifecycle
//! graph.
use vstd::prelude::*;
use vstd::string::StringExecFns;
use crate::command::{build_lpr_command, spec_cancel_command, spec_lpr_command,
    build_cancel_command};
use crate::digits::{append_u64, dec_digits};
use crate::listing::{parse_queue_identifier, spec_queue_identifier};
use crate::registry::{JobRegistry, clone_opt_string, contains_id, find_idx, lemma_find_idx,
    lemma_find_idx_unique, opt_string_view, with_external_id, with_status};
use crate::types::{PrintError, PrintJobStatus, PrintSettings, PrintSettingsView, is_terminal,
    is_remote_active, lifecycle_step, status_is_terminal, status_is_remote_active};

verus! {

/// Whether the chosen settings ask for a layout pass — a booklet or a
/// multi-up imposition — before upload.
pub open spec fn spec_needs_transform(s: PrintSettingsView) -> bool {
    s.booklet || s.pages_per_sheet > 1
}

/// The remote upload path for a job, derived from its id alone: ids are
/// unique, so paths never collide.
pub open spec fn spec_remote_path(id: u64) -> Seq<char> {
    "/tmp/printq_job_"@ + dec_digits(id as nat)
}

/// Builds the remote upload path for a job id.
pub fn build_remote_path(id: u64) -> (r: String)
    ensures
        r@ == spec_remote_path(id),
{
    let mut out = String::from_str("/tmp/printq_job_");
    append_u64(&mut out, id);
    assert(out@ =~= spec_remote_path(id));
    out
}

/// What the driver must do to carry a submission forward once the job
/// is Uploading: where the document is, whether to transform it first,
/// where to put it remotely, and for which destination.
pub struct SubmitPlan {
    pub job_id: u64,
    pub source: String,
    pub destination: String,
    pub needs_transform: bool,
    pub remote_path: String,
    pub settings: PrintSettings,
}

/// Opens a submission: moves a Pending job to Uploading and hands back
/// the plan for the outside steps — unless the source document is
/// already gone, in which case the job goes straight to Failed and
/// nothing is ever sent to the remote system. Fails with NotFound for an
/// absent id and InvalidState for a job not in Pending, changing
/// nothing.
pub fn submit_prepare(reg: &mut JobRegistry, id: u64, source_exists: bool, now: u64) -> (r: Result<
    SubmitPlan,
    PrintError,
>)
    requires
        old(reg).wf(),
    ensures
        final(reg).wf(),
        final(reg).fresh_id() == old(reg).fresh_id(),
        ({
            let js = old(reg).jobs_view();
            let i = find_idx(js, id);
            match r {
                Ok(plan) => {
                    &&& contains_id(js, id)
                    &&& js[i].status == PrintJobStatus::Pending
                    &&& source_exists
                    &&& plan.job_id == id
                    &&& plan.source@ == js[i].file_path
                    &&& plan.destination@ == js[i].printer
                    &&& plan.needs_transform == spec_needs_transform(js[i].settings)
                    &&& plan.remote_path@ == spec_remote_path(id)
                    &&& plan.settings@ == js[i].settings
                    &&& final(reg).jobs_view() == js.update(
                        i,
                        with_status(js[i], PrintJobStatus::Uploading, None, now),
                    )
                    &&& final(reg).is_dirty()
                    &&& lifecycle_step(js[i].status, PrintJobStatus::Uploading)
                },
                Err(e) => {
                    &&& (e == PrintError::NotFound <==> !contains_id(js, id))
                    &&& (e == PrintError::NotFound ==> *final(reg) == *old(reg))
                    &&& (e == PrintError::InvalidState ==> contains_id(js, id) && js[i].status
                        != PrintJobStatus::Pending && *final(reg) == *old(reg))
                    &&& (e == PrintError::SourceMissing ==> contains_id(js, id) && js[i].status
                        == PrintJobStatus::Pending && !source_exists && final(reg).jobs_view()
                        == js.update(
                        i,
                        with_status(
                            js[i],
                            PrintJobStatus::Failed,
                            Some("source document no longer exists"@),
                            now,
                        ),
                    ) && final(reg).is_dirty() && lifecycle_step(
                        js[i].status,
                        PrintJobStatus::Failed,
                    ))
                    &&& (e == PrintError::NotFound || e == PrintError::InvalidState || e
                        == PrintError::SourceMissing)
                },
            }
        }),
{
    let ghost js = reg.jobs_view();
    let job = match reg.get(id) {
        None => {
            proof {
                lemma_find_idx(js, id);
            }
            return Err(PrintError::NotFound);
        },
        Some(j) => j,
    };
    proof {
        lemma_find_idx(js, id);
    }
    let is_pending = match job.status {
        PrintJobStatus::Pending => true,
        _ => false,
    };
    if !is_pending {
        return Err(PrintError::InvalidState);
    }
    match reg.update_status(id, PrintJobStatus::Uploading, None, now) {
        Err(e) => {
            return Err(e);
        },
        Ok(_) => {},
    }
    let ghost i = find_idx(js, id);
    let ghost v1 = reg.jobs_view();
    if !source_exists {
        proof {
            lemma_find_idx_unique(v1, i);
        }
        match reg.update_status(
            id,
            PrintJobStatus::Failed,
            Some(String::from_str("source document no longer exists")),
            now,
        ) {
            Err(e) => {
                return Err(e);
            },
            Ok(_) => {},
        }
        proof {
            assert(reg.jobs_view() =~= js.update(
                i,
                with_status(
                    js[i],
                    PrintJobStatus::Failed,
                    Some("source document no longer exists"@),
                    now,
                ),
            ));
        }
        return Err(PrintError::SourceMissing);
    }
    let needs_transform = job.settings.booklet || job.settings.pages_per_sheet > 1;
    let remote_path = build_remote_path(id);
    Ok(
        SubmitPlan {
            job_id: id,
            source: job.file_path,
            destination: job.printer,
            needs_transform,
            remote_path,
            settings: job.settings,
        },
    )
}

/// Records a failed submission step — a layout transform, an upload or
/// the remote command — failing the job with the step's own message.
/// Fails with NotFound for an absent id and InvalidState for a job
/// already terminal, changing nothing.
pub fn submit_mark_failed(reg: &mut JobRegistry, id: u64, message: String, now: u64) -> (r: Result<
    (),
    PrintError,
>)
    requires
        old(reg).wf(),
    ensures
        final(reg).wf(),
        final(reg).fresh_id() == old(reg).fresh_id(),
        ({
            let js = old(reg).jobs_view();
            let i = find_idx(js, id);
            match r {
                Ok(_) => {
                    &&& contains_id(js, id)
                    &&& !is_terminal(js[i].status)
                    &&& final(reg).jobs_view() == js.update(
                        i,
                        with_status(js[i], PrintJobStatus::Failed, Some(message@), now),
                    )
                    &&& final(reg).is_dirty()
                    &&& lifecycle_step(js[i].status, PrintJobStatus::Failed)
                },
                Err(e) => {
                    &&& (e == PrintError::NotFound <==> !contains_id(js, id))
                    &&& (e == PrintError::InvalidState <==> contains_id(js, id) && is_terminal(
                        js[i].status,
                    ))
                    &&& *final(reg) == *old(reg)
                    &&& (e == PrintError::NotFound || e == PrintError::InvalidState)
                },
            }
        }),
{
    let ghost js = reg.jobs_view();
    let job = match reg.get(id) {
        None => {
            proof {
                lemma_find_idx(js, id);
            }
            return Err(PrintError::NotFound);
        },
        Some(j) => j,
    };
    proof {
        lemma_find_idx(js, id);
    }
    if status_is_terminal(job.status) {
        return Err(PrintError::InvalidState);
    }
    match reg.update_status(id, PrintJobStatus::Failed, Some(message), now) {
        Err(e) => Err(e),
        Ok(_) => Ok(()),
    }
}

/// Records a finished upload: moves the job from Uploading to Queued and
/// hands back the print submission command to send. Fails with NotFound
/// for an absent id and InvalidState for a job not in Uploading,
/// changing nothing.
pub fn submit_uploaded(reg: &mut JobRegistry, id: u64, now: u64) -> (r: Result<String, PrintError>)
    requires
        old(reg).wf(),
    ensures
        final(reg).wf(),
        final(reg).fresh_id() == old(reg).fresh_id(),
        ({
            let js = old(reg).jobs_view();
            let i = find_idx(js, id);
            match r {
                Ok(cmd) => {
                    &&& contains_id(js, id)
                    &&& js[i].status == PrintJobStatus::Uploading
                    &&& cmd@ == spec_lpr_command(js[i].printer, spec_remote_path(id), js[i].settings)
                    &&& final(reg).jobs_view() == js.update(
                        i,
                        with_status(js[i], PrintJobStatus::Queued, None, now),
                    )
                    &&& final(reg).is_dirty()
                    &&& lifecycle_step(js[i].status, PrintJobStatus::Queued)
                },
                Err(e) => {
                    &&& (e == PrintError::NotFound <==> !contains_id(js, id))
                    &&& (e == PrintError::InvalidState <==> contains_id(js, id) && js[i].status
                        != PrintJobStatus::Uploading)
                    &&& *final(reg) == *old(reg)
                    &&& (e == PrintError::NotFound || e == PrintError::InvalidState)
                },
            }
        }),
{
    let ghost js = reg.jobs_view();
    let job = match reg.get(id) {
        None => {
            proof {
                lemma_find_idx(js, id);
            }
            return Err(PrintError::NotFound);
        },
        Some(j) => j,
    };
    proof {
        lemma_find_idx(js, id);
    }
    let is_uploading = match job.status {
        PrintJobStatus::Uploading => true,
        _ => false,
    };
    if !is_uploading {
        return Err(PrintError::InvalidState);
    }
    match reg.update_status(id, PrintJobStatus::Queued, None, now) {
        Err(e) => {
            return Err(e);
        },
        Ok(_) => {},
    }
    let remote_path = build_remote_path(id);
    let cmd = build_lpr_command(job.printer.as_str(), remote_path.as_str(), &job.settings);
    Ok(cmd)
}

/// Records an accepted submission: moves the job from Queued to
/// Printing and captures whatever external queue identifier the remote
/// response yields — its first token, or nothing. Fails with NotFound
/// for an absent id and InvalidState for a job not in Queued, changing
/// nothing.
pub fn submit_command_succeeded(reg: &mut JobRegistry, id: u64, output: &str, now: u64) -> (r:
    Result<Option<String>, PrintError>)
    requires
        old(reg).wf(),
    ensures
        final(reg).wf(),
        final(reg).fresh_id() == old(reg).fresh_id(),
        ({
            let js = old(reg).jobs_view();
            let i = find_idx(js, id);
            match r {
                Ok(ident) => {
                    &&& contains_id(js, id)
                    &&& js[i].status == PrintJobStatus::Queued
                    &&& opt_string_view(ident) == spec_queue_identifier(output@)
                    &&& final(reg).jobs_view() == js.update(
                        i,
                        with_external_id(
                            with_status(js[i], PrintJobStatus::Printing, None, now),
                            spec_queue_identifier(output@),
                            now,
                        ),
                    )
                    &&& final(reg).is_dirty()
                    &&& lifecycle_step(js[i].status, PrintJobStatus::Printing)
                },
                Err(e) => {
                    &&& (e == PrintError::NotFound <==> !contains_id(js, id))
                    &&& (e == PrintError::InvalidState <==> contains_id(js, id) && js[i].status
                        != PrintJobStatus::Queued)
                    &&& *final(reg) == *old(reg)
                    &&& (e == PrintError::NotFound || e == PrintError::InvalidState)
                },
            }
        }),
{
    let ghost js = reg.jobs_view();
    let job = match reg.get(id) {
        None => {
            proof {
                lemma_find_idx(js, id);
            }
            return Err(PrintError::NotFound);
        },
        Some(j) => j,
    };
    proof {
        lemma_find_idx(js, id);
    }
    let is_queued = match job.status {
        PrintJobStatus::Queued => true,
        _ => false,
    };
    if !is_queued {
        return Err(PrintError::InvalidState);
    }
    match reg.update_status(id, PrintJobStatus::Printing, None, now) {
        Err(e) => {
            return Err(e);
        },
        Ok(_) => {},
    }
    let ghost i = find_idx(js, id);
    let ghost v1 = reg.jobs_view();
    proof {
        lemma_find_idx_unique(v1, i);
    }
    let ident = parse_queue_identifier(output);
    match reg.set_external_id(id, clone_opt_string(&ident), now) {
        Err(e) => {
            return Err(e);
        },
        Ok(_) => {},
    }
    proof {
        assert(reg.jobs_view() =~= js.update(
            i,
            with_external_id(
                with_status(js[i], PrintJobStatus::Printing, None, now),
                spec_queue_identifier(output@),
                now,
            ),
        ));
    }
    Ok(ident)
}

/// Opens a cancellation: for a job with a live remote trace the remote
/// cancel command must succeed first, so it is handed back; a job not
/// yet submitted needs no remote step. Fails with NotFound for an absent
/// id and InvalidState for a job already terminal. Nothing changes until
/// `cancel_commit`: a refused remote cancel leaves the job as it was.
pub fn cancel_prepare(reg: &JobRegistry, id: u64) -> (r: Result<Option<String>, PrintError>)
    requires
        reg.wf(),
    ensures
        ({
            let js = reg.jobs_view();
            let i = find_idx(js, id);
            match r {
                Ok(cmd) => {
                    &&& contains_id(js, id)
                    &&& !is_terminal(js[i].status)
                    &&& match cmd {
                        Some(c) => is_remote_active(js[i].status) && c@ == spec_cancel_command(
                            js[i].printer,
                            js[i].name,
                        ),
                        None => !is_remote_active(js[i].status),
                    }
                },
                Err(e) => {
                    &&& (e == PrintError::NotFound <==> !contains_id(js, id))
                    &&& (e == PrintError::InvalidState <==> contains_id(js, id) && is_terminal(
                        js[i].status,
                    ))
                    &&& (e == PrintError::NotFound || e == PrintError::InvalidState)
                },
            }
        }),
{
    let ghost js = reg.jobs_view();
    let job = match reg.get(id) {
        None => {
            proof {
                lemma_find_idx(js, id);
            }
            return Err(PrintError::NotFound);
        },
        Some(j) => j,
    };
    proof {
        lemma_find_idx(js, id);
    }
    if status_is_terminal(job.status) {
        return Err(PrintError::InvalidState);
    }
    if status_is_remote_active(job.status) {
        Ok(Some(build_cancel_command(job.printer.as_str(), job.name.as_str())))
    } else {
        Ok(None)
    }
}

/// Commits a cancellation — called only once any required remote cancel
/// has reported success: the job moves to Cancelled. Fails with NotFound
/// for an absent id and InvalidState for a job already terminal,
/// changing nothing.
pub fn cancel_commit(reg: &mut JobRegistry, id: u64, now: u64) -> (r: Result<(), PrintError>)
    requires
        old(reg).wf(),
    ensures
        final(reg).wf(),
        final(reg).fresh_id() == old(reg).fresh_id(),
        ({
            let js = old(reg).jobs_view();
            let i = find_idx(js, id);
            match r {
                Ok(_) => {
                    &&& contains_id(js, id)
                    &&& !is_terminal(js[i].status)
                    &&& final(reg).jobs_view() == js.update(
                        i,
                        with_status(js[i], PrintJobStatus::Cancelled, None, now),
                    )
                    &&& final(reg).is_dirty()
                    &&& lifecycle_step(js[i].status, PrintJobStatus::Cancelled)
                },
                Err(e) => {
                    &&& (e == PrintError::NotFound <==> !contains_id(js, id))
                    &&& (e == PrintError::InvalidState <==> contains_id(js, id) && is_terminal(
                        js[i].status,
                    ))
                    &&& *final(reg) == *old(reg)
                    &&& (e == PrintError::NotFound || e == PrintError::InvalidState)
                },
            }
        }),
{
    let ghost js = reg.jobs_view();
    let job = match reg.get(id) {
        None => {
            proof {
                lemma_find_idx(js, id);
            }
            return Err(PrintError::NotFound);
        },
        Some(j) => j,
    };
    proof {
        lemma_find_idx(js, id);
    }
    if status_is_terminal(job.status) {
        return Err(PrintError::InvalidState);
    }
    match reg.update_status(id, PrintJobStatus::Cancelled, None, now) {
        Err(e) => Err(e),
        Ok(_) => Ok(()),
    }
}

} // verus!
