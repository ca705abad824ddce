use printq::orchestrator::{cancel_commit, cancel_prepare, submit_command_succeeded,
    submit_mark_failed, submit_prepare, submit_uploaded};
use printq::registry::JobRegistry;
use printq::types::{DuplexMode, Orientation, PageRange, PaperSize, PrintError, PrintJobStatus,
    PrintSettings};

fn settings(copies: u32, duplex: DuplexMode) -> PrintSettings {
    PrintSettings {
        copies,
        duplex,
        orientation: Orientation::Portrait,
        page_range: PageRange::All,
        pages_per_sheet: 1,
        booklet: false,
        paper_size: PaperSize::A4,
    }
}

fn new_job(reg: &mut JobRegistry, printer: &str, copies: u32, duplex: DuplexMode, now: u64) -> u64 {
    reg.create(
        "thesis".to_string(),
        "/home/alice/thesis.pdf".to_string(),
        printer.to_string(),
        settings(copies, duplex),
        now,
    )
}

#[test]
fn created_ids_are_unique_and_jobs_start_pending() {
    let mut reg = JobRegistry::new();
    let a = new_job(&mut reg, "psts", 1, DuplexMode::Simplex, 100);
    let b = new_job(&mut reg, "psts", 1, DuplexMode::Simplex, 101);
    let c = new_job(&mut reg, "psc008", 2, DuplexMode::DuplexLongEdge, 102);
    assert_ne!(a, b);
    assert_ne!(a, c);
    assert_ne!(b, c);
    for id in [a, b, c] {
        let job = reg.get(id).expect("created job is present");
        assert!(matches!(job.status, PrintJobStatus::Pending));
    }
}

#[test]
fn ids_stay_unique_after_removal() {
    let mut reg = JobRegistry::new();
    let a = new_job(&mut reg, "psts", 1, DuplexMode::Simplex, 1);
    reg.remove(a).unwrap();
    let b = new_job(&mut reg, "psts", 1, DuplexMode::Simplex, 2);
    assert_ne!(a, b);
}

#[test]
fn submit_with_missing_source_fails_job_without_remote_contact() {
    let mut reg = JobRegistry::new();
    let id = new_job(&mut reg, "psts", 1, DuplexMode::Simplex, 100);
    // The source document is gone: no plan comes back, so nothing is
    // ever uploaded or sent; the record moves to Failed with the reason.
    match submit_prepare(&mut reg, id, false, 200) {
        Err(PrintError::SourceMissing) => {}
        other => panic!("expected the missing-source failure, got {:?}", other.is_ok()),
    }
    let job = reg.get(id).unwrap();
    assert!(matches!(job.status, PrintJobStatus::Failed));
    assert_eq!(job.error, Some("source document no longer exists".to_string()));
    assert_eq!(job.updated_at, 200);
}

#[test]
fn successful_submission_reaches_printing_with_external_id() {
    // Destination "q1", duplex on, two copies; the remote side accepts
    // the command and answers with "job-42".
    let mut reg = JobRegistry::new();
    let id = new_job(&mut reg, "q1", 2, DuplexMode::DuplexLongEdge, 100);
    let plan = submit_prepare(&mut reg, id, true, 101).expect("submission opens");
    assert_eq!(plan.job_id, id);
    assert_eq!(plan.destination, "q1");
    assert_eq!(plan.source, "/home/alice/thesis.pdf");
    assert!(!plan.needs_transform);
    assert!(matches!(reg.get(id).unwrap().status, PrintJobStatus::Uploading));

    let cmd = submit_uploaded(&mut reg, id, 102).expect("upload recorded");
    assert_eq!(cmd, format!("lpr -P q1 -\\# 2 /tmp/printq_job_{}", id));
    assert!(matches!(reg.get(id).unwrap().status, PrintJobStatus::Queued));

    let ident = submit_command_succeeded(&mut reg, id, "job-42", 103).expect("acceptance recorded");
    assert_eq!(ident, Some("job-42".to_string()));
    let job = reg.get(id).unwrap();
    assert!(matches!(job.status, PrintJobStatus::Printing));
    assert_eq!(job.external_id, Some("job-42".to_string()));
}

#[test]
fn booklet_settings_require_a_transform() {
    let mut reg = JobRegistry::new();
    let mut s = settings(1, DuplexMode::Simplex);
    s.booklet = true;
    let id = reg.create("b".to_string(), "/tmp/b.pdf".to_string(), "psts".to_string(), s, 1);
    let plan = submit_prepare(&mut reg, id, true, 2).unwrap();
    assert!(plan.needs_transform);
}

#[test]
fn multi_up_settings_require_a_transform() {
    let mut reg = JobRegistry::new();
    let mut s = settings(1, DuplexMode::Simplex);
    s.pages_per_sheet = 4;
    let id = reg.create("n".to_string(), "/tmp/n.pdf".to_string(), "psts".to_string(), s, 1);
    let plan = submit_prepare(&mut reg, id, true, 2).unwrap();
    assert!(plan.needs_transform);
}

#[test]
fn submit_prepare_on_absent_id_is_not_found() {
    let mut reg = JobRegistry::new();
    assert!(matches!(submit_prepare(&mut reg, 9, true, 1), Err(PrintError::NotFound)));
}

#[test]
fn submit_prepare_twice_is_invalid_state() {
    let mut reg = JobRegistry::new();
    let id = new_job(&mut reg, "psts", 1, DuplexMode::Simplex, 1);
    submit_prepare(&mut reg, id, true, 2).unwrap();
    assert!(matches!(submit_prepare(&mut reg, id, true, 3), Err(PrintError::InvalidState)));
}

#[test]
fn upload_failure_fails_the_job_with_its_message() {
    let mut reg = JobRegistry::new();
    let id = new_job(&mut reg, "psts", 1, DuplexMode::Simplex, 1);
    submit_prepare(&mut reg, id, true, 2).unwrap();
    submit_mark_failed(&mut reg, id, "channel could not be created".to_string(), 3).unwrap();
    let job = reg.get(id).unwrap();
    assert!(matches!(job.status, PrintJobStatus::Failed));
    assert_eq!(job.error, Some("channel could not be created".to_string()));
}

#[test]
fn mark_failed_on_terminal_job_is_invalid_state() {
    let mut reg = JobRegistry::new();
    let id = new_job(&mut reg, "psts", 1, DuplexMode::Simplex, 1);
    submit_prepare(&mut reg, id, false, 2).ok();
    assert!(matches!(
        submit_mark_failed(&mut reg, id, "late".to_string(), 3),
        Err(PrintError::InvalidState)
    ));
}

#[test]
fn cancel_of_queued_job_needs_the_remote_command_first() {
    let mut reg = JobRegistry::new();
    let id = new_job(&mut reg, "psts", 1, DuplexMode::Simplex, 1);
    submit_prepare(&mut reg, id, true, 2).unwrap();
    submit_uploaded(&mut reg, id, 3).unwrap();
    let cmd = cancel_prepare(&reg, id).unwrap();
    assert_eq!(cmd, Some("lprm -P psts thesis".to_string()));
    // The job is untouched until the remote cancel reports success.
    assert!(matches!(reg.get(id).unwrap().status, PrintJobStatus::Queued));
    cancel_commit(&mut reg, id, 4).unwrap();
    assert!(matches!(reg.get(id).unwrap().status, PrintJobStatus::Cancelled));
}

#[test]
fn cancel_of_pending_job_needs_no_remote_step() {
    let mut reg = JobRegistry::new();
    let id = new_job(&mut reg, "psts", 1, DuplexMode::Simplex, 1);
    assert_eq!(cancel_prepare(&reg, id).unwrap(), None);
    cancel_commit(&mut reg, id, 2).unwrap();
    assert!(matches!(reg.get(id).unwrap().status, PrintJobStatus::Cancelled));
}

#[test]
fn cancel_of_terminal_job_is_invalid_state() {
    let mut reg = JobRegistry::new();
    let id = new_job(&mut reg, "psts", 1, DuplexMode::Simplex, 1);
    cancel_commit(&mut reg, id, 2).unwrap();
    assert!(matches!(cancel_prepare(&reg, id), Err(PrintError::InvalidState)));
    assert!(matches!(cancel_commit(&mut reg, id, 3), Err(PrintError::InvalidState)));
}

#[test]
fn update_and_remove_of_absent_id_are_not_found() {
    let mut reg = JobRegistry::new();
    assert!(matches!(
        reg.update_status(3, PrintJobStatus::Completed, None, 1),
        Err(PrintError::NotFound)
    ));
    assert!(matches!(reg.remove(3), Err(PrintError::NotFound)));
    assert!(matches!(cancel_commit(&mut reg, 3, 1), Err(PrintError::NotFound)));
}

#[test]
fn removal_returns_the_record() {
    let mut reg = JobRegistry::new();
    let id = new_job(&mut reg, "psts", 1, DuplexMode::Simplex, 7);
    let job = reg.remove(id).unwrap();
    assert_eq!(job.id, id);
    assert_eq!(job.name, "thesis");
    assert!(reg.get(id).is_none());
}
