use printq::listing::parse_queue_listing;
use printq::orchestrator::{submit_command_succeeded, submit_prepare, submit_uploaded};
use printq::reconcile::{reconcile_destination, reconcile_targets};
use printq::registry::JobRegistry;
use printq::types::{DuplexMode, Orientation, PageRange, PaperSize, PrintJobStatus, PrintSettings};

fn duplex_settings() -> PrintSettings {
    PrintSettings {
        copies: 1,
        duplex: DuplexMode::DuplexLongEdge,
        orientation: Orientation::Portrait,
        page_range: PageRange::All,
        pages_per_sheet: 1,
        booklet: false,
        paper_size: PaperSize::A4,
    }
}

fn printing_job(reg: &mut JobRegistry, printer: &str, response: &str, now: u64) -> u64 {
    let id = reg.create(
        "doc".to_string(),
        "/tmp/doc.pdf".to_string(),
        printer.to_string(),
        duplex_settings(),
        now,
    );
    submit_prepare(reg, id, true, now + 1).unwrap();
    submit_uploaded(reg, id, now + 2).unwrap();
    submit_command_succeeded(reg, id, response, now + 3).unwrap();
    id
}

#[test]
fn vanished_identifier_completes_the_job_exactly_once() {
    let mut reg = JobRegistry::new();
    let gone = printing_job(&mut reg, "psts", "job-42", 100);
    let alive = printing_job(&mut reg, "psts", "job-43", 200);

    let listing = "psts is ready and printing\n\
                   Rank Owner Job File(s) Total Size\n\
                   1st carol job-43 slides.pdf 2048 bytes\n";
    let entries = parse_queue_listing(listing);

    let moved = reconcile_destination(&mut reg, "psts", &entries, 300);
    assert_eq!(moved, vec![gone]);
    assert!(matches!(reg.get(gone).unwrap().status, PrintJobStatus::Completed));
    assert!(matches!(reg.get(alive).unwrap().status, PrintJobStatus::Printing));

    // Idempotent: the already-Completed job is no longer considered.
    let moved_again = reconcile_destination(&mut reg, "psts", &entries, 400);
    assert!(moved_again.is_empty());
    let job = reg.get(gone).unwrap();
    assert!(matches!(job.status, PrintJobStatus::Completed));
    assert_eq!(job.updated_at, 300);
}

#[test]
fn job_without_identifier_is_completed_on_the_next_poll() {
    let mut reg = JobRegistry::new();
    // The acceptance response was empty, so no identifier was parsed.
    let id = printing_job(&mut reg, "psts", "", 100);
    assert_eq!(reg.get(id).unwrap().external_id, None);

    let entries = parse_queue_listing("1st dave job-99 big.pdf 1 byte\n");
    let moved = reconcile_destination(&mut reg, "psts", &entries, 200);
    assert_eq!(moved, vec![id]);
    assert!(matches!(reg.get(id).unwrap().status, PrintJobStatus::Completed));
}

#[test]
fn other_destinations_are_left_alone() {
    let mut reg = JobRegistry::new();
    let elsewhere = printing_job(&mut reg, "psc008", "job-7", 100);
    let entries = parse_queue_listing("");
    let moved = reconcile_destination(&mut reg, "psts", &entries, 200);
    assert!(moved.is_empty());
    assert!(matches!(reg.get(elsewhere).unwrap().status, PrintJobStatus::Printing));
}

#[test]
fn pending_jobs_are_not_reconciled() {
    let mut reg = JobRegistry::new();
    let id = reg.create(
        "fresh".to_string(),
        "/tmp/f.pdf".to_string(),
        "psts".to_string(),
        duplex_settings(),
        1,
    );
    let entries = parse_queue_listing("");
    let moved = reconcile_destination(&mut reg, "psts", &entries, 2);
    assert!(moved.is_empty());
    assert!(matches!(reg.get(id).unwrap().status, PrintJobStatus::Pending));
}

#[test]
fn targets_are_the_distinct_destinations_of_active_jobs() {
    let mut reg = JobRegistry::new();
    printing_job(&mut reg, "psts", "job-1", 100);
    printing_job(&mut reg, "psc008", "job-2", 200);
    printing_job(&mut reg, "psts", "job-3", 300);
    reg.create(
        "idle".to_string(),
        "/tmp/i.pdf".to_string(),
        "pstsc".to_string(),
        duplex_settings(),
        400,
    );
    let snapshot = reg.list();
    let targets = reconcile_targets(&snapshot);
    assert_eq!(targets, vec!["psts".to_string(), "psc008".to_string()]);
}
