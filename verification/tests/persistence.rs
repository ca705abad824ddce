use printq::registry::JobRegistry;
use printq::types::{DuplexMode, Orientation, PageRange, PaperSize, PrintJobStatus, PrintSettings};

const DAY: u64 = 86400;

fn plain_settings() -> PrintSettings {
    PrintSettings {
        copies: 1,
        duplex: DuplexMode::Simplex,
        orientation: Orientation::Portrait,
        page_range: PageRange::All,
        pages_per_sheet: 1,
        booklet: false,
        paper_size: PaperSize::A4,
    }
}

fn fancy_settings() -> PrintSettings {
    PrintSettings {
        copies: 3,
        duplex: DuplexMode::DuplexShortEdge,
        orientation: Orientation::Landscape,
        page_range: PageRange::Selection { pages: vec![1, 4, 9] },
        pages_per_sheet: 2,
        booklet: true,
        paper_size: PaperSize::A3,
    }
}

#[test]
fn save_then_load_reproduces_the_records() {
    let mut reg = JobRegistry::new();
    let a = reg.create(
        "notes".to_string(),
        "/home/bob/notes.pdf".to_string(),
        "psts".to_string(),
        plain_settings(),
        1000,
    );
    let b = reg.create(
        "slides; with, odd:chars\nand a newline".to_string(),
        "/home/bob/slides.pdf".to_string(),
        "psc008".to_string(),
        fancy_settings(),
        2000,
    );
    reg.update_status(b, PrintJobStatus::Failed, Some("remote said no".to_string()), 2100)
        .unwrap();
    reg.set_external_id(a, Some("job-17".to_string()), 2200).unwrap();

    let content = reg.save_if_dirty().expect("mutations left the registry dirty");
    reg.confirm_saved();
    assert!(reg.save_if_dirty().is_none());

    let (loaded, warned) = JobRegistry::load(Some(content.as_str()));
    assert!(!warned);
    let before = reg.list();
    let after = loaded.list();
    assert_eq!(before.len(), after.len());
    for (x, y) in before.iter().zip(after.iter()) {
        assert_eq!(x.id, y.id);
        assert_eq!(x.name, y.name);
        assert_eq!(x.file_path, y.file_path);
        assert_eq!(x.printer, y.printer);
        assert_eq!(x.created_at, y.created_at);
        assert_eq!(x.updated_at, y.updated_at);
        assert_eq!(x.error, y.error);
        assert_eq!(x.external_id, y.external_id);
        assert_eq!(x.settings.copies, y.settings.copies);
        assert_eq!(x.settings.duplex, y.settings.duplex);
        assert_eq!(x.settings.orientation, y.settings.orientation);
        assert_eq!(x.settings.pages_per_sheet, y.settings.pages_per_sheet);
        assert_eq!(x.settings.booklet, y.settings.booklet);
        assert_eq!(x.settings.paper_size, y.settings.paper_size);
        match (&x.settings.page_range, &y.settings.page_range) {
            (PageRange::All, PageRange::All) => {}
            (PageRange::Range { start: s1, end: e1 }, PageRange::Range { start: s2, end: e2 }) => {
                assert_eq!(s1, s2);
                assert_eq!(e1, e2);
            }
            (PageRange::Selection { pages: p1 }, PageRange::Selection { pages: p2 }) => {
                assert_eq!(p1, p2);
            }
            _ => panic!("page range did not survive the round trip"),
        }
    }
    // Ids handed out after a restart continue where they left off.
    let mut loaded = loaded;
    let c = loaded.create(
        "new".to_string(),
        "/tmp/new.pdf".to_string(),
        "psts".to_string(),
        plain_settings(),
        3000,
    );
    assert_ne!(c, a);
    assert_ne!(c, b);
}

#[test]
fn malformed_durable_content_loads_as_empty_with_warning() {
    let (reg, warned) = JobRegistry::load(Some("{ this is not a snapshot ]"));
    assert!(warned);
    assert!(reg.list().is_empty());
    assert!(reg.save_if_dirty().is_none());
}

#[test]
fn truncated_snapshot_loads_as_empty_with_warning() {
    let mut reg = JobRegistry::new();
    reg.create("a".to_string(), "/a".to_string(), "p".to_string(), plain_settings(), 1);
    let content = reg.save_if_dirty().unwrap();
    let cut = &content[..content.len() - 3];
    let (loaded, warned) = JobRegistry::load(Some(cut));
    assert!(warned);
    assert!(loaded.list().is_empty());
}

#[test]
fn missing_durable_file_is_a_clean_first_run() {
    let (reg, warned) = JobRegistry::load(None);
    assert!(!warned);
    assert!(reg.list().is_empty());
}

#[test]
fn empty_durable_file_is_a_clean_first_run() {
    let (reg, warned) = JobRegistry::load(Some(""));
    assert!(!warned);
    assert!(reg.list().is_empty());
}

#[test]
fn fresh_registry_has_nothing_to_save() {
    let reg = JobRegistry::new();
    assert!(reg.save_if_dirty().is_none());
}

#[test]
fn cleanup_removes_only_old_terminal_jobs() {
    // A 30-day retention, one Completed job 40 days old, one Printing
    // job 60 days old: only the Completed one goes.
    let now = 100 * DAY;
    let mut reg = JobRegistry::new();
    let done = reg.create(
        "done".to_string(),
        "/d.pdf".to_string(),
        "psts".to_string(),
        plain_settings(),
        now - 40 * DAY,
    );
    let printing = reg.create(
        "printing".to_string(),
        "/p.pdf".to_string(),
        "psts".to_string(),
        plain_settings(),
        now - 60 * DAY,
    );
    reg.update_status(done, PrintJobStatus::Completed, None, now - 39 * DAY).unwrap();
    reg.update_status(printing, PrintJobStatus::Printing, None, now - 59 * DAY).unwrap();

    let removed = reg.cleanup(30 * DAY, now);
    assert_eq!(removed, vec![done]);
    assert!(reg.get(done).is_none());
    assert!(matches!(reg.get(printing).unwrap().status, PrintJobStatus::Printing));
}

#[test]
fn cleanup_keeps_recent_terminal_jobs() {
    let now = 100 * DAY;
    let mut reg = JobRegistry::new();
    let recent = reg.create(
        "recent".to_string(),
        "/r.pdf".to_string(),
        "psts".to_string(),
        plain_settings(),
        now - 10 * DAY,
    );
    reg.update_status(recent, PrintJobStatus::Cancelled, None, now - 9 * DAY).unwrap();
    reg.confirm_saved();
    let removed = reg.cleanup(30 * DAY, now);
    assert!(removed.is_empty());
    assert!(reg.get(recent).is_some());
    // Nothing changed, so nothing became dirty.
    assert!(reg.save_if_dirty().is_none());
}
