use printq::booklet::{generate_booklet_layout_internal, nup_grid};
use printq::command::{build_cancel_command, build_lpr_command, build_queue_command,
    command_outcome};
use printq::digits::u64_string;
use printq::listing::{is_entry_line_str, line_mentions_str, listing_mentions_entries,
    parse_queue_identifier, parse_queue_listing};
use printq::paths::{get_backup_file_path, get_backups_dir, get_history_dir,
    get_history_file_path};
use printq::types::{ApiResponse, DuplexMode, Orientation, PageRange, PaperSize, PrintError,
    PrintSettings, status_is_terminal, PrintJobStatus};

fn cmd_settings(copies: u32, duplex: DuplexMode) -> PrintSettings {
    PrintSettings {
        copies,
        duplex,
        orientation: Orientation::Portrait,
        page_range: PageRange::All,
        pages_per_sheet: 1,
        booklet: false,
        paper_size: PaperSize::A4,
    }
}

#[test]
fn duplex_submission_uses_the_bare_queue() {
    let cmd = build_lpr_command("q1", "/tmp/doc.pdf", &cmd_settings(2, DuplexMode::DuplexLongEdge));
    assert_eq!(cmd, "lpr -P q1 -\\# 2 /tmp/doc.pdf");
}

#[test]
fn simplex_submission_uses_the_single_sided_queue() {
    let cmd = build_lpr_command("psts", "/tmp/doc.pdf", &cmd_settings(1, DuplexMode::Simplex));
    assert_eq!(cmd, "lpr -P psts-sx /tmp/doc.pdf");
}

#[test]
fn single_copy_needs_no_copies_flag() {
    let cmd = build_lpr_command("q1", "/x", &cmd_settings(1, DuplexMode::DuplexShortEdge));
    assert_eq!(cmd, "lpr -P q1 /x");
}

#[test]
fn queue_and_cancel_commands() {
    assert_eq!(build_queue_command("psc008"), "lpq -P psc008");
    assert_eq!(build_cancel_command("psts", "thesis"), "lprm -P psts thesis");
}

#[test]
fn zero_exit_hands_back_stdout() {
    let r = command_outcome(0, "all good".to_string(), "noise".to_string());
    assert_eq!(r.unwrap(), "all good");
}

#[test]
fn nonzero_exit_prefers_stderr() {
    match command_outcome(1, "out".to_string(), "no such printer".to_string()) {
        Err(PrintError::Command { exit_code, diagnostic }) => {
            assert_eq!(exit_code, 1);
            assert_eq!(diagnostic, "no such printer");
        }
        _ => panic!("expected a command error"),
    }
}

#[test]
fn nonzero_exit_falls_back_to_stdout() {
    match command_outcome(2, "lp: stopped".to_string(), "".to_string()) {
        Err(PrintError::Command { exit_code, diagnostic }) => {
            assert_eq!(exit_code, 2);
            assert_eq!(diagnostic, "lp: stopped");
        }
        _ => panic!("expected a command error"),
    }
}

#[test]
fn decimal_rendering_is_exact() {
    assert_eq!(u64_string(0), "0");
    assert_eq!(u64_string(7), "7");
    assert_eq!(u64_string(12345), "12345");
    assert_eq!(u64_string(u64::MAX), "18446744073709551615");
}

#[test]
fn queue_identifier_is_the_first_token() {
    assert_eq!(parse_queue_identifier("job-42"), Some("job-42".to_string()));
    assert_eq!(parse_queue_identifier("  job-7 accepted"), Some("job-7".to_string()));
    assert_eq!(parse_queue_identifier(""), None);
    assert_eq!(parse_queue_identifier("   "), None);
    assert_eq!(parse_queue_identifier("\njob-9"), None);
}

#[test]
fn entry_lines_are_the_rank_prefixed_ones() {
    assert!(is_entry_line_str("1st alice 123 report.pdf 1024 bytes"));
    assert!(is_entry_line_str("  2nd bob 124 x.pdf 2048 bytes"));
    assert!(is_entry_line_str("3rd carol 125 y.pdf 1 byte"));
    assert!(is_entry_line_str("4th dave 126 z.pdf 1 byte"));
    assert!(!is_entry_line_str("Rank Owner Job File(s) Total Size"));
    assert!(!is_entry_line_str("psts is ready and printing"));
    assert!(!is_entry_line_str(""));
    assert!(!is_entry_line_str("   "));
}

#[test]
fn listing_parse_keeps_entries_and_drops_headers() {
    let listing = "psts is ready and printing\n\
                   Rank Owner Job File(s) Total Size\n\
                   1st alice 123 report.pdf 1024 bytes\n\
                   2nd bob 124 x.pdf 2048 bytes\n\
                   \n";
    let entries = parse_queue_listing(listing);
    assert_eq!(entries, vec![
        "1st alice 123 report.pdf 1024 bytes".to_string(),
        "2nd bob 124 x.pdf 2048 bytes".to_string(),
    ]);
    assert!(listing_mentions_entries(&entries, "123"));
    assert!(listing_mentions_entries(&entries, "124"));
    assert!(!listing_mentions_entries(&entries, "125"));
    // Substrings of a token do not count as the identifier.
    assert!(!listing_mentions_entries(&entries, "12"));
}

#[test]
fn token_matching_is_whole_token_only() {
    assert!(line_mentions_str("1st alice job-42 a.pdf", "job-42"));
    assert!(!line_mentions_str("1st alice job-421 a.pdf", "job-42"));
    assert!(!line_mentions_str("", "job-42"));
}

#[test]
fn storage_paths_hang_off_the_data_directory() {
    assert_eq!(get_history_dir("/data/app"), "/data/app/history");
    assert_eq!(get_backups_dir("/data/app"), "/data/app/backups");
    assert_eq!(get_history_file_path("/data/app"), "/data/app/history/print_jobs.dat");
    assert_eq!(get_backup_file_path("/data/app", 7), "/data/app/backups/7/original.pdf");
}

#[test]
fn booklet_layout_for_five_pages() {
    let layout = generate_booklet_layout_internal(5);
    assert_eq!(layout.total_sheets, 2);
    assert_eq!(layout.pages_per_sheet, 4);
    assert_eq!(layout.page_order, vec![
        vec![None, Some(1), Some(2), None],
        vec![None, Some(3), Some(4), Some(5)],
    ]);
}

#[test]
fn booklet_layout_for_eight_pages() {
    let layout = generate_booklet_layout_internal(8);
    assert_eq!(layout.total_sheets, 2);
    assert_eq!(layout.page_order, vec![
        vec![Some(8), Some(1), Some(2), Some(7)],
        vec![Some(6), Some(3), Some(4), Some(5)],
    ]);
}

#[test]
fn booklet_layout_for_no_pages() {
    let layout = generate_booklet_layout_internal(0);
    assert_eq!(layout.total_sheets, 0);
    assert!(layout.page_order.is_empty());
}

#[test]
fn response_envelope_carries_result_or_error() {
    let ok: ApiResponse<u32> = ApiResponse::success(5);
    assert!(ok.success);
    assert_eq!(ok.data, Some(5));
    assert_eq!(ok.error, None);
    let bad: ApiResponse<u32> = ApiResponse::error("it broke".to_string());
    assert!(!bad.success);
    assert_eq!(bad.data, None);
    assert_eq!(bad.error, Some("it broke".to_string()));
}

#[test]
fn terminal_statuses() {
    assert!(status_is_terminal(PrintJobStatus::Completed));
    assert!(status_is_terminal(PrintJobStatus::Failed));
    assert!(status_is_terminal(PrintJobStatus::Cancelled));
    assert!(!status_is_terminal(PrintJobStatus::Pending));
    assert!(!status_is_terminal(PrintJobStatus::Printing));
}

#[test]
fn nup_grids_cover_the_supported_counts() {
    assert_eq!(nup_grid(2), Some((2, 1)));
    assert_eq!(nup_grid(4), Some((2, 2)));
    assert_eq!(nup_grid(6), Some((3, 2)));
    assert_eq!(nup_grid(9), Some((3, 3)));
    assert_eq!(nup_grid(3), None);
    assert_eq!(nup_grid(1), None);
}
