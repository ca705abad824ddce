//! Layout of the application's storage under its data directory: where
//! the durable history file lives and where each job's backup artifact
//! goes, keyed by job id so artifacts never collide. The platform's data
//! directory itself is resolved outside and handed in.
use vstd::prelude::*;
use vstd::string::StringExecFns;
use crate::digits::{append_u64, dec_digits};

verus! {

/// The directory holding the durable history file.
pub fn get_history_dir(data_dir: &str) -> (r: String)
    ensures
        r@ == data_dir@ + "/history"@,
{
    String::from_str(data_dir).concat("/history")
}

/// The directory holding the per-job backup artifacts.
pub fn get_backups_dir(data_dir: &str) -> (r: String)
    ensures
        r@ == data_dir@ + "/backups"@,
{
    String::from_str(data_dir).concat("/backups")
}

/// The durable history file itself.
pub fn get_history_file_path(data_dir: &str) -> (r: String)
    ensures
        r@ == data_dir@ + "/history"@ + "/print_jobs.dat"@,
{
    let mut out = String::from_str(data_dir);
    out.append("/history");
    out.append("/print_jobs.dat");
    out
}

/// The backup copy of one job's source document, in the job's own
/// directory under the backups directory.
pub fn get_backup_file_path(data_dir: &str, job_id: u64) -> (r: String)
    ensures
        r@ == data_dir@ + "/backups/"@ + dec_digits(job_id as nat) + "/original.pdf"@,
{
    let mut out = String::from_str(data_dir);
    out.append("/backups/");
    append_u64(&mut out, job_id);
    out.append("/original.pdf");
    out
}

} // verus!
