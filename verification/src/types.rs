//! Core data model: connection configuration, job records and their
//! settings, the job lifecycle, the error taxonomy, and the uniform
//! success/failure envelope.
use vstd::prelude::*;

verus! {

// ---------- Connection configuration ----------

/// Credential variant used to authenticate a session: either a password or
/// a private key file with an optional passphrase.
#[derive(Clone, Debug)]
pub enum SSHAuthType {
    Password { password: String },
    PrivateKey { key_path: String, passphrase: Option<String> },
}

pub enum SSHAuthTypeView {
    Password { password: Seq<char> },
    PrivateKey { key_path: Seq<char>, passphrase: Option<Seq<char>> },
}

impl View for SSHAuthType {
    type V = SSHAuthTypeView;

    open spec fn view(&self) -> SSHAuthTypeView {
        match self {
            SSHAuthType::Password { password } => SSHAuthTypeView::Password {
                password: password@,
            },
            SSHAuthType::PrivateKey { key_path, passphrase } => SSHAuthTypeView::PrivateKey {
                key_path: key_path@,
                passphrase: match passphrase {
                    Some(p) => Some(p@),
                    None => None,
                },
            },
        }
    }
}

/// Connection parameters for the remote shell host. Immutable once handed
/// to a connect attempt; the session manager keeps a copy for reconnection.
#[derive(Clone, Debug)]
pub struct SSHConfig {
    pub host: String,
    pub port: u16,
    pub username: String,
    pub auth_type: SSHAuthType,
}

pub struct SSHConfigView {
    pub host: Seq<char>,
    pub port: u16,
    pub username: Seq<char>,
    pub auth_type: SSHAuthTypeView,
}

impl View for SSHConfig {
    type V = SSHConfigView;

    open spec fn view(&self) -> SSHConfigView {
        SSHConfigView {
            host: self.host@,
            port: self.port,
            username: self.username@,
            auth_type: self.auth_type@,
        }
    }
}

// ---------- Print settings ----------

#[derive(Clone, Copy, Debug, PartialEq, Eq, Structural)]
pub enum DuplexMode {
    Simplex,
    DuplexLongEdge,
    DuplexShortEdge,
}

#[derive(Clone, Copy, Debug, PartialEq, Eq, Structural)]
pub enum Orientation {
    Portrait,
    Landscape,
}

#[derive(Clone, Copy, Debug, PartialEq, Eq, Structural)]
pub enum PaperSize {
    A4,
    A3,
}

/// Which pages of the document are printed: everything, a contiguous
/// range, or an explicit selection.
#[derive(Clone, Debug)]
pub enum PageRange {
    All,
    Range { start: u32, end: u32 },
    Selection { pages: Vec<u32> },
}

pub enum PageRangeView {
    All,
    Range { start: u32, end: u32 },
    Selection { pages: Seq<u32> },
}

impl View for PageRange {
    type V = PageRangeView;

    open spec fn view(&self) -> PageRangeView {
        match self {
            PageRange::All => PageRangeView::All,
            PageRange::Range { start, end } => PageRangeView::Range {
                start: *start,
                end: *end,
            },
            PageRange::Selection { pages } => PageRangeView::Selection { pages: pages@ },
        }
    }
}

/// Per-job print options carried through upload and submission.
#[derive(Clone, Debug)]
pub struct PrintSettings {
    pub copies: u32,
    pub duplex: DuplexMode,
    pub orientation: Orientation,
    pub page_range: PageRange,
    pub pages_per_sheet: u32,
    pub booklet: bool,
    pub paper_size: PaperSize,
}

pub struct PrintSettingsView {
    pub copies: u32,
    pub duplex: DuplexMode,
    pub orientation: Orientation,
    pub page_range: PageRangeView,
    pub pages_per_sheet: u32,
    pub booklet: bool,
    pub paper_size: PaperSize,
}

impl View for PrintSettings {
    type V = PrintSettingsView;

    open spec fn view(&self) -> PrintSettingsView {
        PrintSettingsView {
            copies: self.copies,
            duplex: self.duplex,
            orientation: self.orientation,
            page_range: self.page_range@,
            pages_per_sheet: self.pages_per_sheet,
            booklet: self.booklet,
            paper_size: self.paper_size,
        }
    }
}

// ---------- Job lifecycle ----------

/// Lifecycle states. Pending, Uploading, Queued and Printing are live;
/// Completed, Failed and Cancelled are terminal.
#[derive(Clone, Copy, Debug, PartialEq, Eq, Structural)]
pub enum PrintJobStatus {
    Pending,
    Uploading,
    Queued,
    Printing,
    Completed,
    Failed,
    Cancelled,
}

/// A terminal status admits no further transition.
pub open spec fn is_terminal(s: PrintJobStatus) -> bool {
    s == PrintJobStatus::Completed || s == PrintJobStatus::Failed || s
        == PrintJobStatus::Cancelled
}

/// Statuses under which the job has a live trace on the remote queue and
/// is therefore subject to reconciliation.
pub open spec fn is_remote_active(s: PrintJobStatus) -> bool {
    s == PrintJobStatus::Queued || s == PrintJobStatus::Printing
}

/// Position of a status along the forward chain of the lifecycle.
/// Failed and Cancelled sit outside the chain.
pub open spec fn lifecycle_rank(s: PrintJobStatus) -> int {
    match s {
        PrintJobStatus::Pending => 0,
        PrintJobStatus::Uploading => 1,
        PrintJobStatus::Queued => 2,
        PrintJobStatus::Printing => 3,
        PrintJobStatus::Completed => 4,
        PrintJobStatus::Failed => 5,
        PrintJobStatus::Cancelled => 5,
    }
}

/// The lifecycle graph: strictly forward along the chain, with the two
/// terminal failure/cancel states reachable from any non-terminal state.
pub open spec fn lifecycle_step(from: PrintJobStatus, to: PrintJobStatus) -> bool {
    &&& !is_terminal(from)
    &&& if to == PrintJobStatus::Failed || to == PrintJobStatus::Cancelled {
        true
    } else {
        lifecycle_rank(to) > lifecycle_rank(from)
    }
}

/// Executable mirror of `is_terminal`.
pub fn status_is_terminal(s: PrintJobStatus) -> (r: bool)
    ensures
        r == is_terminal(s),
{
    match s {
        PrintJobStatus::Completed => true,
        PrintJobStatus::Failed => true,
        PrintJobStatus::Cancelled => true,
        _ => false,
    }
}

/// Executable mirror of `is_remote_active`.
pub fn status_is_remote_active(s: PrintJobStatus) -> (r: bool)
    ensures
        r == is_remote_active(s),
{
    match s {
        PrintJobStatus::Queued => true,
        PrintJobStatus::Printing => true,
        _ => false,
    }
}

// ---------- Job record ----------

/// One submission, tracked from creation to a terminal state.
///
/// The id is allocated by the registry and never reused; timestamps are
/// seconds supplied by the caller's clock; `external_id` is the remote
/// queue's own handle for the job once its acceptance response yields one.
#[derive(Clone, Debug)]
pub struct PrintJob {
    pub id: u64,
    pub name: String,
    pub file_path: String,
    pub printer: String,
    pub settings: PrintSettings,
    pub status: PrintJobStatus,
    pub created_at: u64,
    pub updated_at: u64,
    pub error: Option<String>,
    pub external_id: Option<String>,
}

pub struct PrintJobView {
    pub id: u64,
    pub name: Seq<char>,
    pub file_path: Seq<char>,
    pub printer: Seq<char>,
    pub settings: PrintSettingsView,
    pub status: PrintJobStatus,
    pub created_at: u64,
    pub updated_at: u64,
    pub error: Option<Seq<char>>,
    pub external_id: Option<Seq<char>>,
}

impl View for PrintJob {
    type V = PrintJobView;

    open spec fn view(&self) -> PrintJobView {
        PrintJobView {
            id: self.id,
            name: self.name@,
            file_path: self.file_path@,
            printer: self.printer@,
            settings: self.settings@,
            status: self.status,
            created_at: self.created_at,
            updated_at: self.updated_at,
            error: match &self.error {
                Some(e) => Some(e@),
                None => None,
            },
            external_id: match &self.external_id {
                Some(x) => Some(x@),
                None => None,
            },
        }
    }
}

// ---------- Printer catalog ----------

/// Condition of a catalog printer as last observed. The catalog itself —
/// names, locations, capabilities — is a static collaborator outside the
/// core; only the status vocabulary is shared.
#[derive(Clone, Copy, Debug, PartialEq, Eq, Structural)]
pub enum PrinterStatus {
    Online,
    Offline,
    Busy,
    OutOfPaper,
    Error,
}

// ---------- Errors ----------

/// Error taxonomy of the library. `Connection` covers resolution, timeout,
/// handshake and authentication failures; `Command` a nonzero remote exit
/// with its diagnostics; `Transform` a failed layout step; `Persistence` a
/// durable read/write failure; `NotFound` a missing job id; `InvalidState`
/// an operation on a job whose status does not admit it; `SourceMissing`
/// a submission whose source document no longer exists.
#[derive(Clone, Debug)]
pub enum PrintError {
    Connection { message: String },
    Command { exit_code: i32, diagnostic: String },
    Transform { message: String },
    Persistence { message: String },
    NotFound,
    InvalidState,
    SourceMissing,
}

pub enum PrintErrorView {
    Connection { message: Seq<char> },
    Command { exit_code: i32, diagnostic: Seq<char> },
    Transform { message: Seq<char> },
    Persistence { message: Seq<char> },
    NotFound,
    InvalidState,
    SourceMissing,
}

impl View for PrintError {
    type V = PrintErrorView;

    open spec fn view(&self) -> PrintErrorView {
        match self {
            PrintError::Connection { message } => PrintErrorView::Connection {
                message: message@,
            },
            PrintError::Command { exit_code, diagnostic } => PrintErrorView::Command {
                exit_code: *exit_code,
                diagnostic: diagnostic@,
            },
            PrintError::Transform { message } => PrintErrorView::Transform {
                message: message@,
            },
            PrintError::Persistence { message } => PrintErrorView::Persistence {
                message: message@,
            },
            PrintError::NotFound => PrintErrorView::NotFound,
            PrintError::InvalidState => PrintErrorView::InvalidState,
            PrintError::SourceMissing => PrintErrorView::SourceMissing,
        }
    }
}

// ---------- Uniform response envelope ----------

/// Uniform success/failure envelope returned at the interface boundary:
/// either a result or a human-readable error string, never both.
#[derive(Debug)]
pub struct ApiResponse<T> {
    pub success: bool,
    pub data: Option<T>,
    pub error: Option<String>,
}

impl<T> ApiResponse<T> {
    pub fn success(data: T) -> (r: Self)
        ensures
            r.success,
            r.data == Some(data),
            r.error is None,
    {
        Self { success: true, data: Some(data), error: None }
    }

    pub fn error(error: String) -> (r: Self)
        ensures
            !r.success,
            r.data is None,
            r.error == Some(error),
    {
        Self { success: false, data: None, error: Some(error) }
    }
}

} // verus!
