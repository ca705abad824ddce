//! The durable snapshot of the job registry: every job record, and the
//! next fresh id, laid out as an atom stream (see `codec`). Restoring the
//! encoding of a registry gives the registry back; anything malformed
//! restores to nothing.
use vstd::prelude::*;
use crate::codec::{Atom, AtomView, atom_views, spec_enc_file, spec_parse_file, wf_atom, wf_atoms};
use crate::types::{DuplexMode, Orientation, PageRange, PageRangeView, PaperSize, PrintJob,
    PrintJobStatus, PrintJobView, PrintSettings, PrintSettingsView};

verus! {

// ---------- Enumeration tags ----------

pub open spec fn duplex_tag(d: DuplexMode) -> u64 {
    match d {
        DuplexMode::Simplex => 0,
        DuplexMode::DuplexLongEdge => 1,
        DuplexMode::DuplexShortEdge => 2,
    }
}

pub open spec fn duplex_from_tag(t: u64) -> Option<DuplexMode> {
    if t == 0 {
        Some(DuplexMode::Simplex)
    } else if t == 1 {
        Some(DuplexMode::DuplexLongEdge)
    } else if t == 2 {
        Some(DuplexMode::DuplexShortEdge)
    } else {
        None
    }
}

pub open spec fn orientation_tag(o: Orientation) -> u64 {
    match o {
        Orientation::Portrait => 0,
        Orientation::Landscape => 1,
    }
}

pub open spec fn orientation_from_tag(t: u64) -> Option<Orientation> {
    if t == 0 {
        Some(Orientation::Portrait)
    } else if t == 1 {
        Some(Orientation::Landscape)
    } else {
        None
    }
}

pub open spec fn paper_tag(p: PaperSize) -> u64 {
    match p {
        PaperSize::A4 => 0,
        PaperSize::A3 => 1,
    }
}

pub open spec fn paper_from_tag(t: u64) -> Option<PaperSize> {
    if t == 0 {
        Some(PaperSize::A4)
    } else if t == 1 {
        Some(PaperSize::A3)
    } else {
        None
    }
}

pub open spec fn status_tag(s: PrintJobStatus) -> u64 {
    match s {
        PrintJobStatus::Pending => 0,
        PrintJobStatus::Uploading => 1,
        PrintJobStatus::Queued => 2,
        PrintJobStatus::Printing => 3,
        PrintJobStatus::Completed => 4,
        PrintJobStatus::Failed => 5,
        PrintJobStatus::Cancelled => 6,
    }
}

pub open spec fn status_from_tag(t: u64) -> Option<PrintJobStatus> {
    if t == 0 {
        Some(PrintJobStatus::Pending)
    } else if t == 1 {
        Some(PrintJobStatus::Uploading)
    } else if t == 2 {
        Some(PrintJobStatus::Queued)
    } else if t == 3 {
        Some(PrintJobStatus::Printing)
    } else if t == 4 {
        Some(PrintJobStatus::Completed)
    } else if t == 5 {
        Some(PrintJobStatus::Failed)
    } else if t == 6 {
        Some(PrintJobStatus::Cancelled)
    } else {
        None
    }
}

// ---------- Records as atoms ----------

pub open spec fn opt_txt_atoms(o: Option<Seq<char>>) -> Seq<AtomView> {
    match o {
        None => seq![AtomView::Num(0)],
        Some(t) => seq![AtomView::Num(1), AtomView::Txt(t)],
    }
}

pub open spec fn u32s_atoms(ps: Seq<u32>) -> Seq<AtomView>
    decreases ps.len(),
{
    if ps.len() == 0 {
        Seq::empty()
    } else {
        seq![AtomView::Num(ps[0] as u64)] + u32s_atoms(ps.drop_first())
    }
}

pub open spec fn page_range_atoms(pr: PageRangeView) -> Seq<AtomView> {
    match pr {
        PageRangeView::All => seq![AtomView::Num(0)],
        PageRangeView::Range { start, end } => seq![
            AtomView::Num(1),
            AtomView::Num(start as u64),
            AtomView::Num(end as u64),
        ],
        PageRangeView::Selection { pages } => seq![
            AtomView::Num(2),
            AtomView::Num(pages.len() as u64),
        ] + u32s_atoms(pages),
    }
}

pub open spec fn job_atoms(j: PrintJobView) -> Seq<AtomView> {
    seq![
        AtomView::Num(j.id),
        AtomView::Txt(j.name),
        AtomView::Txt(j.file_path),
        AtomView::Txt(j.printer),
        AtomView::Num(j.settings.copies as u64),
        AtomView::Num(duplex_tag(j.settings.duplex)),
        AtomView::Num(orientation_tag(j.settings.orientation)),
        AtomView::Num(paper_tag(j.settings.paper_size)),
    ] + page_range_atoms(j.settings.page_range) + seq![
        AtomView::Num(j.settings.pages_per_sheet as u64),
        AtomView::Num(if j.settings.booklet { 1u64 } else { 0u64 }),
        AtomView::Num(status_tag(j.status)),
        AtomView::Num(j.created_at),
        AtomView::Num(j.updated_at),
    ] + opt_txt_atoms(j.error) + opt_txt_atoms(j.external_id)
}

pub open spec fn jobs_atoms(js: Seq<PrintJobView>) -> Seq<AtomView>
    decreases js.len(),
{
    if js.len() == 0 {
        Seq::empty()
    } else {
        job_atoms(js[0]) + jobs_atoms(js.drop_first())
    }
}

/// The full snapshot stream: the next fresh id, the number of records,
/// then the records.
pub open spec fn registry_atoms(next_id: u64, js: Seq<PrintJobView>) -> Seq<AtomView> {
    seq![AtomView::Num(next_id), AtomView::Num(js.len() as u64)] + jobs_atoms(js)
}

// ---------- Well-formedness ----------

/// Machine limits under which a record can be written down: every piece
/// of text is short enough for its length to be carried in a number atom.
pub open spec fn wf_job(j: PrintJobView) -> bool {
    &&& j.name.len() <= u64::MAX
    &&& j.file_path.len() <= u64::MAX
    &&& j.printer.len() <= u64::MAX
    &&& (match j.error {
        Some(t) => t.len() <= u64::MAX,
        None => true,
    })
    &&& (match j.external_id {
        Some(t) => t.len() <= u64::MAX,
        None => true,
    })
    &&& (match j.settings.page_range {
        PageRangeView::Selection { pages } => pages.len() <= u64::MAX,
        _ => true,
    })
}

pub open spec fn wf_jobs(js: Seq<PrintJobView>) -> bool {
    forall|i: int| 0 <= i < js.len() ==> wf_job(#[trigger] js[i])
}

// ---------- Atoms back to records ----------

pub open spec fn take_num(atoms: Seq<AtomView>) -> Option<(u64, Seq<AtomView>)> {
    if atoms.len() > 0 {
        match atoms[0] {
            AtomView::Num(v) => Some((v, atoms.drop_first())),
            AtomView::Txt(_) => None,
        }
    } else {
        None
    }
}

pub open spec fn take_txt(atoms: Seq<AtomView>) -> Option<(Seq<char>, Seq<AtomView>)> {
    if atoms.len() > 0 {
        match atoms[0] {
            AtomView::Txt(t) => Some((t, atoms.drop_first())),
            AtomView::Num(_) => None,
        }
    } else {
        None
    }
}

pub open spec fn spec_u32s_from_atoms(atoms: Seq<AtomView>, n: nat) -> Option<(
    Seq<u32>,
    Seq<AtomView>,
)>
    decreases n,
{
    if n == 0 {
        Some((Seq::empty(), atoms))
    } else {
        match take_num(atoms) {
            None => None,
            Some((v, rest)) => if v > u32::MAX as u64 {
                None
            } else {
                match spec_u32s_from_atoms(rest, (n - 1) as nat) {
                    None => None,
                    Some((tail, rest2)) => Some((seq![v as u32] + tail, rest2)),
                }
            },
        }
    }
}

pub open spec fn spec_page_range_from_atoms(atoms: Seq<AtomView>) -> Option<(
    PageRangeView,
    Seq<AtomView>,
)> {
    match take_num(atoms) {
        None => None,
        Some((tag, r1)) => if tag == 0 {
            Some((PageRangeView::All, r1))
        } else if tag == 1 {
            match take_num(r1) {
                None => None,
                Some((start, r2)) => match take_num(r2) {
                    None => None,
                    Some((end, r3)) => if start > u32::MAX as u64 || end > u32::MAX as u64 {
                        None
                    } else {
                        Some((
                            PageRangeView::Range { start: start as u32, end: end as u32 },
                            r3,
                        ))
                    },
                },
            }
        } else if tag == 2 {
            match take_num(r1) {
                None => None,
                Some((cnt, r2)) => match spec_u32s_from_atoms(r2, cnt as nat) {
                    None => None,
                    Some((pages, r3)) => Some((PageRangeView::Selection { pages }, r3)),
                },
            }
        } else {
            None
        },
    }
}

pub open spec fn spec_opt_txt_from_atoms(atoms: Seq<AtomView>) -> Option<(
    Option<Seq<char>>,
    Seq<AtomView>,
)> {
    match take_num(atoms) {
        None => None,
        Some((tag, r1)) => if tag == 0 {
            Some((None, r1))
        } else if tag == 1 {
            match take_txt(r1) {
                None => None,
                Some((t, r2)) => Some((Some(t), r2)),
            }
        } else {
            None
        },
    }
}

#[verifier::opaque]
pub open spec fn spec_job_from_atoms(atoms: Seq<AtomView>) -> Option<(
    PrintJobView,
    Seq<AtomView>,
)> {
    match take_num(atoms) {
        None => None,
        Some((id, r1)) => match take_txt(r1) {
            None => None,
            Some((name, r2)) => match take_txt(r2) {
                None => None,
                Some((file_path, r3)) => match take_txt(r3) {
                    None => None,
                    Some((printer, r4)) => match take_num(r4) {
                        None => None,
                        Some((copies, r5)) => if copies > u32::MAX as u64 {
                            None
                        } else {
                            match take_num(r5) {
                                None => None,
                                Some((dt, r6)) => match duplex_from_tag(dt) {
                                    None => None,
                                    Some(duplex) => match take_num(r6) {
                                        None => None,
                                        Some((ot, r7)) => match orientation_from_tag(ot) {
                                            None => None,
                                            Some(orientation) => match take_num(r7) {
                                                None => None,
                                                Some((pt, r8)) => match paper_from_tag(pt) {
                                                    None => None,
                                                    Some(paper_size) => spec_job_tail_from_atoms(
                                                        id,
                                                        name,
                                                        file_path,
                                                        printer,
                                                        copies as u32,
                                                        duplex,
                                                        orientation,
                                                        paper_size,
                                                        r8,
                                                    ),
                                                },
                                            },
                                        },
                                    },
                                },
                            }
                        },
                    },
                },
            },
        },
    }
}

/// Continuation of `spec_job_from_atoms` after the fixed leading fields.
#[verifier::opaque]
pub open spec fn spec_job_tail_from_atoms(
    id: u64,
    name: Seq<char>,
    file_path: Seq<char>,
    printer: Seq<char>,
    copies: u32,
    duplex: DuplexMode,
    orientation: Orientation,
    paper_size: PaperSize,
    r8: Seq<AtomView>,
) -> Option<(PrintJobView, Seq<AtomView>)> {
    match spec_page_range_from_atoms(r8) {
        None => None,
        Some((page_range, r9)) => match take_num(r9) {
            None => None,
            Some((pps, r10)) => if pps > u32::MAX as u64 {
                None
            } else {
                match take_num(r10) {
                    None => None,
                    Some((bk, r11)) => if bk > 1 {
                        None
                    } else {
                        match take_num(r11) {
                            None => None,
                            Some((st, r12)) => match status_from_tag(st) {
                                None => None,
                                Some(status) => match take_num(r12) {
                                    None => None,
                                    Some((created_at, r13)) => match take_num(r13) {
                                        None => None,
                                        Some((updated_at, r14)) => match spec_opt_txt_from_atoms(
                                            r14,
                                        ) {
                                            None => None,
                                            Some((error, r15)) => match spec_opt_txt_from_atoms(
                                                r15,
                                            ) {
                                                None => None,
                                                Some((external_id, r16)) => Some((
                                                    PrintJobView {
                                                        id,
                                                        name,
                                                        file_path,
                                                        printer,
                                                        settings: PrintSettingsView {
                                                            copies,
                                                            duplex,
                                                            orientation,
                                                            page_range,
                                                            pages_per_sheet: pps as u32,
                                                            booklet: bk == 1,
                                                            paper_size,
                                                        },
                                                        status,
                                                        created_at,
                                                        updated_at,
                                                        error,
                                                        external_id,
                                                    },
                                                    r16,
                                                )),
                                            },
                                        },
                                    },
                                },
                            },
                        }
                    },
                }
            },
        },
    }
}

pub open spec fn spec_jobs_from_atoms(atoms: Seq<AtomView>, n: nat) -> Option<(
    Seq<PrintJobView>,
    Seq<AtomView>,
)>
    decreases n,
{
    if n == 0 {
        Some((Seq::empty(), atoms))
    } else {
        match spec_job_from_atoms(atoms) {
            None => None,
            Some((j, rest)) => match spec_jobs_from_atoms(rest, (n - 1) as nat) {
                None => None,
                Some((tail, rest2)) => Some((seq![j] + tail, rest2)),
            },
        }
    }
}

pub open spec fn spec_registry_from_atoms(atoms: Seq<AtomView>) -> Option<(
    u64,
    Seq<PrintJobView>,
)> {
    match take_num(atoms) {
        None => None,
        Some((next_id, r1)) => match take_num(r1) {
            None => None,
            Some((cnt, r2)) => match spec_jobs_from_atoms(r2, cnt as nat) {
                None => None,
                Some((jobs, rest)) => if rest.len() == 0 {
                    Some((next_id, jobs))
                } else {
                    None
                },
            },
        },
    }
}

// ---------- Round trip at the atom level ----------

pub proof fn lemma_wf_atoms_concat(a: Seq<AtomView>, b: Seq<AtomView>)
    requires
        wf_atoms(a),
        wf_atoms(b),
    ensures
        wf_atoms(a + b),
{
    assert forall|i: int| 0 <= i < (a + b).len() implies wf_atom(#[trigger] (a + b)[i]) by {
        if i < a.len() {
            assert((a + b)[i] == a[i]);
        } else {
            assert((a + b)[i] == b[i - a.len()]);
        }
    }
}

pub proof fn lemma_u32s_atoms_wf(ps: Seq<u32>)
    ensures
        wf_atoms(u32s_atoms(ps)),
    decreases ps.len(),
{
    if ps.len() > 0 {
        lemma_u32s_atoms_wf(ps.drop_first());
        lemma_wf_atoms_concat(seq![AtomView::Num(ps[0] as u64)], u32s_atoms(ps.drop_first()));
    }
}

pub proof fn lemma_job_atoms_wf(j: PrintJobView)
    requires
        wf_job(j),
    ensures
        wf_atoms(job_atoms(j)),
{
    let fixed = seq![
        AtomView::Num(j.id),
        AtomView::Txt(j.name),
        AtomView::Txt(j.file_path),
        AtomView::Txt(j.printer),
        AtomView::Num(j.settings.copies as u64),
        AtomView::Num(duplex_tag(j.settings.duplex)),
        AtomView::Num(orientation_tag(j.settings.orientation)),
        AtomView::Num(paper_tag(j.settings.paper_size)),
    ];
    let mid = seq![
        AtomView::Num(j.settings.pages_per_sheet as u64),
        AtomView::Num(if j.settings.booklet { 1u64 } else { 0u64 }),
        AtomView::Num(status_tag(j.status)),
        AtomView::Num(j.created_at),
        AtomView::Num(j.updated_at),
    ];
    assert(wf_atoms(fixed));
    assert(wf_atoms(mid));
    match j.settings.page_range {
        PageRangeView::Selection { pages } => {
            lemma_u32s_atoms_wf(pages);
            lemma_wf_atoms_concat(
                seq![AtomView::Num(2), AtomView::Num(pages.len() as u64)],
                u32s_atoms(pages),
            );
        },
        _ => {
            assert(wf_atoms(page_range_atoms(j.settings.page_range)));
        },
    }
    assert(wf_atoms(opt_txt_atoms(j.error)));
    assert(wf_atoms(opt_txt_atoms(j.external_id)));
    lemma_wf_atoms_concat(fixed, page_range_atoms(j.settings.page_range));
    lemma_wf_atoms_concat(fixed + page_range_atoms(j.settings.page_range), mid);
    lemma_wf_atoms_concat(
        fixed + page_range_atoms(j.settings.page_range) + mid,
        opt_txt_atoms(j.error),
    );
    lemma_wf_atoms_concat(
        fixed + page_range_atoms(j.settings.page_range) + mid + opt_txt_atoms(j.error),
        opt_txt_atoms(j.external_id),
    );
}

pub proof fn lemma_jobs_atoms_wf(js: Seq<PrintJobView>)
    requires
        wf_jobs(js),
    ensures
        wf_atoms(jobs_atoms(js)),
    decreases js.len(),
{
    if js.len() > 0 {
        lemma_job_atoms_wf(js[0]);
        assert(wf_jobs(js.drop_first())) by {
            assert(forall|i: int|
                0 <= i < js.drop_first().len() ==> #[trigger] js.drop_first()[i] == js[i + 1]);
        }
        lemma_jobs_atoms_wf(js.drop_first());
        lemma_wf_atoms_concat(job_atoms(js[0]), jobs_atoms(js.drop_first()));
    }
}

pub proof fn lemma_u32s_roundtrip(ps: Seq<u32>, rest: Seq<AtomView>)
    ensures
        spec_u32s_from_atoms(u32s_atoms(ps) + rest, ps.len()) == Some((ps, rest)),
    decreases ps.len(),
{
    if ps.len() == 0 {
        assert(u32s_atoms(ps) + rest =~= rest);
        assert(Seq::<u32>::empty() =~= ps);
    } else {
        let a = u32s_atoms(ps) + rest;
        assert(a =~= seq![AtomView::Num(ps[0] as u64)] + (u32s_atoms(ps.drop_first()) + rest));
        assert(a[0] == AtomView::Num(ps[0] as u64));
        assert(a.drop_first() =~= u32s_atoms(ps.drop_first()) + rest);
        lemma_u32s_roundtrip(ps.drop_first(), rest);
        assert(seq![ps[0]] + ps.drop_first() =~= ps);
    }
}

pub proof fn lemma_page_range_roundtrip(pr: PageRangeView, rest: Seq<AtomView>)
    requires
        match pr {
            PageRangeView::Selection { pages } => pages.len() <= u64::MAX,
            _ => true,
        },
    ensures
        spec_page_range_from_atoms(page_range_atoms(pr) + rest) == Some((pr, rest)),
{
    let a = page_range_atoms(pr) + rest;
    match pr {
        PageRangeView::All => {
            assert(a[0] == AtomView::Num(0));
            assert(a.drop_first() =~= rest);
        },
        PageRangeView::Range { start, end } => {
            assert(a[0] == AtomView::Num(1));
            let r1 = a.drop_first();
            assert(r1[0] == a[1]);
            let r2 = r1.drop_first();
            assert(r2[0] == a[2]);
            assert(r2.drop_first() =~= rest);
        },
        PageRangeView::Selection { pages } => {
            assert(a[0] == AtomView::Num(2));
            let r1 = a.drop_first();
            assert(r1[0] == a[1]);
            assert(r1[0] == AtomView::Num(pages.len() as u64));
            let r2 = r1.drop_first();
            assert(r2 =~= u32s_atoms(pages) + rest);
            lemma_u32s_roundtrip(pages, rest);
            assert((pages.len() as u64) as nat == pages.len());
        },
    }
}

pub proof fn lemma_opt_txt_roundtrip(o: Option<Seq<char>>, rest: Seq<AtomView>)
    ensures
        spec_opt_txt_from_atoms(opt_txt_atoms(o) + rest) == Some((o, rest)),
{
    let a = opt_txt_atoms(o) + rest;
    match o {
        None => {
            assert(a[0] == AtomView::Num(0));
            assert(a.drop_first() =~= rest);
        },
        Some(t) => {
            assert(a[0] == AtomView::Num(1));
            let r1 = a.drop_first();
            assert(r1[0] == a[1]);
            assert(r1[0] == AtomView::Txt(t));
            assert(r1.drop_first() =~= rest);
        },
    }
}

/// The atoms after the fixed leading fields of a record parse back to the
/// record they encode.
#[verifier::rlimit(100)]
pub proof fn lemma_job_tail_roundtrip(j: PrintJobView, rest: Seq<AtomView>)
    requires
        wf_job(j),
    ensures
        spec_job_tail_from_atoms(
            j.id,
            j.name,
            j.file_path,
            j.printer,
            j.settings.copies,
            j.settings.duplex,
            j.settings.orientation,
            j.settings.paper_size,
            page_range_atoms(j.settings.page_range) + (seq![
                AtomView::Num(j.settings.pages_per_sheet as u64),
                AtomView::Num(if j.settings.booklet { 1u64 } else { 0u64 }),
                AtomView::Num(status_tag(j.status)),
                AtomView::Num(j.created_at),
                AtomView::Num(j.updated_at),
            ] + (opt_txt_atoms(j.error) + (opt_txt_atoms(j.external_id) + rest))),
        ) == Some((j, rest)),
{
    reveal(spec_job_tail_from_atoms);
    let mid = seq![
        AtomView::Num(j.settings.pages_per_sheet as u64),
        AtomView::Num(if j.settings.booklet { 1u64 } else { 0u64 }),
        AtomView::Num(status_tag(j.status)),
        AtomView::Num(j.created_at),
        AtomView::Num(j.updated_at),
    ];
    let e1 = opt_txt_atoms(j.error);
    let e2 = opt_txt_atoms(j.external_id);
    let r8 = page_range_atoms(j.settings.page_range) + (mid + (e1 + (e2 + rest)));
    lemma_page_range_roundtrip(j.settings.page_range, mid + (e1 + (e2 + rest)));
    let r9 = mid + (e1 + (e2 + rest));
    assert(r9[0] == mid[0]);
    let r10 = r9.drop_first();
    assert(r10[0] == r9[1] && r9[1] == mid[1]);
    let r11 = r10.drop_first();
    assert(r11[0] == r9[2] && r9[2] == mid[2]);
    let r12 = r11.drop_first();
    assert(r12[0] == r9[3] && r9[3] == mid[3]);
    let r13 = r12.drop_first();
    assert(r13[0] == r9[4] && r9[4] == mid[4]);
    let r14 = r13.drop_first();
    assert(r14 =~= e1 + (e2 + rest));
    lemma_opt_txt_roundtrip(j.error, e2 + rest);
    lemma_opt_txt_roundtrip(j.external_id, rest);
    assert((j.settings.pages_per_sheet as u64) as u32 == j.settings.pages_per_sheet);
    assert(status_from_tag(status_tag(j.status)) == Some(j.status));
    match spec_job_tail_from_atoms(
        j.id,
        j.name,
        j.file_path,
        j.printer,
        j.settings.copies,
        j.settings.duplex,
        j.settings.orientation,
        j.settings.paper_size,
        r8,
    ) {
        Some((jj, rr)) => {
            assert(jj.settings =~= j.settings);
            assert(jj =~= j);
            assert(rr == rest);
        },
        None => {
            assert(false);
        },
    }
}

#[verifier::rlimit(100)]
pub proof fn lemma_job_roundtrip(j: PrintJobView, rest: Seq<AtomView>)
    requires
        wf_job(j),
    ensures
        spec_job_from_atoms(job_atoms(j) + rest) == Some((j, rest)),
{
    reveal(spec_job_from_atoms);
    let a = job_atoms(j) + rest;
    let fixed = seq![
        AtomView::Num(j.id),
        AtomView::Txt(j.name),
        AtomView::Txt(j.file_path),
        AtomView::Txt(j.printer),
        AtomView::Num(j.settings.copies as u64),
        AtomView::Num(duplex_tag(j.settings.duplex)),
        AtomView::Num(orientation_tag(j.settings.orientation)),
        AtomView::Num(paper_tag(j.settings.paper_size)),
    ];
    let mid = seq![
        AtomView::Num(j.settings.pages_per_sheet as u64),
        AtomView::Num(if j.settings.booklet { 1u64 } else { 0u64 }),
        AtomView::Num(status_tag(j.status)),
        AtomView::Num(j.created_at),
        AtomView::Num(j.updated_at),
    ];
    let e1 = opt_txt_atoms(j.error);
    let e2 = opt_txt_atoms(j.external_id);
    let tail8 = page_range_atoms(j.settings.page_range) + (mid + (e1 + (e2 + rest)));
    assert(a =~= fixed + tail8);
    assert(a[0] == fixed[0]);
    let r1 = a.drop_first();
    assert(r1[0] == a[1] && a[1] == fixed[1]);
    let r2 = r1.drop_first();
    assert(r2[0] == a[2] && a[2] == fixed[2]);
    let r3 = r2.drop_first();
    assert(r3[0] == a[3] && a[3] == fixed[3]);
    let r4 = r3.drop_first();
    assert(r4[0] == a[4] && a[4] == fixed[4]);
    let r5 = r4.drop_first();
    assert(r5[0] == a[5] && a[5] == fixed[5]);
    let r6 = r5.drop_first();
    assert(r6[0] == a[6] && a[6] == fixed[6]);
    let r7 = r6.drop_first();
    assert(r7[0] == a[7] && a[7] == fixed[7]);
    let r8 = r7.drop_first();
    assert(r8 =~= tail8);
    assert((j.settings.copies as u64) as u32 == j.settings.copies);
    assert(duplex_from_tag(duplex_tag(j.settings.duplex)) == Some(j.settings.duplex));
    assert(orientation_from_tag(orientation_tag(j.settings.orientation)) == Some(
        j.settings.orientation,
    ));
    assert(paper_from_tag(paper_tag(j.settings.paper_size)) == Some(j.settings.paper_size));
    lemma_job_tail_roundtrip(j, rest);
}

#[verifier::rlimit(50)]
pub proof fn lemma_jobs_roundtrip(js: Seq<PrintJobView>, rest: Seq<AtomView>)
    requires
        wf_jobs(js),
    ensures
        spec_jobs_from_atoms(jobs_atoms(js) + rest, js.len()) == Some((js, rest)),
    decreases js.len(),
{
    if js.len() == 0 {
        assert(jobs_atoms(js) + rest =~= rest);
        assert(Seq::<PrintJobView>::empty() =~= js);
    } else {
        let a = jobs_atoms(js) + rest;
        assert(a =~= job_atoms(js[0]) + (jobs_atoms(js.drop_first()) + rest));
        lemma_job_roundtrip(js[0], jobs_atoms(js.drop_first()) + rest);
        assert(wf_jobs(js.drop_first())) by {
            assert(forall|i: int|
                0 <= i < js.drop_first().len() ==> #[trigger] js.drop_first()[i] == js[i + 1]);
        }
        lemma_jobs_roundtrip(js.drop_first(), rest);
        assert(seq![js[0]] + js.drop_first() =~= js);
    }
}

/// Restoring the snapshot of any registry contents gives them back
/// exactly, as long as each record and the whole stream fit the machine
/// limits of the format.
pub proof fn lemma_snapshot_roundtrip(next_id: u64, js: Seq<PrintJobView>)
    requires
        wf_jobs(js),
        js.len() <= u64::MAX,
        registry_atoms(next_id, js).len() <= u64::MAX,
    ensures
        spec_restore(spec_snapshot(next_id, js)) == Some((next_id, js)),
{
    let atoms = registry_atoms(next_id, js);
    lemma_jobs_atoms_wf(js);
    lemma_wf_atoms_concat(
        seq![AtomView::Num(next_id), AtomView::Num(js.len() as u64)],
        jobs_atoms(js),
    );
    crate::codec::lemma_parse_enc_file(atoms);
    assert(atoms[0] == AtomView::Num(next_id));
    let r1 = atoms.drop_first();
    assert(r1[0] == atoms[1]);
    let r2 = r1.drop_first();
    assert(r2 =~= jobs_atoms(js) + Seq::<AtomView>::empty());
    lemma_jobs_roundtrip(js, Seq::empty());
    assert((js.len() as u64) as nat == js.len());
}

// ---------- Whole snapshot ----------

/// The durable text written for a registry.
pub open spec fn spec_snapshot(next_id: u64, js: Seq<PrintJobView>) -> Seq<char> {
    spec_enc_file(registry_atoms(next_id, js))
}

/// What a durable text restores to, if anything.
pub open spec fn spec_restore(s: Seq<char>) -> Option<(u64, Seq<PrintJobView>)> {
    match spec_parse_file(s) {
        None => None,
        Some(atoms) => spec_registry_from_atoms(atoms),
    }
}

/// The views of a sequence of executable job records.
pub open spec fn job_views(s: Seq<PrintJob>) -> Seq<PrintJobView> {
    s.map_values(|j: PrintJob| j@)
}

// ---------- Executable encoding ----------

pub proof fn lemma_u32s_atoms_concat(s1: Seq<u32>, s2: Seq<u32>)
    ensures
        u32s_atoms(s1 + s2) == u32s_atoms(s1) + u32s_atoms(s2),
    decreases s1.len(),
{
    if s1.len() == 0 {
        assert(s1 + s2 =~= s2);
        assert(u32s_atoms(s1) + u32s_atoms(s2) =~= u32s_atoms(s2));
    } else {
        assert((s1 + s2)[0] == s1[0]);
        assert((s1 + s2).drop_first() =~= s1.drop_first() + s2);
        lemma_u32s_atoms_concat(s1.drop_first(), s2);
        assert(seq![AtomView::Num(s1[0] as u64)] + (u32s_atoms(s1.drop_first()) + u32s_atoms(s2))
            =~= (seq![AtomView::Num(s1[0] as u64)] + u32s_atoms(s1.drop_first())) + u32s_atoms(
            s2,
        ));
    }
}

pub proof fn lemma_jobs_atoms_concat(s1: Seq<PrintJobView>, s2: Seq<PrintJobView>)
    ensures
        jobs_atoms(s1 + s2) == jobs_atoms(s1) + jobs_atoms(s2),
    decreases s1.len(),
{
    if s1.len() == 0 {
        assert(s1 + s2 =~= s2);
        assert(jobs_atoms(s1) + jobs_atoms(s2) =~= jobs_atoms(s2));
    } else {
        assert((s1 + s2)[0] == s1[0]);
        assert((s1 + s2).drop_first() =~= s1.drop_first() + s2);
        lemma_jobs_atoms_concat(s1.drop_first(), s2);
        assert(job_atoms(s1[0]) + (jobs_atoms(s1.drop_first()) + jobs_atoms(s2)) =~= (job_atoms(
            s1[0],
        ) + jobs_atoms(s1.drop_first())) + jobs_atoms(s2));
    }
}

/// Appends the atoms of a page selection to `out`.
fn push_page_range_atoms(out: &mut Vec<Atom>, pr: &PageRange)
    ensures
        atom_views(final(out)@) == atom_views(old(out)@) + page_range_atoms(pr@),
{
    match pr {
        PageRange::All => {
            out.push(Atom::Num(0));
            assert(atom_views(out@) =~= atom_views(old(out)@) + page_range_atoms(pr@));
        },
        PageRange::Range { start, end } => {
            out.push(Atom::Num(1));
            out.push(Atom::Num(*start as u64));
            out.push(Atom::Num(*end as u64));
            assert(atom_views(out@) =~= atom_views(old(out)@) + page_range_atoms(pr@));
        },
        PageRange::Selection { pages } => {
            out.push(Atom::Num(2));
            out.push(Atom::Num(pages.len() as u64));
            let ghost base = atom_views(out@);
            let mut i: usize = 0;
            while i < pages.len()
                invariant
                    i <= pages@.len(),
                    atom_views(out@) == base + u32s_atoms(pages@.take(i as int)),
                decreases pages@.len() - i,
            {
                let ghost prev = out@;
                out.push(Atom::Num(pages[i] as u64));
                proof {
                    assert(out@ == prev.push(Atom::Num(pages@[i as int] as u64)));
                    assert(atom_views(out@) =~= atom_views(prev).push(
                        AtomView::Num(pages@[i as int] as u64),
                    ));
                    assert(pages@.take(i + 1) =~= pages@.take(i as int) + seq![pages@[i as int]]);
                    lemma_u32s_atoms_concat(pages@.take(i as int), seq![pages@[i as int]]);
                    assert(seq![pages@[i as int]].drop_first() =~= Seq::<u32>::empty());
                    assert(u32s_atoms(Seq::<u32>::empty()) =~= Seq::<AtomView>::empty());
                    assert(u32s_atoms(seq![pages@[i as int]]) =~= seq![
                        AtomView::Num(pages@[i as int] as u64),
                    ]);
                    assert(atom_views(out@) =~= base + u32s_atoms(pages@.take(i + 1)));
                }
                i = i + 1;
            }
            proof {
                assert(pages@.take(pages@.len() as int) =~= pages@);
                assert(atom_views(out@) =~= atom_views(old(out)@) + page_range_atoms(pr@));
            }
        },
    }
}

/// Appends the atoms of an optional piece of text to `out`.
fn push_opt_txt_atoms(out: &mut Vec<Atom>, o: &Option<String>)
    ensures
        atom_views(final(out)@) == atom_views(old(out)@) + opt_txt_atoms(
            match o {
                Some(t) => Some(t@),
                None => None,
            },
        ),
{
    match o {
        None => {
            out.push(Atom::Num(0));
            assert(atom_views(out@) =~= atom_views(old(out)@) + seq![AtomView::Num(0)]);
        },
        Some(t) => {
            out.push(Atom::Num(1));
            out.push(Atom::Txt(t.clone()));
            assert(atom_views(out@) =~= atom_views(old(out)@) + seq![
                AtomView::Num(1),
                AtomView::Txt(t@),
            ]);
        },
    }
}

/// Executable enumeration tags.
fn duplex_tag_of(d: DuplexMode) -> (r: u64)
    ensures
        r == duplex_tag(d),
{
    match d {
        DuplexMode::Simplex => 0,
        DuplexMode::DuplexLongEdge => 1,
        DuplexMode::DuplexShortEdge => 2,
    }
}

fn orientation_tag_of(o: Orientation) -> (r: u64)
    ensures
        r == orientation_tag(o),
{
    match o {
        Orientation::Portrait => 0,
        Orientation::Landscape => 1,
    }
}

fn paper_tag_of(p: PaperSize) -> (r: u64)
    ensures
        r == paper_tag(p),
{
    match p {
        PaperSize::A4 => 0,
        PaperSize::A3 => 1,
    }
}

fn status_tag_of(s: PrintJobStatus) -> (r: u64)
    ensures
        r == status_tag(s),
{
    match s {
        PrintJobStatus::Pending => 0,
        PrintJobStatus::Uploading => 1,
        PrintJobStatus::Queued => 2,
        PrintJobStatus::Printing => 3,
        PrintJobStatus::Completed => 4,
        PrintJobStatus::Failed => 5,
        PrintJobStatus::Cancelled => 6,
    }
}

/// Appends the atoms of one job record to `out`.
#[verifier::rlimit(100)]
fn push_job_atoms(out: &mut Vec<Atom>, j: &PrintJob)
    ensures
        atom_views(final(out)@) == atom_views(old(out)@) + job_atoms(j@),
{
    let ghost v0 = atom_views(out@);
    let ghost fixed = seq![
        AtomView::Num(j@.id),
        AtomView::Txt(j@.name),
        AtomView::Txt(j@.file_path),
        AtomView::Txt(j@.printer),
        AtomView::Num(j@.settings.copies as u64),
        AtomView::Num(duplex_tag(j@.settings.duplex)),
        AtomView::Num(orientation_tag(j@.settings.orientation)),
        AtomView::Num(paper_tag(j@.settings.paper_size)),
    ];
    out.push(Atom::Num(j.id));
    out.push(Atom::Txt(j.name.clone()));
    out.push(Atom::Txt(j.file_path.clone()));
    out.push(Atom::Txt(j.printer.clone()));
    out.push(Atom::Num(j.settings.copies as u64));
    out.push(Atom::Num(duplex_tag_of(j.settings.duplex)));
    out.push(Atom::Num(orientation_tag_of(j.settings.orientation)));
    out.push(Atom::Num(paper_tag_of(j.settings.paper_size)));
    assert(atom_views(out@) =~= v0 + fixed);
    let ghost v1 = atom_views(out@);
    push_page_range_atoms(out, &j.settings.page_range);
    assert(atom_views(out@) == v1 + page_range_atoms(j@.settings.page_range));
    let ghost v2 = atom_views(out@);
    let ghost mid = seq![
        AtomView::Num(j@.settings.pages_per_sheet as u64),
        AtomView::Num(if j@.settings.booklet { 1u64 } else { 0u64 }),
        AtomView::Num(status_tag(j@.status)),
        AtomView::Num(j@.created_at),
        AtomView::Num(j@.updated_at),
    ];
    out.push(Atom::Num(j.settings.pages_per_sheet as u64));
    if j.settings.booklet {
        out.push(Atom::Num(1));
    } else {
        out.push(Atom::Num(0));
    }
    out.push(Atom::Num(status_tag_of(j.status)));
    out.push(Atom::Num(j.created_at));
    out.push(Atom::Num(j.updated_at));
    assert(atom_views(out@) =~= v2 + mid);
    let ghost v3 = atom_views(out@);
    push_opt_txt_atoms(out, &j.error);
    assert(atom_views(out@) == v3 + opt_txt_atoms(j@.error));
    let ghost v4 = atom_views(out@);
    push_opt_txt_atoms(out, &j.external_id);
    assert(atom_views(out@) == v4 + opt_txt_atoms(j@.external_id));
    assert(atom_views(out@) =~= v0 + job_atoms(j@));
}

/// Writes the durable text for the registry contents: the next fresh id
/// and every record.
pub fn encode_snapshot(next_id: u64, jobs: &Vec<PrintJob>) -> (r: String)
    ensures
        r@ == spec_snapshot(next_id, job_views(jobs@)),
{
    let ghost views = job_views(jobs@);
    let mut atoms: Vec<Atom> = Vec::new();
    atoms.push(Atom::Num(next_id));
    atoms.push(Atom::Num(jobs.len() as u64));
    let ghost header = atom_views(atoms@);
    proof {
        assert(header =~= seq![AtomView::Num(next_id), AtomView::Num(views.len() as u64)]);
    }
    let mut i: usize = 0;
    while i < jobs.len()
        invariant
            i <= jobs@.len(),
            views == job_views(jobs@),
            header == seq![AtomView::Num(next_id), AtomView::Num(views.len() as u64)],
            atom_views(atoms@) == header + jobs_atoms(views.take(i as int)),
        decreases jobs@.len() - i,
    {
        push_job_atoms(&mut atoms, &jobs[i]);
        proof {
            assert(views.take(i + 1) =~= views.take(i as int) + seq![views[i as int]]);
            lemma_jobs_atoms_concat(views.take(i as int), seq![views[i as int]]);
            assert(seq![views[i as int]].drop_first() =~= Seq::<PrintJobView>::empty());
            assert(jobs_atoms(Seq::<PrintJobView>::empty()) =~= Seq::<AtomView>::empty());
            assert(jobs_atoms(seq![views[i as int]]) =~= job_atoms(views[i as int]));
            assert(views[i as int] == jobs@[i as int]@);
            assert(atom_views(atoms@) =~= header + jobs_atoms(views.take(i + 1)));
        }
        i = i + 1;
    }
    proof {
        assert(views.take(views.len() as int) =~= views);
        assert(atom_views(atoms@) =~= registry_atoms(next_id, views));
    }
    crate::codec::encode_file(&atoms)
}

// ---------- Executable decoding ----------

/// Takes the number atom at `idx`, if there is one.
fn take_num_at(atoms: &Vec<Atom>, idx: usize) -> (r: Option<(u64, usize)>)
    requires
        idx <= atoms@.len(),
    ensures
        match r {
            None => take_num(atom_views(atoms@).skip(idx as int)) is None,
            Some((v, i2)) => i2 == idx + 1 && i2 <= atoms@.len() && take_num(
                atom_views(atoms@).skip(idx as int),
            ) == Some((v, atom_views(atoms@).skip(i2 as int))),
        },
{
    if idx >= atoms.len() {
        return None;
    }
    let ghost tail = atom_views(atoms@).skip(idx as int);
    proof {
        assert(tail[0] == atom_views(atoms@)[idx as int]);
        assert(tail.drop_first() =~= atom_views(atoms@).skip(idx + 1));
    }
    match &atoms[idx] {
        Atom::Num(v) => Some((*v, idx + 1)),
        Atom::Txt(_) => None,
    }
}

/// Takes the text atom at `idx`, if there is one, as a fresh string.
fn take_txt_at(atoms: &Vec<Atom>, idx: usize) -> (r: Option<(String, usize)>)
    requires
        idx <= atoms@.len(),
    ensures
        match r {
            None => take_txt(atom_views(atoms@).skip(idx as int)) is None,
            Some((t, i2)) => i2 == idx + 1 && i2 <= atoms@.len() && take_txt(
                atom_views(atoms@).skip(idx as int),
            ) == Some((t@, atom_views(atoms@).skip(i2 as int))),
        },
{
    if idx >= atoms.len() {
        return None;
    }
    let ghost tail = atom_views(atoms@).skip(idx as int);
    proof {
        assert(tail[0] == atom_views(atoms@)[idx as int]);
        assert(tail.drop_first() =~= atom_views(atoms@).skip(idx + 1));
    }
    match &atoms[idx] {
        Atom::Txt(t) => Some((t.clone(), idx + 1)),
        Atom::Num(_) => None,
    }
}

pub open spec fn compose_u32s(pre: Seq<u32>, r: Option<(Seq<u32>, Seq<AtomView>)>) -> Option<(
    Seq<u32>,
    Seq<AtomView>,
)> {
    match r {
        None => None,
        Some((tail, rest)) => Some((pre + tail, rest)),
    }
}

/// Reads `n` page numbers from the atoms at `idx`.
fn u32s_from_atoms_at(atoms: &Vec<Atom>, idx: usize, n: u64) -> (r: Option<(Vec<u32>, usize)>)
    requires
        idx <= atoms@.len(),
    ensures
        match r {
            None => spec_u32s_from_atoms(atom_views(atoms@).skip(idx as int), n as nat) is None,
            Some((ps, i2)) => idx <= i2 <= atoms@.len() && spec_u32s_from_atoms(
                atom_views(atoms@).skip(idx as int),
                n as nat,
            ) == Some((ps@, atom_views(atoms@).skip(i2 as int))),
        },
{
    let mut ps: Vec<u32> = Vec::new();
    let mut pos = idx;
    let mut cnt: u64 = 0;
    while cnt < n
        invariant
            cnt <= n,
            idx <= pos <= atoms@.len(),
            compose_u32s(
                ps@,
                spec_u32s_from_atoms(atom_views(atoms@).skip(pos as int), (n - cnt) as nat),
            ) == spec_u32s_from_atoms(atom_views(atoms@).skip(idx as int), n as nat),
        decreases n - cnt,
    {
        match take_num_at(atoms, pos) {
            None => {
                return None;
            },
            Some((v, p2)) => {
                if v > 0xffff_ffff {
                    return None;
                }
                proof {
                    let pre = ps@;
                    let nxt = spec_u32s_from_atoms(
                        atom_views(atoms@).skip(p2 as int),
                        (n - (cnt + 1)) as nat,
                    );
                    match nxt {
                        None => {},
                        Some((tail, rest2)) => {
                            assert(pre + (seq![v as u32] + tail) =~= pre.push(v as u32) + tail);
                        },
                    }
                    assert(ps@.push(v as u32) =~= (ps@ + seq![v as u32]));
                }
                let ghost prev = ps@;
                ps.push(v as u32);
                proof {
                    assert(ps@ =~= prev.push(v as u32));
                }
                pos = p2;
                cnt = cnt + 1;
            },
        }
    }
    Some((ps, pos))
}

/// Reads a page-range description from the atoms at `idx`.
fn page_range_from_atoms_at(atoms: &Vec<Atom>, idx: usize) -> (r: Option<(PageRange, usize)>)
    requires
        idx <= atoms@.len(),
    ensures
        match r {
            None => spec_page_range_from_atoms(atom_views(atoms@).skip(idx as int)) is None,
            Some((pr, i2)) => idx <= i2 <= atoms@.len() && spec_page_range_from_atoms(
                atom_views(atoms@).skip(idx as int),
            ) == Some((pr@, atom_views(atoms@).skip(i2 as int))),
        },
{
    match take_num_at(atoms, idx) {
        None => None,
        Some((tag, r1)) => {
            if tag == 0 {
                Some((PageRange::All, r1))
            } else if tag == 1 {
                match take_num_at(atoms, r1) {
                    None => None,
                    Some((start, r2)) => match take_num_at(atoms, r2) {
                        None => None,
                        Some((end, r3)) => {
                            if start > 0xffff_ffff || end > 0xffff_ffff {
                                None
                            } else {
                                Some((
                                    PageRange::Range { start: start as u32, end: end as u32 },
                                    r3,
                                ))
                            }
                        },
                    },
                }
            } else if tag == 2 {
                match take_num_at(atoms, r1) {
                    None => None,
                    Some((cnt, r2)) => match u32s_from_atoms_at(atoms, r2, cnt) {
                        None => None,
                        Some((pages, r3)) => Some((PageRange::Selection { pages }, r3)),
                    },
                }
            } else {
                None
            }
        },
    }
}

/// Reads an optional piece of text from the atoms at `idx`.
fn opt_txt_from_atoms_at(atoms: &Vec<Atom>, idx: usize) -> (r: Option<(Option<String>, usize)>)
    requires
        idx <= atoms@.len(),
    ensures
        match r {
            None => spec_opt_txt_from_atoms(atom_views(atoms@).skip(idx as int)) is None,
            Some((o, i2)) => idx <= i2 <= atoms@.len() && spec_opt_txt_from_atoms(
                atom_views(atoms@).skip(idx as int),
            ) == Some(
                (
                    match o {
                        Some(t) => Some(t@),
                        None => None,
                    },
                    atom_views(atoms@).skip(i2 as int),
                ),
            ),
        },
{
    match take_num_at(atoms, idx) {
        None => None,
        Some((tag, r1)) => {
            if tag == 0 {
                Some((None, r1))
            } else if tag == 1 {
                match take_txt_at(atoms, r1) {
                    None => None,
                    Some((t, r2)) => Some((Some(t), r2)),
                }
            } else {
                None
            }
        },
    }
}

/// Reads one job record from the atoms at `idx`.
#[verifier::rlimit(100)]
fn job_from_atoms_at(atoms: &Vec<Atom>, idx: usize) -> (r: Option<(PrintJob, usize)>)
    requires
        idx <= atoms@.len(),
    ensures
        match r {
            None => spec_job_from_atoms(atom_views(atoms@).skip(idx as int)) is None,
            Some((j, i2)) => idx <= i2 <= atoms@.len() && spec_job_from_atoms(
                atom_views(atoms@).skip(idx as int),
            ) == Some((j@, atom_views(atoms@).skip(i2 as int))),
        },
{
    proof {
        reveal(spec_job_from_atoms);
        reveal(spec_job_tail_from_atoms);
    }
    let (id, r1) = match take_num_at(atoms, idx) {
        None => {
            return None;
        },
        Some(x) => x,
    };
    let (name, r2) = match take_txt_at(atoms, r1) {
        None => {
            return None;
        },
        Some(x) => x,
    };
    let (file_path, r3) = match take_txt_at(atoms, r2) {
        None => {
            return None;
        },
        Some(x) => x,
    };
    let (printer, r4) = match take_txt_at(atoms, r3) {
        None => {
            return None;
        },
        Some(x) => x,
    };
    let (copies, r5) = match take_num_at(atoms, r4) {
        None => {
            return None;
        },
        Some(x) => x,
    };
    if copies > 0xffff_ffff {
        return None;
    }
    let (dt, r6) = match take_num_at(atoms, r5) {
        None => {
            return None;
        },
        Some(x) => x,
    };
    let duplex = if dt == 0 {
        DuplexMode::Simplex
    } else if dt == 1 {
        DuplexMode::DuplexLongEdge
    } else if dt == 2 {
        DuplexMode::DuplexShortEdge
    } else {
        return None;
    };
    let (ot, r7) = match take_num_at(atoms, r6) {
        None => {
            return None;
        },
        Some(x) => x,
    };
    let orientation = if ot == 0 {
        Orientation::Portrait
    } else if ot == 1 {
        Orientation::Landscape
    } else {
        return None;
    };
    let (pt, r8) = match take_num_at(atoms, r7) {
        None => {
            return None;
        },
        Some(x) => x,
    };
    let paper_size = if pt == 0 {
        PaperSize::A4
    } else if pt == 1 {
        PaperSize::A3
    } else {
        return None;
    };
    let (page_range, r9) = match page_range_from_atoms_at(atoms, r8) {
        None => {
            return None;
        },
        Some(x) => x,
    };
    let (pps, r10) = match take_num_at(atoms, r9) {
        None => {
            return None;
        },
        Some(x) => x,
    };
    if pps > 0xffff_ffff {
        return None;
    }
    let (bk, r11) = match take_num_at(atoms, r10) {
        None => {
            return None;
        },
        Some(x) => x,
    };
    if bk > 1 {
        return None;
    }
    let (st, r12) = match take_num_at(atoms, r11) {
        None => {
            return None;
        },
        Some(x) => x,
    };
    let status = if st == 0 {
        PrintJobStatus::Pending
    } else if st == 1 {
        PrintJobStatus::Uploading
    } else if st == 2 {
        PrintJobStatus::Queued
    } else if st == 3 {
        PrintJobStatus::Printing
    } else if st == 4 {
        PrintJobStatus::Completed
    } else if st == 5 {
        PrintJobStatus::Failed
    } else if st == 6 {
        PrintJobStatus::Cancelled
    } else {
        return None;
    };
    let (created_at, r13) = match take_num_at(atoms, r12) {
        None => {
            return None;
        },
        Some(x) => x,
    };
    let (updated_at, r14) = match take_num_at(atoms, r13) {
        None => {
            return None;
        },
        Some(x) => x,
    };
    let (error, r15) = match opt_txt_from_atoms_at(atoms, r14) {
        None => {
            return None;
        },
        Some(x) => x,
    };
    let (external_id, r16) = match opt_txt_from_atoms_at(atoms, r15) {
        None => {
            return None;
        },
        Some(x) => x,
    };
    let job = PrintJob {
        id,
        name,
        file_path,
        printer,
        settings: PrintSettings {
            copies: copies as u32,
            duplex,
            orientation,
            page_range,
            pages_per_sheet: pps as u32,
            booklet: bk == 1,
            paper_size,
        },
        status,
        created_at,
        updated_at,
        error,
        external_id,
    };
    proof {
        match spec_job_from_atoms(atom_views(atoms@).skip(idx as int)) {
            Some((jj, rr)) => {
                assert(jj =~= job@);
            },
            None => {
                assert(false);
            },
        }
    }
    Some((job, r16))
}

pub open spec fn compose_jobs(
    pre: Seq<PrintJobView>,
    r: Option<(Seq<PrintJobView>, Seq<AtomView>)>,
) -> Option<(Seq<PrintJobView>, Seq<AtomView>)> {
    match r {
        None => None,
        Some((tail, rest)) => Some((pre + tail, rest)),
    }
}

/// Reads `n` job records from the atoms at `idx`.
fn jobs_from_atoms_at(atoms: &Vec<Atom>, idx: usize, n: u64) -> (r: Option<(Vec<PrintJob>, usize)>)
    requires
        idx <= atoms@.len(),
    ensures
        match r {
            None => spec_jobs_from_atoms(atom_views(atoms@).skip(idx as int), n as nat) is None,
            Some((js, i2)) => idx <= i2 <= atoms@.len() && spec_jobs_from_atoms(
                atom_views(atoms@).skip(idx as int),
                n as nat,
            ) == Some((job_views(js@), atom_views(atoms@).skip(i2 as int))),
        },
{
    let mut js: Vec<PrintJob> = Vec::new();
    let mut pos = idx;
    let mut cnt: u64 = 0;
    while cnt < n
        invariant
            cnt <= n,
            idx <= pos <= atoms@.len(),
            compose_jobs(
                job_views(js@),
                spec_jobs_from_atoms(atom_views(atoms@).skip(pos as int), (n - cnt) as nat),
            ) == spec_jobs_from_atoms(atom_views(atoms@).skip(idx as int), n as nat),
        decreases n - cnt,
    {
        match job_from_atoms_at(atoms, pos) {
            None => {
                return None;
            },
            Some((j, p2)) => {
                proof {
                    let pre = job_views(js@);
                    let nxt = spec_jobs_from_atoms(
                        atom_views(atoms@).skip(p2 as int),
                        (n - (cnt + 1)) as nat,
                    );
                    match nxt {
                        None => {},
                        Some((tail, rest2)) => {
                            assert(pre + (seq![j@] + tail) =~= pre.push(j@) + tail);
                        },
                    }
                }
                let ghost prev = js@;
                js.push(j);
                proof {
                    assert(job_views(js@) =~= job_views(prev).push(prev.push(js@[js@.len() - 1])[
                        prev.len() as int]@));
                    assert(job_views(js@) =~= job_views(prev).push(js@[js@.len() - 1]@));
                }
                pos = p2;
                cnt = cnt + 1;
            },
        }
    }
    Some((js, pos))
}

/// Reads a durable snapshot back into the next fresh id and the records;
/// `None` exactly when the text is not a well-formed snapshot.
pub fn decode_snapshot(s: &str) -> (r: Option<(u64, Vec<PrintJob>)>)
    ensures
        match r {
            None => spec_restore(s@) is None,
            Some((next_id, jobs)) => spec_restore(s@) == Some((next_id, job_views(jobs@))),
        },
{
    let atoms = match crate::codec::parse_file(s) {
        None => {
            return None;
        },
        Some(atoms) => atoms,
    };
    proof {
        assert(atom_views(atoms@).skip(0) =~= atom_views(atoms@));
    }
    let (next_id, r1) = match take_num_at(&atoms, 0) {
        None => {
            return None;
        },
        Some(x) => x,
    };
    let (cnt, r2) = match take_num_at(&atoms, r1) {
        None => {
            return None;
        },
        Some(x) => x,
    };
    let (jobs, r3) = match jobs_from_atoms_at(&atoms, r2, cnt) {
        None => {
            return None;
        },
        Some(x) => x,
    };
    if r3 < atoms.len() {
        proof {
            assert(atom_views(atoms@).skip(r3 as int).len() > 0);
        }
        return None;
    }
    proof {
        assert(atom_views(atoms@).skip(r3 as int).len() == 0);
    }
    Some((next_id, jobs))
}

} // verus!
