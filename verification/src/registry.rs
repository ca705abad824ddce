//! The job registry: the id-keyed map of job records behind every
//! operation, with its dirty flag and its durable snapshot. Ids are
//! allocated from a counter that only grows — an id, once handed out, is
//! never handed out again — and the records are kept in id order.
use vstd::prelude::*;
use crate::types::{PrintError, PrintJob, PrintJobStatus, PrintJobView, PrintSettings,
    PrintSettingsView, PageRange};
use crate::snapshot::{encode_snapshot, decode_snapshot, job_views, registry_atoms, spec_restore,
    spec_snapshot, wf_jobs, lemma_snapshot_roundtrip};

verus! {

// ---------- Spec views of the record sequence ----------

pub open spec fn ids_strictly_ascending(js: Seq<PrintJobView>) -> bool {
    forall|a: int, b: int| 0 <= a < b < js.len() ==> js[a].id < js[b].id
}

pub open spec fn ids_below(js: Seq<PrintJobView>, bound: u64) -> bool {
    forall|i: int| 0 <= i < js.len() ==> (#[trigger] js[i].id) < bound
}

pub open spec fn contains_id(js: Seq<PrintJobView>, id: u64) -> bool {
    exists|i: int| 0 <= i < js.len() && (#[trigger] js[i].id) == id
}

/// Index of the first record with the given id, or -1.
pub open spec fn find_idx(js: Seq<PrintJobView>, id: u64) -> int
    decreases js.len(),
{
    if js.len() == 0 {
        -1
    } else if js[0].id == id {
        0
    } else if find_idx(js.drop_first(), id) < 0 {
        -1
    } else {
        find_idx(js.drop_first(), id) + 1
    }
}

/// The record with the given id, if present.
pub open spec fn find_job(js: Seq<PrintJobView>, id: u64) -> Option<PrintJobView> {
    if find_idx(js, id) >= 0 {
        Some(js[find_idx(js, id)])
    } else {
        None
    }
}

pub proof fn lemma_find_idx(js: Seq<PrintJobView>, id: u64)
    ensures
        -1 <= find_idx(js, id) < js.len(),
        find_idx(js, id) >= 0 ==> js[find_idx(js, id)].id == id,
        find_idx(js, id) >= 0 ==> forall|k: int|
            0 <= k < find_idx(js, id) ==> (#[trigger] js[k].id) != id,
        (find_idx(js, id) >= 0) == contains_id(js, id),
    decreases js.len(),
{
    if js.len() == 0 {
    } else if js[0].id == id {
    } else {
        lemma_find_idx(js.drop_first(), id);
        assert(forall|k: int|
            0 <= k < js.drop_first().len() ==> #[trigger] js.drop_first()[k] == js[k + 1]);
        if find_idx(js.drop_first(), id) < 0 {
            assert(!contains_id(js, id)) by {
                if contains_id(js, id) {
                    let w = choose|i: int| 0 <= i < js.len() && (#[trigger] js[i].id) == id;
                    assert(w > 0);
                    assert(js.drop_first()[w - 1].id == id);
                }
            }
        } else {
            assert(js.drop_first()[find_idx(js.drop_first(), id)].id == id);
            assert forall|k: int| 0 <= k < find_idx(js, id) implies (#[trigger] js[k].id) != id by {
                if k > 0 {
                    assert(js.drop_first()[k - 1].id != id);
                }
            }
        }
    }
}

/// A record with a fresh id, in the Pending state.
pub open spec fn new_job_view(
    id: u64,
    name: Seq<char>,
    file_path: Seq<char>,
    printer: Seq<char>,
    settings: PrintSettingsView,
    now: u64,
) -> PrintJobView {
    PrintJobView {
        id,
        name,
        file_path,
        printer,
        settings,
        status: PrintJobStatus::Pending,
        created_at: now,
        updated_at: now,
        error: None,
        external_id: None,
    }
}

/// A record after a status update: new status, error text and update
/// time; everything else kept.
pub open spec fn with_status(
    j: PrintJobView,
    status: PrintJobStatus,
    error: Option<Seq<char>>,
    now: u64,
) -> PrintJobView {
    PrintJobView {
        id: j.id,
        name: j.name,
        file_path: j.file_path,
        printer: j.printer,
        settings: j.settings,
        status,
        created_at: j.created_at,
        updated_at: now,
        error,
        external_id: j.external_id,
    }
}

/// A record after the remote queue's own identifier was captured.
pub open spec fn with_external_id(
    j: PrintJobView,
    external_id: Option<Seq<char>>,
    now: u64,
) -> PrintJobView {
    PrintJobView {
        id: j.id,
        name: j.name,
        file_path: j.file_path,
        printer: j.printer,
        settings: j.settings,
        status: j.status,
        created_at: j.created_at,
        updated_at: now,
        error: j.error,
        external_id,
    }
}

pub open spec fn opt_string_view(o: Option<String>) -> Option<Seq<char>> {
    match o {
        Some(s) => Some(s@),
        None => None,
    }
}

// ---------- Retention ----------

/// A record is dropped by cleanup exactly when it is terminal and was
/// created at or before the retention cutoff. Live records are always
/// kept, whatever their age.
pub open spec fn drops_at_cleanup(j: PrintJobView, retention_secs: u64, now: u64) -> bool {
    crate::types::is_terminal(j.status) && retention_secs <= now && j.created_at <= now
        - retention_secs
}

/// The records that survive a cleanup, in order.
pub open spec fn cleanup_kept(js: Seq<PrintJobView>, retention_secs: u64, now: u64) -> Seq<
    PrintJobView,
>
    decreases js.len(),
{
    if js.len() == 0 {
        Seq::empty()
    } else {
        let pre = cleanup_kept(js.drop_last(), retention_secs, now);
        if drops_at_cleanup(js.last(), retention_secs, now) {
            pre
        } else {
            pre.push(js.last())
        }
    }
}

/// The ids removed by a cleanup, in order.
pub open spec fn cleanup_removed(js: Seq<PrintJobView>, retention_secs: u64, now: u64) -> Seq<u64>
    decreases js.len(),
{
    if js.len() == 0 {
        Seq::empty()
    } else {
        let pre = cleanup_removed(js.drop_last(), retention_secs, now);
        if drops_at_cleanup(js.last(), retention_secs, now) {
            pre.push(js.last().id)
        } else {
            pre
        }
    }
}

/// Cleanup keeps ids in order and never invents one: what survives is a
/// subsequence, so order and bounds carry over, and kept and removed
/// together account for every record.
pub proof fn lemma_cleanup_shape(js: Seq<PrintJobView>, retention_secs: u64, now: u64, bound: u64)
    requires
        ids_strictly_ascending(js),
        ids_below(js, bound),
    ensures
        ids_strictly_ascending(cleanup_kept(js, retention_secs, now)),
        ids_below(cleanup_kept(js, retention_secs, now), bound),
        cleanup_kept(js, retention_secs, now).len() + cleanup_removed(js, retention_secs, now).len()
            == js.len(),
        forall|k: int|
            0 <= k < cleanup_kept(js, retention_secs, now).len() ==> exists|i: int|
                0 <= i < js.len() && (#[trigger] cleanup_kept(js, retention_secs, now)[k]) == js[i],
    decreases js.len(),
{
    if js.len() > 0 {
        let dl = js.drop_last();
        assert(ids_strictly_ascending(dl) && ids_below(dl, bound)) by {
            assert(forall|i: int| 0 <= i < dl.len() ==> dl[i] == js[i]);
        }
        lemma_cleanup_shape(dl, retention_secs, now, bound);
        let pre = cleanup_kept(dl, retention_secs, now);
        assert(forall|k: int| 0 <= k < pre.len() ==> exists|i: int|
            0 <= i < dl.len() && (#[trigger] pre[k]) == dl[i]);
        if !drops_at_cleanup(js.last(), retention_secs, now) {
            let kept = pre.push(js.last());
            assert forall|a: int, b: int| 0 <= a < b < kept.len() implies kept[a].id < kept[b].id by {
                if b < kept.len() - 1 {
                } else {
                    let i = choose|i: int| 0 <= i < dl.len() && pre[a] == dl[i];
                    assert(dl[i].id < js.last().id);
                }
            }
            assert forall|k: int| 0 <= k < kept.len() implies exists|i: int|
                0 <= i < js.len() && (#[trigger] kept[k]) == js[i] by {
                if k < kept.len() - 1 {
                    let i = choose|i: int| 0 <= i < dl.len() && pre[k] == dl[i];
                    assert(kept[k] == js[i]);
                } else {
                    assert(kept[k] == js[js.len() - 1]);
                }
            }
            assert forall|k: int| 0 <= k < kept.len() implies (#[trigger] kept[k].id) < bound by {
                if k < kept.len() - 1 {
                } else {
                    assert(kept[k] == js[js.len() - 1]);
                }
            }
        } else {
            assert forall|k: int| 0 <= k < pre.len() implies exists|i: int|
                0 <= i < js.len() && (#[trigger] pre[k]) == js[i] by {
                let i = choose|i: int| 0 <= i < dl.len() && pre[k] == dl[i];
                assert(pre[k] == js[i]);
            }
        }
    }
}

// ---------- Cloning records ----------

fn clone_pages(ps: &Vec<u32>) -> (r: Vec<u32>)
    ensures
        r@ == ps@,
{
    let mut out: Vec<u32> = Vec::new();
    let mut i: usize = 0;
    while i < ps.len()
        invariant
            i <= ps@.len(),
            out@ == ps@.take(i as int),
        decreases ps@.len() - i,
    {
        out.push(ps[i]);
        proof {
            assert(out@ =~= ps@.take(i + 1));
        }
        i = i + 1;
    }
    proof {
        assert(ps@.take(ps@.len() as int) =~= ps@);
    }
    out
}

fn clone_page_range(pr: &PageRange) -> (r: PageRange)
    ensures
        r@ == pr@,
{
    match pr {
        PageRange::All => PageRange::All,
        PageRange::Range { start, end } => PageRange::Range { start: *start, end: *end },
        PageRange::Selection { pages } => PageRange::Selection { pages: clone_pages(pages) },
    }
}

pub fn clone_opt_string(o: &Option<String>) -> (r: Option<String>)
    ensures
        opt_string_view(r) == opt_string_view(*o),
{
    match o {
        Some(s) => Some(s.clone()),
        None => None,
    }
}

fn clone_settings(s: &PrintSettings) -> (r: PrintSettings)
    ensures
        r@ == s@,
{
    PrintSettings {
        copies: s.copies,
        duplex: s.duplex,
        orientation: s.orientation,
        page_range: clone_page_range(&s.page_range),
        pages_per_sheet: s.pages_per_sheet,
        booklet: s.booklet,
        paper_size: s.paper_size,
    }
}

/// A fresh copy of a record, equal view for view.
pub fn clone_job(j: &PrintJob) -> (r: PrintJob)
    ensures
        r@ == j@,
{
    let r = PrintJob {
        id: j.id,
        name: j.name.clone(),
        file_path: j.file_path.clone(),
        printer: j.printer.clone(),
        settings: clone_settings(&j.settings),
        status: j.status,
        created_at: j.created_at,
        updated_at: j.updated_at,
        error: clone_opt_string(&j.error),
        external_id: clone_opt_string(&j.external_id),
    };
    assert(r@ =~= j@);
    r
}

// ---------- The registry ----------

/// What a durable text loads as: the records, the next fresh id, and
/// whether the text had to be discarded as malformed.
pub open spec fn spec_load(content: Option<Seq<char>>) -> (Seq<PrintJobView>, u64, bool) {
    match content {
        None => (Seq::empty(), 0, false),
        Some(s) => if s.len() == 0 {
            (Seq::empty(), 0, false)
        } else {
            match spec_restore(s) {
                Some((next_id, jobs)) => if ids_strictly_ascending(jobs) && ids_below(
                    jobs,
                    next_id,
                ) {
                    (jobs, next_id, false)
                } else {
                    (Seq::empty(), 0, true)
                },
                None => (Seq::empty(), 0, true),
            }
        },
    }
}

/// The id-keyed map of job records. `dirty` is set exactly by the
/// operations that change the records, and cleared when a snapshot is
/// confirmed written; ids come from `next_id`, which never goes back.
pub struct JobRegistry {
    jobs: Vec<PrintJob>,
    dirty: bool,
    next_id: u64,
}

impl JobRegistry {
    /// The records, in id order.
    pub closed spec fn jobs_view(&self) -> Seq<PrintJobView> {
        job_views(self.jobs@)
    }

    /// Whether the records have diverged from the last confirmed snapshot.
    pub closed spec fn is_dirty(&self) -> bool {
        self.dirty
    }

    /// The id the next created job will get.
    pub closed spec fn fresh_id(&self) -> u64 {
        self.next_id
    }

    /// Record ids strictly ascend and lie below the next fresh id.
    pub open spec fn wf(&self) -> bool {
        ids_strictly_ascending(self.jobs_view()) && ids_below(self.jobs_view(), self.fresh_id())
    }

    /// An empty registry: no records, clean, ids start at zero.
    pub fn new() -> (r: Self)
        ensures
            r.wf(),
            r.jobs_view() == Seq::<PrintJobView>::empty(),
            !r.is_dirty(),
            r.fresh_id() == 0,
    {
        let r = JobRegistry { jobs: Vec::new(), dirty: false, next_id: 0 };
        proof {
            assert(r.jobs_view() =~= Seq::<PrintJobView>::empty());
        }
        r
    }

    /// The id the next created job will get; ids run out only at the
    /// end of the 64-bit space.
    pub fn next_fresh_id(&self) -> (r: u64)
        ensures
            r == self.fresh_id(),
    {
        self.next_id
    }

    fn find_index(&self, id: u64) -> (r: Option<usize>)
        ensures
            match r {
                None => find_idx(self.jobs_view(), id) == -1,
                Some(i) => i < self.jobs_view().len() && find_idx(self.jobs_view(), id) == i,
            },
    {
        let mut i: usize = 0;
        while i < self.jobs.len()
            invariant
                i <= self.jobs_view().len(),
                self.jobs_view().len() == self.jobs@.len(),
                forall|k: int| 0 <= k < i ==> (#[trigger] self.jobs_view()[k].id) != id,
            decreases self.jobs@.len() - i,
        {
            if self.jobs[i].id == id {
                proof {
                    lemma_find_idx(self.jobs_view(), id);
                    assert(self.jobs_view()[i as int].id == id);
                    let f = find_idx(self.jobs_view(), id);
                    assert(contains_id(self.jobs_view(), id));
                    if f < i {
                        assert(self.jobs_view()[f].id == id);
                    }
                    if f > i {
                        assert(self.jobs_view()[i as int].id != id);
                    }
                }
                return Some(i);
            }
            i = i + 1;
        }
        proof {
            lemma_find_idx(self.jobs_view(), id);
            if find_idx(self.jobs_view(), id) >= 0 {
                assert(self.jobs_view()[find_idx(self.jobs_view(), id)].id == id);
            }
        }
        None
    }

    /// Creates a record in the Pending state under a fresh id and returns
    /// the id. The id was never in the registry and never will be handed
    /// out again; the registry becomes dirty.
    pub fn create(
        &mut self,
        name: String,
        file_path: String,
        printer: String,
        settings: PrintSettings,
        now: u64,
    ) -> (r: u64)
        requires
            old(self).wf(),
            old(self).fresh_id() < u64::MAX,
        ensures
            final(self).wf(),
            r == old(self).fresh_id(),
            !contains_id(old(self).jobs_view(), r),
            final(self).fresh_id() == old(self).fresh_id() + 1,
            final(self).is_dirty(),
            final(self).jobs_view() == old(self).jobs_view().push(
                new_job_view(r, name@, file_path@, printer@, settings@, now),
            ),
            find_job(final(self).jobs_view(), r) == Some(
                new_job_view(r, name@, file_path@, printer@, settings@, now),
            ),
    {
        let id = self.next_id;
        let job = PrintJob {
            id,
            name,
            file_path,
            printer,
            settings,
            status: PrintJobStatus::Pending,
            created_at: now,
            updated_at: now,
            error: None,
            external_id: None,
        };
        let ghost oldview = self.jobs_view();
        proof {
            assert(!contains_id(oldview, id));
        }
        self.jobs.push(job);
        self.dirty = true;
        self.next_id = self.next_id + 1;
        proof {
            let jv = new_job_view(id, job.name@, job.file_path@, job.printer@, job.settings@, now);
            assert(job@ =~= jv);
            assert(self.jobs_view() =~= oldview.push(jv));
            assert(ids_strictly_ascending(self.jobs_view())) by {
                assert(forall|k: int|
                    0 <= k < oldview.len() ==> (#[trigger] self.jobs_view()[k]) == oldview[k]);
            }
            lemma_find_push(oldview, jv);
        }
        id
    }

    /// A copy of the record with the given id, or nothing: callers never
    /// see a record mutated after retrieval.
    pub fn get(&self, id: u64) -> (r: Option<PrintJob>)
        ensures
            match r {
                None => find_job(self.jobs_view(), id) is None,
                Some(j) => find_job(self.jobs_view(), id) == Some(j@),
            },
    {
        match self.find_index(id) {
            None => None,
            Some(i) => Some(clone_job(&self.jobs[i])),
        }
    }

    /// Copies of all records, in id order.
    pub fn list(&self) -> (r: Vec<PrintJob>)
        ensures
            job_views(r@) == self.jobs_view(),
    {
        let mut out: Vec<PrintJob> = Vec::new();
        let mut i: usize = 0;
        while i < self.jobs.len()
            invariant
                i <= self.jobs@.len(),
                job_views(out@) == self.jobs_view().take(i as int),
            decreases self.jobs@.len() - i,
        {
            let ghost prev = out@;
            out.push(clone_job(&self.jobs[i]));
            proof {
                assert(job_views(out@) =~= job_views(prev).push(out@[prev.len() as int]@));
                assert(job_views(out@) =~= self.jobs_view().take(i + 1));
            }
            i = i + 1;
        }
        proof {
            assert(self.jobs_view().take(self.jobs@.len() as int) =~= self.jobs_view());
        }
        out
    }

    /// Applies a status update to the record with the given id: status,
    /// error text and update time change, everything else is kept, and
    /// the registry becomes dirty. Fails with NotFound, changing nothing,
    /// exactly when the id is absent. This is the registry's raw
    /// mutation: the lifecycle discipline over it belongs to the
    /// orchestrator and the reconciler.
    pub fn update_status(
        &mut self,
        id: u64,
        status: PrintJobStatus,
        error: Option<String>,
        now: u64,
    ) -> (r: Result<(), PrintError>)
        requires
            old(self).wf(),
        ensures
            final(self).wf(),
            final(self).fresh_id() == old(self).fresh_id(),
            match r {
                Ok(_) => {
                    &&& contains_id(old(self).jobs_view(), id)
                    &&& final(self).jobs_view() == old(self).jobs_view().update(
                        find_idx(old(self).jobs_view(), id),
                        with_status(
                            old(self).jobs_view()[find_idx(old(self).jobs_view(), id)],
                            status,
                            opt_string_view(error),
                            now,
                        ),
                    )
                    &&& final(self).is_dirty()
                },
                Err(e) => {
                    &&& e == PrintError::NotFound
                    &&& !contains_id(old(self).jobs_view(), id)
                    &&& *final(self) == *old(self)
                },
            },
    {
        proof {
            lemma_find_idx(self.jobs_view(), id);
        }
        match self.find_index(id) {
            None => Err(PrintError::NotFound),
            Some(i) => {
                let ghost oldview = self.jobs_view();
                let ghost oldjob = self.jobs_view()[i as int];
                let j = &mut self.jobs[i];
                j.status = status;
                j.error = error;
                j.updated_at = now;
                self.dirty = true;
                proof {
                    assert(self.jobs_view() =~= oldview.update(
                        i as int,
                        with_status(oldjob, status, opt_string_view(error), now),
                    ));
                    assert(ids_strictly_ascending(self.jobs_view()));
                    assert(ids_below(self.jobs_view(), self.fresh_id()));
                }
                Ok(())
            },
        }
    }

    /// Records the remote queue's identifier for a job (or clears it),
    /// bumping the update time and marking the registry dirty. Fails with
    /// NotFound, changing nothing, exactly when the id is absent.
    pub fn set_external_id(
        &mut self,
        id: u64,
        external_id: Option<String>,
        now: u64,
    ) -> (r: Result<(), PrintError>)
        requires
            old(self).wf(),
        ensures
            final(self).wf(),
            final(self).fresh_id() == old(self).fresh_id(),
            match r {
                Ok(_) => {
                    &&& contains_id(old(self).jobs_view(), id)
                    &&& final(self).jobs_view() == old(self).jobs_view().update(
                        find_idx(old(self).jobs_view(), id),
                        with_external_id(
                            old(self).jobs_view()[find_idx(old(self).jobs_view(), id)],
                            opt_string_view(external_id),
                            now,
                        ),
                    )
                    &&& final(self).is_dirty()
                },
                Err(e) => {
                    &&& e == PrintError::NotFound
                    &&& !contains_id(old(self).jobs_view(), id)
                    &&& *final(self) == *old(self)
                },
            },
    {
        proof {
            lemma_find_idx(self.jobs_view(), id);
        }
        match self.find_index(id) {
            None => Err(PrintError::NotFound),
            Some(i) => {
                let ghost oldview = self.jobs_view();
                let ghost oldjob = self.jobs_view()[i as int];
                let j = &mut self.jobs[i];
                j.external_id = external_id;
                j.updated_at = now;
                self.dirty = true;
                proof {
                    assert(self.jobs_view() =~= oldview.update(
                        i as int,
                        with_external_id(oldjob, opt_string_view(external_id), now),
                    ));
                    assert(ids_strictly_ascending(self.jobs_view()));
                    assert(ids_below(self.jobs_view(), self.fresh_id()));
                }
                Ok(())
            },
        }
    }

    /// Deletes the record with the given id and returns it, marking the
    /// registry dirty. Fails with NotFound, changing nothing, exactly
    /// when the id is absent.
    pub fn remove(&mut self, id: u64) -> (r: Result<PrintJob, PrintError>)
        requires
            old(self).wf(),
        ensures
            final(self).wf(),
            final(self).fresh_id() == old(self).fresh_id(),
            match r {
                Ok(j) => {
                    &&& contains_id(old(self).jobs_view(), id)
                    &&& j@ == old(self).jobs_view()[find_idx(old(self).jobs_view(), id)]
                    &&& final(self).jobs_view() == old(self).jobs_view().remove(
                        find_idx(old(self).jobs_view(), id),
                    )
                    &&& final(self).is_dirty()
                },
                Err(e) => {
                    &&& e == PrintError::NotFound
                    &&& !contains_id(old(self).jobs_view(), id)
                    &&& *final(self) == *old(self)
                },
            },
    {
        proof {
            lemma_find_idx(self.jobs_view(), id);
        }
        match self.find_index(id) {
            None => Err(PrintError::NotFound),
            Some(i) => {
                let ghost oldview = self.jobs_view();
                let job = self.jobs.remove(i);
                self.dirty = true;
                proof {
                    assert(self.jobs_view() =~= oldview.remove(i as int));
                    assert(ids_strictly_ascending(self.jobs_view())) by {
                        assert(forall|k: int|
                            0 <= k < self.jobs_view().len() ==> (#[trigger] self.jobs_view()[k])
                                == if k < i {
                                oldview[k]
                            } else {
                                oldview[k + 1]
                            });
                    }
                    assert(ids_below(self.jobs_view(), self.fresh_id()));
                }
                Ok(job)
            },
        }
    }

    /// Removes every terminal record created at or before the retention
    /// cutoff and returns the removed ids; records still in progress are
    /// kept whatever their age. The registry becomes dirty exactly when
    /// something was removed.
    pub fn cleanup(&mut self, retention_secs: u64, now: u64) -> (r: Vec<u64>)
        requires
            old(self).wf(),
        ensures
            final(self).wf(),
            final(self).fresh_id() == old(self).fresh_id(),
            final(self).jobs_view() == cleanup_kept(old(self).jobs_view(), retention_secs, now),
            r@ == cleanup_removed(old(self).jobs_view(), retention_secs, now),
            final(self).is_dirty() == (old(self).is_dirty() || r@.len() > 0),
    {
        let ghost oldview = self.jobs_view();
        let mut kept: Vec<PrintJob> = Vec::new();
        let mut removed: Vec<u64> = Vec::new();
        let mut i: usize = 0;
        while i < self.jobs.len()
            invariant
                i <= self.jobs@.len(),
                oldview == self.jobs_view(),
                oldview.len() == self.jobs@.len(),
                job_views(kept@) == cleanup_kept(oldview.take(i as int), retention_secs, now),
                removed@ == cleanup_removed(oldview.take(i as int), retention_secs, now),
            decreases self.jobs@.len() - i,
        {
            let j = &self.jobs[i];
            let drop_it = crate::types::status_is_terminal(j.status) && retention_secs <= now
                && j.created_at <= now - retention_secs;
            proof {
                assert(oldview.take(i + 1).drop_last() =~= oldview.take(i as int));
                assert(oldview.take(i + 1).last() == oldview[i as int]);
                assert(drop_it == drops_at_cleanup(oldview[i as int], retention_secs, now));
            }
            if drop_it {
                removed.push(j.id);
            } else {
                let ghost prev = kept@;
                kept.push(clone_job(j));
                proof {
                    assert(job_views(kept@) =~= job_views(prev).push(kept@[prev.len() as int]@));
                }
            }
            i = i + 1;
        }
        proof {
            assert(oldview.take(oldview.len() as int) =~= oldview);
        }
        let any_removed = removed.len() > 0;
        self.jobs = kept;
        self.dirty = self.dirty || any_removed;
        proof {
            lemma_cleanup_shape(oldview, retention_secs, now, self.next_id);
        }
        removed
    }

    /// The durable text to write, if the records have diverged from the
    /// last confirmed snapshot; nothing to do otherwise. The dirty flag
    /// stays set until `confirm_saved`, so a failed write can be retried.
    pub fn save_if_dirty(&self) -> (r: Option<String>)
        ensures
            match r {
                None => !self.is_dirty(),
                Some(s) => self.is_dirty() && s@ == spec_snapshot(
                    self.fresh_id(),
                    self.jobs_view(),
                ),
            },
    {
        if self.dirty {
            Some(encode_snapshot(self.next_id, &self.jobs))
        } else {
            None
        }
    }

    /// Clears the dirty flag once the snapshot was durably written;
    /// records and ids are untouched.
    pub fn confirm_saved(&mut self)
        ensures
            !final(self).is_dirty(),
            final(self).jobs_view() == old(self).jobs_view(),
            final(self).fresh_id() == old(self).fresh_id(),
            old(self).wf() ==> final(self).wf(),
    {
        self.dirty = false;
    }

    /// Builds a registry from the durable text: a missing or empty file
    /// is a clean first run; a malformed file, or one whose ids do not
    /// ascend below its next fresh id, yields an empty registry and a
    /// warning instead of failing startup.
    pub fn load(content: Option<&str>) -> (r: (JobRegistry, bool))
        ensures
            r.0.wf(),
            !r.0.is_dirty(),
            ({
                let outcome = spec_load(
                    match content {
                        Some(s) => Some(s@),
                        None => None,
                    },
                );
                r.0.jobs_view() == outcome.0 && r.0.fresh_id() == outcome.1 && r.1 == outcome.2
            }),
    {
        let s = match content {
            None => {
                return (Self::new(), false);
            },
            Some(s) => s,
        };
        if s.unicode_len() == 0 {
            return (Self::new(), false);
        }
        let (next_id, jobs) = match decode_snapshot(s) {
            None => {
                return (Self::new(), true);
            },
            Some(x) => x,
        };
        if ids_valid(&jobs, next_id) {
            let r = JobRegistry { jobs, dirty: false, next_id };
            (r, false)
        } else {
            (Self::new(), true)
        }
    }
}

/// Checks that record ids strictly ascend and lie below the next fresh
/// id — what a well-formed registry requires of a loaded snapshot.
fn ids_valid(jobs: &Vec<PrintJob>, next_id: u64) -> (r: bool)
    ensures
        r == (ids_strictly_ascending(job_views(jobs@)) && ids_below(job_views(jobs@), next_id)),
{
    let ghost jv = job_views(jobs@);
    let mut i: usize = 0;
    while i < jobs.len()
        invariant
            i <= jobs@.len(),
            jv == job_views(jobs@),
            jv.len() == jobs@.len(),
            forall|k: int| 0 < k < i ==> (#[trigger] jv[k - 1].id) < jv[k].id,
            forall|k: int| 0 <= k < i ==> (#[trigger] jv[k].id) < next_id,
        decreases jobs@.len() - i,
    {
        if jobs[i].id >= next_id {
            proof {
                assert(jv[i as int].id >= next_id);
                assert(!ids_below(jv, next_id));
            }
            return false;
        }
        if i > 0 && jobs[i - 1].id >= jobs[i].id {
            proof {
                assert(jv[i - 1].id >= jv[i as int].id);
                assert(!ids_strictly_ascending(jv));
            }
            return false;
        }
        i = i + 1;
    }
    proof {
        lemma_consecutive_ascending(jv);
    }
    true
}

/// Consecutive ascent of ids implies ascent between any two positions.
proof fn lemma_consecutive_ascending(js: Seq<PrintJobView>)
    requires
        forall|k: int| 0 < k < js.len() ==> (#[trigger] js[k - 1].id) < js[k].id,
    ensures
        ids_strictly_ascending(js),
{
    assert forall|a: int, b: int| 0 <= a < b < js.len() implies js[a].id < js[b].id by {
        lemma_ascending_range(js, a, b);
    }
}

proof fn lemma_ascending_range(js: Seq<PrintJobView>, a: int, b: int)
    requires
        forall|k: int| 0 < k < js.len() ==> (#[trigger] js[k - 1].id) < js[k].id,
        0 <= a < b < js.len(),
    ensures
        js[a].id < js[b].id,
    decreases b - a,
{
    if b == a + 1 {
        assert(js[b - 1].id < js[b].id);
    } else {
        lemma_ascending_range(js, a, b - 1);
        assert(js[b - 1].id < js[b].id);
    }
}

/// In a registry whose ids strictly ascend, the record at a position is
/// the one a lookup of its id finds.
pub proof fn lemma_find_idx_unique(js: Seq<PrintJobView>, i: int)
    requires
        ids_strictly_ascending(js),
        0 <= i < js.len(),
    ensures
        find_idx(js, js[i].id) == i,
{
    lemma_find_idx(js, js[i].id);
    let f = find_idx(js, js[i].id);
    assert(contains_id(js, js[i].id));
    if f < i {
        assert(js[f].id == js[i].id);
        assert(js[f].id < js[i].id);
    }
    if f > i {
        assert(js[i].id != js[i].id);
    }
}

/// Appending a record with an id no other record has puts it where a
/// lookup finds it.
proof fn lemma_find_push(js: Seq<PrintJobView>, x: PrintJobView)
    requires
        forall|k: int| 0 <= k < js.len() ==> (#[trigger] js[k].id) != x.id,
    ensures
        find_idx(js.push(x), x.id) == js.len(),
    decreases js.len(),
{
    let p = js.push(x);
    if js.len() == 0 {
        assert(p[0] == x);
    } else {
        assert(p[0] == js[0]);
        assert(p.drop_first() =~= js.drop_first().push(x));
        assert(forall|k: int|
            0 <= k < js.drop_first().len() ==> #[trigger] js.drop_first()[k] == js[k + 1]);
        lemma_find_push(js.drop_first(), x);
    }
}

// ---------- Laws ----------

/// The id that `create` will hand out next is never the id of a record
/// already in a well-formed registry: every present id lies strictly
/// below it. Together with `create`'s contract — the returned id is this
/// one, and the next fresh id then grows — ids are unique across the
/// registry's lifetime.
pub proof fn lemma_fresh_id_not_present(r: JobRegistry)
    requires
        r.wf(),
    ensures
        !contains_id(r.jobs_view(), r.fresh_id()),
        forall|later: u64| later >= r.fresh_id() ==> !contains_id(r.jobs_view(), later),
{
    assert forall|later: u64| later >= r.fresh_id() implies !contains_id(r.jobs_view(), later) by {
        if contains_id(r.jobs_view(), later) {
            let w = choose|i: int|
                0 <= i < r.jobs_view().len() && (#[trigger] r.jobs_view()[i].id) == later;
            assert(r.jobs_view()[w].id < r.fresh_id());
        }
    }
}

/// Writing the snapshot of a well-formed registry and loading it back
/// yields the same records and the same next fresh id, with no warning —
/// the durable round trip loses nothing.
pub proof fn lemma_save_load_roundtrip(r: JobRegistry)
    requires
        r.wf(),
        wf_jobs(r.jobs_view()),
        r.jobs_view().len() <= u64::MAX,
        registry_atoms(r.fresh_id(), r.jobs_view()).len() <= u64::MAX,
    ensures
        spec_load(Some(spec_snapshot(r.fresh_id(), r.jobs_view()))) == (
            r.jobs_view(),
            r.fresh_id(),
            false,
        ),
{
    lemma_snapshot_roundtrip(r.fresh_id(), r.jobs_view());
    assert(spec_snapshot(r.fresh_id(), r.jobs_view()).len() > 0) by {
        crate::digits::lemma_dec_digits_are_digits(
            registry_atoms(r.fresh_id(), r.jobs_view()).len() as u64 as nat,
        );
    }
}

} // verus!
