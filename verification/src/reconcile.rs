//! The queue reconciler: completion is inferred, not announced. Jobs in
//! Queued or Printing are grouped by destination, one listing is taken
//! per destination, and a job whose recorded queue identifier no longer
//! appears among the listing's entries is transitioned to Completed. A
//! job that never had an identifier recorded is conservatively treated
//! as no longer active on the very next poll — a heuristic, since the
//! remote system pushes no notification.
use vstd::prelude::*;
use vstd::string::StringExecFns;
use crate::listing::{line_views, listing_mentions, listing_mentions_entries};
use crate::registry::{JobRegistry, clone_opt_string, lemma_find_idx, lemma_find_idx_unique,
    with_status};
use crate::types::{PrintJob, PrintJobStatus, PrintJobView, is_remote_active,
    status_is_remote_active};
use crate::snapshot::job_views;

verus! {

/// Whether a job still has a live trace among the listing entries: its
/// recorded identifier appears as a token; a job with no recorded
/// identifier counts as gone.
pub open spec fn job_listed(j: PrintJobView, entries: Seq<Seq<char>>) -> bool {
    match j.external_id {
        Some(ident) => listing_mentions(entries, ident),
        None => false,
    }
}

/// Whether this reconciliation pass transitions the job: it is remote-
/// active, targets this destination, and has no live trace.
pub open spec fn reconcile_touches(
    j: PrintJobView,
    dest: Seq<char>,
    entries: Seq<Seq<char>>,
) -> bool {
    is_remote_active(j.status) && j.printer == dest && !job_listed(j, entries)
}

/// A record after reconciliation found it gone: Completed, stamped
/// `now`, all else — error text and identifier included — kept.
pub open spec fn completed_form(j: PrintJobView, now: u64) -> PrintJobView {
    PrintJobView {
        id: j.id,
        name: j.name,
        file_path: j.file_path,
        printer: j.printer,
        settings: j.settings,
        status: PrintJobStatus::Completed,
        created_at: j.created_at,
        updated_at: now,
        error: j.error,
        external_id: j.external_id,
    }
}

/// The records after one reconciliation pass against one destination.
pub open spec fn reconcile_view(
    js: Seq<PrintJobView>,
    dest: Seq<char>,
    entries: Seq<Seq<char>>,
    now: u64,
) -> Seq<PrintJobView>
    decreases js.len(),
{
    if js.len() == 0 {
        Seq::empty()
    } else {
        let pre = reconcile_view(js.drop_last(), dest, entries, now);
        if reconcile_touches(js.last(), dest, entries) {
            pre.push(completed_form(js.last(), now))
        } else {
            pre.push(js.last())
        }
    }
}

/// The ids transitioned by that pass, in order.
pub open spec fn reconcile_ids(
    js: Seq<PrintJobView>,
    dest: Seq<char>,
    entries: Seq<Seq<char>>,
    now: u64,
) -> Seq<u64>
    decreases js.len(),
{
    if js.len() == 0 {
        Seq::empty()
    } else {
        let pre = reconcile_ids(js.drop_last(), dest, entries, now);
        if reconcile_touches(js.last(), dest, entries) {
            pre.push(js.last().id)
        } else {
            pre
        }
    }
}

/// Reconciliation changes status and update time only: every record
/// keeps its place, its id and its other fields.
pub proof fn lemma_reconcile_view_shape(
    js: Seq<PrintJobView>,
    dest: Seq<char>,
    entries: Seq<Seq<char>>,
    now: u64,
)
    ensures
        reconcile_view(js, dest, entries, now).len() == js.len(),
        forall|k: int|
            0 <= k < js.len() ==> (#[trigger] reconcile_view(js, dest, entries, now)[k])
                == if reconcile_touches(js[k], dest, entries) {
                completed_form(js[k], now)
            } else {
                js[k]
            },
    decreases js.len(),
{
    if js.len() > 0 {
        lemma_reconcile_view_shape(js.drop_last(), dest, entries, now);
        assert(forall|k: int| 0 <= k < js.len() - 1 ==> (#[trigger] js.drop_last()[k]) == js[k]);
    }
}

// ---------- Targets ----------

/// The distinct destinations of remote-active jobs, in first-appearance
/// order: one listing per destination suffices.
pub open spec fn targets_of(js: Seq<PrintJobView>) -> Seq<Seq<char>>
    decreases js.len(),
{
    if js.len() == 0 {
        Seq::empty()
    } else {
        let pre = targets_of(js.drop_last());
        if is_remote_active(js.last().status) && !pre.contains(js.last().printer) {
            pre.push(js.last().printer)
        } else {
            pre
        }
    }
}

fn contains_string(v: &Vec<String>, s: &str) -> (r: bool)
    ensures
        r == line_views(v@).contains(s@),
{
    let needle = String::from_str(s);
    let mut i: usize = 0;
    while i < v.len()
        invariant
            i <= v@.len(),
            needle@ == s@,
            forall|k: int| 0 <= k < i ==> (#[trigger] line_views(v@)[k]) != s@,
        decreases v@.len() - i,
    {
        if v[i] == needle {
            proof {
                assert(line_views(v@)[i as int] == s@);
            }
            return true;
        }
        proof {
            assert(line_views(v@)[i as int] == v@[i as int]@);
        }
        i = i + 1;
    }
    proof {
        if line_views(v@).contains(s@) {
            let w = choose|k: int| 0 <= k < line_views(v@).len() && line_views(v@)[k] == s@;
            assert(line_views(v@)[w] != s@);
        }
    }
    false
}

/// The destinations a reconciliation pass must poll, from a snapshot of
/// the records: each distinct destination of a remote-active job, once.
pub fn reconcile_targets(jobs: &Vec<PrintJob>) -> (r: Vec<String>)
    ensures
        line_views(r@) == targets_of(job_views(jobs@)),
{
    let ghost jv = job_views(jobs@);
    let mut out: Vec<String> = Vec::new();
    let mut i: usize = 0;
    while i < jobs.len()
        invariant
            i <= jobs@.len(),
            jv == job_views(jobs@),
            jv.len() == jobs@.len(),
            line_views(out@) == targets_of(jv.take(i as int)),
        decreases jobs@.len() - i,
    {
        proof {
            assert(jv.take(i + 1).drop_last() =~= jv.take(i as int));
            assert(jv.take(i + 1).last() == jv[i as int]);
        }
        let j = &jobs[i];
        if status_is_remote_active(j.status) && !contains_string(&out, j.printer.as_str()) {
            let ghost prev = out@;
            out.push(j.printer.clone());
            proof {
                assert(line_views(out@) =~= line_views(prev).push(jv[i as int].printer));
            }
        }
        i = i + 1;
    }
    proof {
        assert(jv.take(jv.len() as int) =~= jv);
    }
    out
}

// ---------- Applying one destination's listing ----------

/// Applies one destination's queue listing: every remote-active job of
/// that destination whose trace is gone moves to Completed, once, and
/// the transitioned ids come back in record order. Everything else —
/// other destinations, live jobs, records already terminal — is left
/// exactly as it was.
pub fn reconcile_destination(
    reg: &mut JobRegistry,
    dest: &str,
    entries: &Vec<String>,
    now: u64,
) -> (r: Vec<u64>)
    requires
        old(reg).wf(),
    ensures
        final(reg).wf(),
        final(reg).fresh_id() == old(reg).fresh_id(),
        final(reg).jobs_view() == reconcile_view(
            old(reg).jobs_view(),
            dest@,
            line_views(entries@),
            now,
        ),
        r@ == reconcile_ids(old(reg).jobs_view(), dest@, line_views(entries@), now),
        final(reg).is_dirty() == (old(reg).is_dirty() || r@.len() > 0),
{
    let ghost oldview = reg.jobs_view();
    let ghost evs = line_views(entries@);
    let snapshot = reg.list();
    let dest_string = String::from_str(dest);
    let mut out: Vec<u64> = Vec::new();
    let mut i: usize = 0;
    while i < snapshot.len()
        invariant
            i <= snapshot@.len(),
            job_views(snapshot@) == oldview,
            snapshot@.len() == oldview.len(),
            evs == line_views(entries@),
            dest_string@ == dest@,
            reg.wf(),
            reg.fresh_id() == old(reg).fresh_id(),
            reg.jobs_view() == reconcile_view(oldview.take(i as int), dest@, evs, now)
                + oldview.skip(i as int),
            out@ == reconcile_ids(oldview.take(i as int), dest@, evs, now),
            reg.is_dirty() == (old(reg).is_dirty() || out@.len() > 0),
        decreases snapshot@.len() - i,
    {
        let ghost curview = reg.jobs_view();
        proof {
            assert(oldview.take(i + 1).drop_last() =~= oldview.take(i as int));
            assert(oldview.take(i + 1).last() == oldview[i as int]);
            lemma_reconcile_view_shape(oldview.take(i as int), dest@, evs, now);
            assert(curview.len() == oldview.len());
            assert(curview[i as int] == oldview[i as int]);
        }
        let j = &snapshot[i];
        proof {
            assert(j@ == oldview[i as int]);
        }
        let gone = status_is_remote_active(j.status) && j.printer == dest_string && !(match &j
            .external_id {
            Some(ident) => listing_mentions_entries(entries, ident.as_str()),
            None => false,
        });
        proof {
            assert(gone == reconcile_touches(oldview[i as int], dest@, evs));
        }
        if gone {
            proof {
                assert forall|a: int, b: int|
                    0 <= a < b < curview.len() implies curview[a].id < curview[b].id by {
                    lemma_reconcile_view_shape(oldview.take(i as int), dest@, evs, now);
                }
                assert(curview[i as int].id == oldview[i as int].id);
                lemma_find_idx_unique(curview, i as int);
            }
            let err = clone_opt_string(&j.error);
            let res = reg.update_status(j.id, PrintJobStatus::Completed, err, now);
            proof {
                assert(res is Ok) by {
                    if res is Err {
                        lemma_find_idx(curview, j.id);
                    }
                }
                let newj = with_status(
                    curview[i as int],
                    PrintJobStatus::Completed,
                    oldview[i as int].error,
                    now,
                );
                assert(newj =~= completed_form(oldview[i as int], now));
                assert(reg.jobs_view() =~= reconcile_view(oldview.take(i + 1), dest@, evs, now)
                    + oldview.skip(i + 1));
            }
            out.push(j.id);
            proof {
                assert(out@ =~= reconcile_ids(oldview.take(i + 1), dest@, evs, now));
            }
        } else {
            proof {
                assert(reg.jobs_view() =~= reconcile_view(oldview.take(i + 1), dest@, evs, now)
                    + oldview.skip(i + 1));
                assert(out@ =~= reconcile_ids(oldview.take(i + 1), dest@, evs, now));
            }
        }
        i = i + 1;
    }
    proof {
        assert(oldview.take(oldview.len() as int) =~= oldview);
        assert(oldview.skip(oldview.len() as int) =~= Seq::<PrintJobView>::empty());
        assert(reconcile_view(oldview, dest@, evs, now) + Seq::<PrintJobView>::empty()
            =~= reconcile_view(oldview, dest@, evs, now));
    }
    out
}

// ---------- Laws ----------

/// Reconciliation is idempotent: a job found gone is transitioned to
/// Completed exactly once. A second pass over the reconciled records,
/// against the same listing, transitions nothing and changes nothing —
/// only Queued and Printing jobs are ever considered, and a completed
/// record is neither.
pub proof fn lemma_reconcile_idempotent(
    js: Seq<PrintJobView>,
    dest: Seq<char>,
    entries: Seq<Seq<char>>,
    now: u64,
    now2: u64,
)
    ensures
        reconcile_ids(reconcile_view(js, dest, entries, now), dest, entries, now2) == Seq::<
            u64,
        >::empty(),
        reconcile_view(reconcile_view(js, dest, entries, now), dest, entries, now2)
            == reconcile_view(js, dest, entries, now),
    decreases js.len(),
{
    if js.len() > 0 {
        lemma_reconcile_idempotent(js.drop_last(), dest, entries, now, now2);
        let v = reconcile_view(js, dest, entries, now);
        assert(v.drop_last() =~= reconcile_view(js.drop_last(), dest, entries, now));
        if reconcile_touches(js.last(), dest, entries) {
            assert(v.last() == completed_form(js.last(), now));
            assert(!is_remote_active(v.last().status));
        } else {
            assert(v.last() == js.last());
        }
        assert(reconcile_view(v, dest, entries, now2) =~= v);
    }
}

} // verus!
