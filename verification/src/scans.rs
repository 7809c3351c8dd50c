//! The bookkeeping of folder scans: the id handed out to each folder open,
//! the one scan that may be running, the work queued for it to start, and
//! how many folder opens are still preparing. The app holds it behind one
//! lock and does the listing and the spawning itself.

use std::collections::HashMap;
use vstd::prelude::*;

verus! {

/// The scan state with the running scan's handle `R` and the queued work
/// `P`, keyed by the id of the folder open that queued it.
pub struct ScansState<R, P> {
    next_id: u64,
    latest_id: u64,
    running: Option<(u64, R)>,
    pending: HashMap<u64, P>,
    preparing: u32,
}

/// The scan state in the abstract: the last id handed out, the latest id a
/// folder open got, the id of the stored running scan, the ids the queued
/// work is keyed by, and how many folder opens are preparing.
pub struct ScansModel {
    pub next_id: u64,
    pub latest_id: u64,
    pub running: Option<u64>,
    pub pending: Set<u64>,
    pub preparing: u32,
}

/// Whether a scan is in progress: a folder open preparing, a stored scan
/// task, or queued work waiting for `start`.
pub open spec fn scanning_in(m: ScansModel) -> bool {
    m.preparing > 0 || m.running is Some || !m.pending.is_empty()
}

/// The state after `finish(scan_id)`: the stored scan is dropped only when
/// it is the one spawned under `scan_id`.
pub open spec fn after_finish(m: ScansModel, scan_id: u64) -> ScansModel {
    ScansModel {
        running: if m.running == Some(scan_id) {
            None
        } else {
            m.running
        },
        ..m
    }
}

/// What `take_pending` found for a scan id.
pub enum Queued<P> {
    /// The id is the latest and its work was queued: start it.
    Start(P),
    /// The id is the latest but nothing is queued under it.
    Missing,
    /// A later folder open superseded the id; its work, if any was queued,
    /// is handed back so that its folder can be named.
    Stale(Option<P>),
}

impl<R, P> ScansState<R, P> {
    /// The state in the abstract.
    pub closed spec fn model(&self) -> ScansModel {
        ScansModel {
            next_id: self.next_id,
            latest_id: self.latest_id,
            running: match self.running {
                Some((id, _)) => Some(id),
                None => None,
            },
            pending: self.pending@.dom(),
            preparing: self.preparing,
        }
    }

    /// The queued work, by the id of the folder open that queued it.
    pub closed spec fn queued(&self) -> Map<u64, P> {
        self.pending@
    }

    /// The stored scan task (meaningful while there is one).
    pub closed spec fn running_task(&self) -> R {
        match self.running {
            Some((_, task)) => task,
            None => arbitrary(),
        }
    }

    /// No scan yet.
    pub fn new() -> (r: ScansState<R, P>)
        ensures
            r.model().next_id == 0,
            r.model().latest_id == 0,
            r.model().running is None,
            r.queued() == Map::<u64, P>::empty(),
            r.model().preparing == 0,
    {
        let r = ScansState {
            next_id: 0,
            latest_id: 0,
            running: None,
            pending: HashMap::new(),
            preparing: 0,
        };
        assert(r.model().pending =~= Set::<u64>::empty());
        r
    }

    /// The id of the stored scan task, if any.
    pub fn running_id(&self) -> (r: Option<u64>)
        ensures
            r == self.model().running,
    {
        match &self.running {
            Some((id, _)) => Some(*id),
            None => None,
        }
    }

    /// Whether a scan is in progress; see `scanning_in`.
    pub fn scanning(&self) -> (r: bool)
        ensures
            r == scanning_in(self.model()),
    {
        self.preparing > 0 || self.running.is_some() || !self.pending.is_empty()
    }

    /// Whether `begin` has an id to hand out and room to count one more
    /// folder open preparing.
    pub fn can_begin(&self) -> (r: bool)
        ensures
            r == (self.model().next_id < u64::MAX && self.model().preparing < u32::MAX),
    {
        self.next_id < u64::MAX && self.preparing < u32::MAX
    }

    /// A folder open starts: it gets the next id, which becomes the latest,
    /// takes the stored scan (to cancel and join it) and counts as
    /// preparing until `prepared`.
    pub fn begin(&mut self) -> (r: (u64, Option<(u64, R)>))
        requires
            old(self).model().next_id < u64::MAX,
            old(self).model().preparing < u32::MAX,
        ensures
            r.0 == old(self).model().next_id + 1,
            match r.1 {
                Some((id, task)) => old(self).model().running == Some(id) && task == old(
                    self,
                ).running_task(),
                None => old(self).model().running is None,
            },
            final(self).model() == (ScansModel {
                next_id: r.0,
                latest_id: r.0,
                running: None,
                preparing: (old(self).model().preparing + 1) as u32,
                ..old(self).model()
            }),
            final(self).queued() == old(self).queued(),
    {
        self.next_id = self.next_id + 1;
        let scan_id = self.next_id;
        self.latest_id = scan_id;
        let previous = self.running.take();
        self.preparing = self.preparing + 1;
        (scan_id, previous)
    }

    /// A folder open is done preparing.
    pub fn prepared(&mut self)
        requires
            old(self).model().preparing > 0,
        ensures
            final(self).model() == (ScansModel {
                preparing: (old(self).model().preparing - 1) as u32,
                ..old(self).model()
            }),
            final(self).queued() == old(self).queued(),
            final(self).running_task() == old(self).running_task(),
    {
        self.preparing = self.preparing - 1;
    }

    /// Queue the work of the folder open `scan_id` for `start`, unless a
    /// later folder open superseded it (then the work is handed back).
    /// Anything queued before belongs to a superseded scan that never
    /// started, and is dropped.
    pub fn queue(&mut self, scan_id: u64, work: P) -> (r: Option<P>)
        ensures
            old(self).model().latest_id != scan_id ==> r == Some(work) && final(self).model()
                == old(self).model() && final(self).queued() == old(self).queued(),
            old(self).model().latest_id == scan_id ==> r is None && final(self).queued()
                == Map::<u64, P>::empty().insert(scan_id, work) && final(self).model() == (
            ScansModel { pending: set![scan_id], ..old(self).model() }),
            final(self).running_task() == old(self).running_task(),
    {
        broadcast use vstd::std_specs::hash::group_hash_axioms;

        if self.latest_id != scan_id {
            return Some(work);
        }
        self.pending.clear();
        self.pending.insert(scan_id, work);
        assert(self.pending@ =~= Map::<u64, P>::empty().insert(scan_id, work));
        assert(self.pending@.dom() =~= set![scan_id]);
        None
    }

    /// Take the work queued for `scan_id`, to start it; see `Queued`. What
    /// is handed back is the work queued under `scan_id`, which leaves the
    /// queue.
    pub fn take_pending(&mut self, scan_id: u64) -> (r: Queued<P>)
        ensures
            old(self).model().latest_id != scan_id ==> r == Queued::Stale(
                old(self).queued().get(scan_id),
            ),
            old(self).model().latest_id == scan_id ==> r == match old(self).queued().get(scan_id) {
                Some(p) => Queued::Start(p),
                None => Queued::<P>::Missing,
            },
            final(self).queued() == old(self).queued().remove(scan_id),
            final(self).model() == (ScansModel {
                pending: old(self).model().pending.remove(scan_id),
                ..old(self).model()
            }),
            final(self).running_task() == old(self).running_task(),
    {
        broadcast use vstd::std_specs::hash::group_hash_axioms;

        let found = self.pending.remove(&scan_id);
        assert(self.pending@.dom() =~= old(self).pending@.dom().remove(scan_id));
        if self.latest_id != scan_id {
            return Queued::Stale(found);
        }
        match found {
            Some(p) => Queued::Start(p),
            None => Queued::Missing,
        }
    }

    /// Store the scan task spawned under `scan_id`.
    pub fn store_running(&mut self, scan_id: u64, task: R)
        ensures
            final(self).model() == (ScansModel { running: Some(scan_id), ..old(self).model() }),
            final(self).running_task() == task,
            final(self).queued() == old(self).queued(),
    {
        self.running = Some((scan_id, task));
    }

    /// Drop the entry of the scan spawned under `scan_id`, if it is still the
    /// one stored. A later folder open may have taken it and a later `start`
    /// stored a newer one, which this must not clear.
    pub fn finish(&mut self, scan_id: u64)
        ensures
            final(self).model() == after_finish(old(self).model(), scan_id),
            final(self).queued() == old(self).queued(),
            old(self).model().running != Some(scan_id) ==> final(self).running_task() == old(
                self,
            ).running_task(),
    {
        let same = match &self.running {
            Some((id, _)) => *id == scan_id,
            None => false,
        };
        if same {
            self.running = None;
        }
    }
}

/// A scan that finishes, with nothing preparing or queued, leaves no scan
/// in progress.
pub proof fn law_a_finished_scan_leaves_no_scan_in_progress(m: ScansModel, scan_id: u64)
    requires
        m.running == Some(scan_id),
        m.preparing == 0,
        m.pending.is_empty(),
    ensures
        !scanning_in(after_finish(m, scan_id)),
{
}

/// A superseded scan finishing does not clear the newer scan, which stays
/// in progress.
pub proof fn law_a_superseded_scan_does_not_clear_the_newer_one(m: ScansModel, old_id: u64)
    requires
        m.running matches Some(id) && id != old_id,
    ensures
        after_finish(m, old_id).running == m.running,
        scanning_in(after_finish(m, old_id)),
{
}

/// A folder being prepared counts as a scan in progress, whatever else.
pub proof fn law_a_folder_being_prepared_counts_as_a_scan(m: ScansModel)
    requires
        m.preparing > 0,
    ensures
        scanning_in(m),
        scanning_in(after_finish(m, 0)),
{
}

} // verus!
