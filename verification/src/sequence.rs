//! `File > Sequence JPEG Timestamps…`: the state of the one run that may be
//! in progress, and the preview built from a dry run's results.

use vstd::prelude::*;

verus! {

/// The message a run started while another is in progress gets.
pub open spec fn run_in_progress() -> Seq<char> {
    "a sequence run is already in progress"@
}

/// The id of the last run handed out and the task of the one run that may
/// be in progress (`H`, its handle and cancel flag).
pub struct SequenceState<H> {
    next_id: u64,
    running: Option<(u64, H)>,
}

impl<H> SequenceState<H> {
    /// The id of the last run handed out.
    pub closed spec fn last_id(&self) -> u64 {
        self.next_id
    }

    /// The id of the run in progress, if any.
    pub closed spec fn running_id(&self) -> Option<u64> {
        match self.running {
            Some((id, _)) => Some(id),
            None => None,
        }
    }

    /// The task of the run in progress (meaningful while there is one).
    pub closed spec fn running_task(&self) -> H {
        match self.running {
            Some((_, h)) => h,
            None => arbitrary(),
        }
    }

    /// No run handed out yet.
    pub fn new() -> (r: SequenceState<H>)
        ensures
            r.last_id() == 0,
            r.running_id() is None,
    {
        SequenceState { next_id: 0, running: None }
    }

    /// Whether `begin` has a run id left to hand out.
    pub fn ids_left(&self) -> (r: bool)
        ensures
            r == (self.last_id() < u64::MAX),
    {
        self.next_id < u64::MAX
    }

    /// Mint a run id and store the task `spawn` starts for it, or refuse
    /// while another run is in progress.
    pub fn begin<F: FnOnce(u64) -> H>(&mut self, spawn: F) -> (r: Result<u64, String>)
        requires
            old(self).last_id() < u64::MAX,
            forall|id: u64| spawn.requires((id,)),
        ensures
            old(self).running_id() is Some ==> (r matches Err(e) && e@ == run_in_progress()),
            old(self).running_id() is Some ==> final(self).last_id() == old(self).last_id()
                && final(self).running_id() == old(self).running_id() && final(self).running_task()
                == old(self).running_task(),
            old(self).running_id() is None ==> r == Ok::<u64, String>(
                (old(self).last_id() + 1) as u64,
            ) && final(self).last_id() == old(self).last_id() + 1 && final(self).running_id()
                == Some((old(self).last_id() + 1) as u64),
            old(self).running_id() is None ==> call_ensures(
                spawn,
                ((old(self).last_id() + 1) as u64,),
                final(self).running_task(),
            ),
    {
        if self.running.is_some() {
            return Err("a sequence run is already in progress".to_string());
        }
        self.next_id = self.next_id + 1;
        let run_id = self.next_id;
        let handle = spawn(run_id);
        self.running = Some((run_id, handle));
        Ok(run_id)
    }

    /// Drop the run `run_id` if it is still the one stored.
    pub fn finish(&mut self, run_id: u64)
        ensures
            final(self).last_id() == old(self).last_id(),
            final(self).running_id() == if old(self).running_id() == Some(run_id) {
                None
            } else {
                old(self).running_id()
            },
            old(self).running_id() != Some(run_id) ==> final(self).running_task() == old(
                self,
            ).running_task(),
    {
        let same = match &self.running {
            Some((id, _)) => *id == run_id,
            None => false,
        };
        if same {
            self.running = None;
        }
    }

    /// The task of the run `run_id`, when it is the one in progress.
    pub fn running(&self, run_id: u64) -> (r: Option<&H>)
        ensures
            self.running_id() == Some(run_id) ==> (r matches Some(h) && *h == self.running_task()),
            self.running_id() != Some(run_id) ==> r is None,
    {
        match &self.running {
            Some((id, handle)) => if *id == run_id {
                Some(handle)
            } else {
                None
            },
            None => None,
        }
    }
}

/// One file that could not be read or written.
#[derive(Debug, PartialEq, Eq)]
pub struct Failure {
    pub path: String,
    pub message: String,
}

/// One file of a preview, in the computed order.
#[derive(Debug, PartialEq, Eq)]
pub struct Row {
    pub path: String,
    pub old: String,
    pub new: String,
    pub changed: bool,
}

/// What `sequence_preview` returns.
#[derive(Debug, PartialEq, Eq)]
pub struct Preview {
    pub output_dir: String,
    pub output_exists: bool,
    pub rows: Vec<Row>,
    pub failed: Vec<Failure>,
}

/// The failure of the file at `path`.
pub fn failure(path: &str, message: &str) -> (r: Failure)
    ensures
        r.path@ == path@,
        r.message@ == message@,
{
    Failure { path: path.to_string(), message: message.to_string() }
}

/// A dry run's result for one file: its old and new times and whether they
/// differ, or why it failed.
pub type Outcome = Result<(String, String, bool), String>;

/// The rows of the files a dry run placed, in its order.
pub open spec fn rows_of(results: Seq<(String, Outcome)>) -> Seq<(Seq<char>, Seq<char>, Seq<char>, bool)>
    decreases results.len(),
{
    if results.len() == 0 {
        Seq::empty()
    } else {
        let rest = rows_of(results.drop_last());
        match results.last().1 {
            Ok((old, new, changed)) => rest.push((results.last().0@, old@, new@, changed)),
            Err(_) => rest,
        }
    }
}

/// The files a dry run could not place, in its order.
pub open spec fn failures_of(results: Seq<(String, Outcome)>) -> Seq<(Seq<char>, Seq<char>)>
    decreases results.len(),
{
    if results.len() == 0 {
        Seq::empty()
    } else {
        let rest = failures_of(results.drop_last());
        match results.last().1 {
            Ok(_) => rest,
            Err(m) => rest.push((results.last().0@, m@)),
        }
    }
}

/// The rows, in the abstract.
pub open spec fn row_views(v: Seq<Row>) -> Seq<(Seq<char>, Seq<char>, Seq<char>, bool)> {
    v.map_values(|r: Row| (r.path@, r.old@, r.new@, r.changed))
}

/// The failures, in the abstract.
pub open spec fn failure_views(v: Seq<Failure>) -> Seq<(Seq<char>, Seq<char>)> {
    v.map_values(|f: Failure| (f.path@, f.message@))
}

/// Every file of a dry run is either a row or a failure.
pub proof fn law_every_file_is_a_row_or_a_failure(results: Seq<(String, Outcome)>)
    ensures
        rows_of(results).len() + failures_of(results).len() == results.len(),
    decreases results.len(),
{
    if results.len() > 0 {
        law_every_file_is_a_row_or_a_failure(results.drop_last());
    }
}

/// The preview of a dry run: the output folder, whether it exists already,
/// the files it placed in its order, and those it could not.
pub fn preview_of(output_dir: String, output_exists: bool, results: &Vec<(String, Outcome)>) -> (r:
    Preview)
    ensures
        r.output_dir@ == output_dir@,
        r.output_exists == output_exists,
        row_views(r.rows@) == rows_of(results@),
        failure_views(r.failed@) == failures_of(results@),
{
    let mut rows: Vec<Row> = Vec::new();
    let mut failed: Vec<Failure> = Vec::new();
    let mut i: usize = 0;
    assert(results@.take(0) =~= Seq::<(String, Outcome)>::empty());
    while i < results.len()
        invariant
            i <= results@.len(),
            row_views(rows@) == rows_of(results@.take(i as int)),
            failure_views(failed@) == failures_of(results@.take(i as int)),
        decreases results@.len() - i,
    {
        let ghost t = results@.take(i + 1);
        assert(t.drop_last() =~= results@.take(i as int));
        let (path, outcome) = &results[i];
        match outcome {
            Ok((old, new, changed)) => {
                let ghost before = row_views(rows@);
                rows.push(
                    Row { path: path.clone(), old: old.clone(), new: new.clone(), changed: *changed },
                );
                assert(row_views(rows@) =~= before.push((path@, old@, new@, *changed)));
            },
            Err(message) => {
                let ghost before = failure_views(failed@);
                failed.push(failure(path.as_str(), message.as_str()));
                assert(failure_views(failed@) =~= before.push((path@, message@)));
            },
        }
        i = i + 1;
    }
    assert(results@.take(i as int) =~= results@);
    Preview { output_dir, output_exists, rows, failed }
}

} // verus!
