//! Moving the rejected files of a folder to the OS trash, RAW first and its
//! sidecars after. The per-file loop takes the mover as an argument, so the
//! app hands it the one that calls the OS trash.

use vstd::prelude::*;

use crate::folders::clean_path;
use crate::sidecar::{entry_extension, file_name_of, final_name, is_raw_file, opt_view, raw_extension};
use crate::text::concat;

verus! {

/// What comes before the last `/` of `s` (nothing when it has none).
pub open spec fn before_last_slash(s: Seq<char>) -> Seq<char>
    decreases s.len(),
{
    if s.len() == 0 {
        s
    } else if s.last() == '/' {
        s.drop_last()
    } else {
        before_last_slash(s.drop_last())
    }
}

/// The parent of a clean path: none for the root, the root for a path of
/// one component, else what comes before its last `/`.
pub open spec fn clean_parent(s: Seq<char>) -> Option<Seq<char>> {
    if s == "/"@ {
        None
    } else if before_last_slash(s).len() == 0 {
        Some("/"@)
    } else {
        Some(before_last_slash(s))
    }
}

/// `Path::parent` of `path`, as a string: the path without its final
/// component. Stated for clean paths, whose components are the runs between
/// the `/`s on every platform; of others nothing is stated.
#[verifier::external_body]
fn path_parent(path: &str) -> (r: Option<String>)
    ensures
        clean_path(path@) ==> opt_view(r) == clean_parent(path@),
{
    std::path::Path::new(path).parent().map(|p| p.to_string_lossy().into_owned())
}

/// Why `path` cannot be moved to the trash from the folder `dir`, if it
/// cannot, given the file name and the parent the platform reads in it: it
/// must be a RAW file directly inside `dir`.
pub open spec fn trash_verdict_of(
    dir: Seq<char>,
    path: Seq<char>,
    name: Option<Seq<char>>,
    parent: Option<Seq<char>>,
) -> Option<Seq<char>> {
    if !(name matches Some(n) && raw_extension(entry_extension(n))) {
        Some("not a RAW file: "@ + path)
    } else if parent != Some(dir) {
        Some("not in the open folder: "@ + path)
    } else {
        None
    }
}

/// Why the clean path `path` cannot be moved to the trash from `dir`: its
/// file name and parent are read the same on every platform.
pub open spec fn trash_refusal(dir: Seq<char>, path: Seq<char>) -> Option<Seq<char>> {
    trash_verdict_of(dir, path, final_name(path), clean_parent(path))
}

/// The view of an optional text.
pub open spec fn opt_str(o: Option<&str>) -> Option<Seq<char>> {
    match o {
        Some(s) => Some(s@),
        None => None,
    }
}

/// Refuse `path` unless `name`, its file name, names a RAW file and
/// `parent`, the folder it is in, is `dir`; `name` and `parent` are what the
/// platform reads in `path`. Both messages name the path.
pub fn trash_verdict(dir: &str, path: &str, name: Option<&str>, parent: Option<&str>) -> (r: Result<
    (),
    String,
>)
    ensures
        match trash_verdict_of(dir@, path@, opt_str(name), opt_str(parent)) {
            Some(m) => r matches Err(e) && e@ == m,
            None => r is Ok,
        },
{
    let raw = match name {
        Some(n) => is_raw_file(n),
        None => false,
    };
    if !raw {
        return Err(concat("not a RAW file: ", path));
    }
    let in_dir = match parent {
        Some(p) => crate::text::same_str(p, dir),
        None => false,
    };
    if !in_dir {
        return Err(concat("not in the open folder: ", path));
    }
    Ok(())
}

/// The only clean path without a final name is the root.
proof fn lemma_clean_final_name(s: Seq<char>)
    requires
        clean_path(s),
    ensures
        final_name(s) is None ==> s == "/"@,
{
    reveal_strlit("/");
    reveal_strlit(".");
    reveal_strlit("..");
    reveal_strlit("/.");
    reveal_strlit("/..");
    crate::sidecar::lemma_after_last_slash(s);
    let t = crate::sidecar::after_last_slash(s);
    if final_name(s) is None {
        if t.len() == 0 {
            if s.len() > 1 {
                assert(s[s.len() - 1] == '/');
            }
            assert(s =~= "/"@);
        } else if t == "."@ {
            assert(s[0] == '/');
            assert(s.subrange(s.len() - 1, s.len() as int)[0] == s[s.len() - 1]);
            assert(t.len() < s.len());
            assert(s[s.len() - 1] == '.');
            assert(s[s.len() - 2] == '/');
            assert(s.subrange(s.len() - 2, s.len() as int) =~= "/."@);
        } else {
            assert(t == ".."@);
            assert(s[0] == '/');
            assert(s.subrange(s.len() - 2, s.len() as int)[0] == s[s.len() - 2]);
            assert(s.subrange(s.len() - 2, s.len() as int)[1] == s[s.len() - 1]);
            assert(t.len() < s.len());
            assert(s[s.len() - 3] == '/');
            assert(s.subrange(s.len() - 3, s.len() as int) =~= "/.."@);
        }
    }
}

/// Refuse anything but a RAW file directly inside `dir`, with the reason:
/// `trash_verdict` on the file name and the parent the platform reads in
/// `path`. Windows reads drive and network prefixes and `\` separators that
/// other platforms read as plain characters, so the result is stated for
/// clean paths, which every platform reads alike; of others, that an error
/// is one of the two messages.
pub fn check_trashable(dir: &str, path: &str) -> (r: Result<(), String>)
    ensures
        clean_path(path@) ==> match trash_refusal(dir@, path@) {
            Some(m) => r matches Err(e) && e@ == m,
            None => r is Ok,
        },
        r matches Err(e) ==> e@ == "not a RAW file: "@ + path@ || e@ == "not in the open folder: "@
            + path@,
{
    proof {
        if clean_path(path@) {
            lemma_clean_final_name(path@);
        }
    }
    let name = file_name_of(path);
    let parent = path_parent(path);
    let n: Option<&str> = match &name {
        Some(s) => Some(s.as_str()),
        None => None,
    };
    let p: Option<&str> = match &parent {
        Some(s) => Some(s.as_str()),
        None => None,
    };
    trash_verdict(dir, path, n, p)
}

/// One RAW and the sidecars that exist on disk for it, in the order they are
/// moved.
#[derive(Debug, PartialEq, Eq)]
pub struct Group {
    pub raw: String,
    pub sidecars: Vec<String>,
}

/// One file that could not be moved.
#[derive(Debug, PartialEq, Eq)]
pub struct Failure {
    pub path: String,
    pub message: String,
}

/// What `run` produces: how many RAWs went to the trash and everything that
/// did not.
#[derive(Debug, PartialEq, Eq)]
pub struct Summary {
    pub trashed: usize,
    pub failed: Vec<Failure>,
}

/// A group in the abstract: the RAW's path and its sidecars' paths.
pub type GroupModel = (Seq<char>, Seq<Seq<char>>);

/// A failure in the abstract: the path and the message.
pub type FailureModel = (Seq<char>, Seq<char>);

/// What the mover answered for one group: the RAW's error, if it failed,
/// and then one answer per sidecar (none when the RAW failed, since its
/// sidecars are then left alone).
pub type Outcome = (Option<Seq<char>>, Seq<Option<Seq<char>>>);

/// The groups, in the abstract.
pub open spec fn group_models(v: Seq<Group>) -> Seq<GroupModel> {
    v.map_values(|g: Group| (g.raw@, g.sidecars@.map_values(|s: String| s@)))
}

/// The failures, in the abstract.
pub open spec fn failure_models(v: Seq<Failure>) -> Seq<FailureModel> {
    v.map_values(|f: Failure| (f.path@, f.message@))
}

/// `answer` is one the mover may give to moving `path`: none when it moved
/// the file, its message when it did not.
pub open spec fn said<F: Fn(&str) -> Result<(), String>>(
    mover: F,
    path: Seq<char>,
    answer: Option<Seq<char>>,
) -> bool {
    exists|p: &str, r: Result<(), String>|
        p@ == path && #[trigger] call_ensures(mover, (p,), r) && match r {
            Ok(_) => answer is None,
            Err(e) => answer == Some(e@),
        }
}

/// Where a run stands: `(i, None)` when the RAW of group `i` is moved next,
/// `(i, Some(k))` when its sidecar `k` is, and `(groups.len(), None)` when
/// it is done.
pub type Cursor = (int, Option<int>);

/// The path moved next at `at`, if the run is not done.
pub open spec fn next_at(groups: Seq<GroupModel>, at: Cursor) -> Option<Seq<char>> {
    if 0 <= at.0 < groups.len() {
        match at.1 {
            None => Some(groups[at.0].0),
            Some(k) => Some(groups[at.0].1[k]),
        }
    } else {
        None
    }
}

/// Where a run goes once the mover answered (`None` when it moved the file,
/// its message when it did not) at `at`. A RAW that failed leaves its
/// sidecars alone, so the judgment stays with the file; a RAW that went takes
/// its sidecars after it, in order; a failed sidecar does not stop the rest.
pub open spec fn step(groups: Seq<GroupModel>, at: Cursor, answer: Option<Seq<char>>) -> Cursor {
    let i = at.0;
    match at.1 {
        None => if answer is Some || groups[i].1.len() == 0 {
            (i + 1, None)
        } else {
            (i, Some(0))
        },
        Some(k) => if k + 1 < groups[i].1.len() {
            (i, Some(k + 1))
        } else {
            (i + 1, None)
        },
    }
}

/// Whether `at` is a place a run over `groups` can stand.
pub open spec fn valid_cursor(groups: Seq<GroupModel>, at: Cursor) -> bool {
    &&& 0 <= at.0 <= groups.len()
    &&& at.1 matches Some(k) ==> at.0 < groups.len() && 0 <= k < groups[at.0].1.len()
}

/// The moves left from group `i` on.
pub open spec fn moves_from(groups: Seq<GroupModel>, i: int) -> nat
    decreases groups.len() - i,
{
    if 0 <= i < groups.len() {
        1 + groups[i].1.len() + moves_from(groups, i + 1)
    } else {
        0
    }
}

/// The moves left at `at`.
pub open spec fn moves_left(groups: Seq<GroupModel>, at: Cursor) -> nat {
    match at.1 {
        None => moves_from(groups, at.0),
        Some(k) => ((groups[at.0].1.len() - k) + moves_from(groups, at.0 + 1)) as nat,
    }
}

/// A run driven by `answers` from the start: where it stands, how many RAWs
/// went, and every refused move in the order it was tried.
pub open spec fn driven(groups: Seq<GroupModel>, answers: Seq<Option<Seq<char>>>) -> (
    Cursor,
    nat,
    Seq<FailureModel>,
)
    decreases answers.len(),
{
    if answers.len() == 0 {
        ((0, None), 0, Seq::empty())
    } else {
        let (at, t, f) = driven(groups, answers.drop_last());
        let a = answers.last();
        (
            step(groups, at, a),
            if at.1 is None && a is None {
                t + 1
            } else {
                t
            },
            match a {
                Some(m) => f.push((next_at(groups, at)->0, m)),
                None => f,
            },
        )
    }
}

/// Whether every answer in `answers` came while the run was not done.
pub open spec fn answered_in_turn(groups: Seq<GroupModel>, answers: Seq<Option<Seq<char>>>) -> bool {
    forall|n: int|
        0 <= n < answers.len() ==> #[trigger] next_at(groups, driven(groups, answers.take(n)).0)
            is Some
}

/// The paths a run driven by `answers` moved, in order.
pub open spec fn moved_paths(groups: Seq<GroupModel>, answers: Seq<Option<Seq<char>>>) -> Seq<
    Seq<char>,
> {
    Seq::new(answers.len(), |n: int| next_at(groups, driven(groups, answers.take(n)).0)->0)
}

/// One run of moves to the trash: it says which path to move next, is told
/// what the mover answered, and keeps the tally. The app's loop does the
/// moving.
pub struct TrashRun {
    groups: Vec<Group>,
    at: (usize, Option<usize>),
    trashed: usize,
    failed: Vec<Failure>,
}

impl TrashRun {
    /// The groups to move.
    pub closed spec fn groups(&self) -> Seq<GroupModel> {
        group_models(self.groups@)
    }

    /// Where the run stands.
    pub closed spec fn at(&self) -> Cursor {
        (
            self.at.0 as int,
            match self.at.1 {
                Some(k) => Some(k as int),
                None => None,
            },
        )
    }

    /// How many RAWs went so far.
    pub closed spec fn trashed(&self) -> nat {
        self.trashed as nat
    }

    /// The refused moves so far, in order.
    pub closed spec fn failed(&self) -> Seq<FailureModel> {
        failure_models(self.failed@)
    }

    #[verifier::type_invariant]
    closed spec fn well_formed(&self) -> bool {
        &&& valid_cursor(self.groups(), self.at())
        &&& self.trashed <= self.at.0 + if self.at.1 is Some {
            1int
        } else {
            0int
        }
    }

    /// A run over `groups`, not started.
    pub fn new(groups: Vec<Group>) -> (r: TrashRun)
        ensures
            r.groups() == group_models(groups@),
            r.at() == (0int, None::<int>),
            r.trashed() == 0,
            r.failed() == Seq::<FailureModel>::empty(),
    {
        let r = TrashRun { groups, at: (0, None), trashed: 0, failed: Vec::new() };
        assert(r.failed() =~= Seq::<FailureModel>::empty());
        r
    }

    /// The path to move next, or `None` when the run is done.
    pub fn next(&self) -> (r: Option<String>)
        ensures
            opt_view(r) == next_at(self.groups(), self.at()),
    {
        proof {
            use_type_invariant(self);
        }
        if self.at.0 >= self.groups.len() {
            return None;
        }
        let g = &self.groups[self.at.0];
        assert(self.groups()[self.at.0 as int] == (g.raw@, g.sidecars@.map_values(
            |s: String| s@,
        )));
        match self.at.1 {
            None => Some(g.raw.clone()),
            Some(k) => {
                assert(self.groups()[self.at.0 as int].1[k as int] == g.sidecars@[k as int]@);
                Some(g.sidecars[k].clone())
            },
        }
    }

    /// Tell the run what the mover answered for the path `next` gave.
    pub fn answer(&mut self, result: Result<(), String>)
        requires
            next_at(old(self).groups(), old(self).at()) is Some,
        ensures
            final(self).groups() == old(self).groups(),
            final(self).at() == step(old(self).groups(), old(self).at(), answer_of(result)),
            final(self).trashed() == if old(self).at().1 is None && result is Ok {
                old(self).trashed() + 1
            } else {
                old(self).trashed()
            },
            final(self).failed() == match result {
                Ok(_) => old(self).failed(),
                Err(m) => old(self).failed().push(
                    (next_at(old(self).groups(), old(self).at())->0, m@),
                ),
            },
    {
        proof {
            use_type_invariant(&*self);
        }
        let ghost gm = self.groups();
        let path = match self.next() {
            Some(p) => p,
            None => String::new(),
        };
        let i = self.at.0;
        let total = self.groups.len();
        assert(i < total);
        let n = self.groups[i].sidecars.len();
        assert(gm[i as int].1.len() == n);
        let raw = self.at.1.is_none();
        let went = result.is_ok();
        if let Err(message) = result {
            let ghost before = self.failed();
            let ghost m = message@;
            let mut failed: Vec<Failure> = Vec::new();
            std::mem::swap(&mut failed, &mut self.failed);
            failed.push(Failure { path, message });
            self.failed = failed;
            assert(self.failed() =~= before.push((next_at(gm, old(self).at())->0, m)));
        }
        let trashed = if raw && went {
            self.trashed + 1
        } else {
            self.trashed
        };
        let at = match self.at.1 {
            None => if !went || n == 0 {
                (i + 1, None)
            } else {
                (i, Some(0))
            },
            Some(k) => if k + 1 < n {
                (i, Some(k + 1))
            } else {
                (i + 1, None)
            },
        };
        self.trashed = 0;
        self.at = at;
        self.trashed = trashed;
    }

    /// What the run produced: how many RAWs went and every refused move.
    pub fn finish(self) -> (r: Summary)
        ensures
            r.trashed == self.trashed(),
            failure_models(r.failed@) == self.failed(),
    {
        Summary { trashed: self.trashed, failed: self.failed }
    }
}

/// The answer a mover's result stands for.
pub open spec fn answer_of(result: Result<(), String>) -> Option<Seq<char>> {
    match result {
        Ok(_) => None,
        Err(m) => Some(m@),
    }
}

/// A RAW the mover refused leaves its sidecars alone: the run goes on to
/// the next group's RAW (or is done), so the judgment stays with the file.
pub proof fn law_a_refused_raw_keeps_its_sidecars(groups: Seq<GroupModel>, i: int, message: Seq<char>)
    requires
        0 <= i < groups.len(),
    ensures
        step(groups, (i, None), Some(message)) == (i + 1, None::<int>),
        next_at(groups, step(groups, (i, None), Some(message))) == if i + 1 < groups.len() {
            Some(groups[i + 1].0)
        } else {
            None
        },
{
}

/// Every answer moves the run on: fewer moves are left.
pub proof fn law_every_answer_moves_the_run_on(
    groups: Seq<GroupModel>,
    at: Cursor,
    answer: Option<Seq<char>>,
)
    requires
        valid_cursor(groups, at),
        next_at(groups, at) is Some,
    ensures
        valid_cursor(groups, step(groups, at, answer)),
        moves_left(groups, step(groups, at, answer)) < moves_left(groups, at),
{
    let i = at.0;
    assert(moves_from(groups, i) == 1 + groups[i].1.len() + moves_from(groups, i + 1));
}

/// Move every group with `mover`, never stopping at a failure: the mover
/// gets the paths `TrashRun::next` gives, in turn. The RAW goes first: when
/// it fails its sidecars are left alone, so the judgement stays with the
/// file.
pub fn run<F: Fn(&str) -> Result<(), String>>(groups: Vec<Group>, mover: F) -> (r: Summary)
    requires
        forall|p: &str| mover.requires((p,)),
    ensures
        exists|answers: Seq<Option<Seq<char>>>|
            {
                &&& answered_in_turn(group_models(groups@), answers)
                &&& #[trigger] driven(group_models(groups@), answers).0.0 == group_models(
                    groups@,
                ).len()
                &&& driven(group_models(groups@), answers).1 == r.trashed
                &&& driven(group_models(groups@), answers).2 == failure_models(r.failed@)
                &&& forall|n: int|
                    0 <= n < answers.len() ==> said(
                        mover,
                        moved_paths(group_models(groups@), answers)[n],
                        #[trigger] answers[n],
                    )
            },
{
    let ghost gm = group_models(groups@);
    let mut state = TrashRun::new(groups);
    let ghost mut answers: Seq<Option<Seq<char>>> = Seq::empty();
    loop
        invariant
            forall|p: &str| mover.requires((p,)),
            state.groups() == gm,
            driven(gm, answers) == (state.at(), state.trashed(), state.failed()),
            answered_in_turn(gm, answers),
            forall|n: int|
                0 <= n < answers.len() ==> said(mover, moved_paths(gm, answers)[n], #[trigger] answers[n]),
        ensures
            state.groups() == gm,
            driven(gm, answers) == (state.at(), state.trashed(), state.failed()),
            answered_in_turn(gm, answers),
            forall|n: int|
                0 <= n < answers.len() ==> said(mover, moved_paths(gm, answers)[n], #[trigger] answers[n]),
            state.at().0 == gm.len(),
        decreases moves_left(gm, state.at()),
    {
        proof {
            use_type_invariant(&state);
        }
        let path = match state.next() {
            Some(p) => p,
            None => {
                proof {
                    assert(!(0 <= state.at().0 < gm.len()));
                    assert(state.at().0 == gm.len());
                }
                break;
            },
        };
        let ghost at = state.at();
        let result = mover(path.as_str());
        proof {
            let a = answer_of(result);
            assert(said(mover, path@, a));
            let next = answers.push(a);
            assert(next.drop_last() =~= answers);
            assert forall|n: int| 0 <= n < next.len() implies #[trigger] next_at(
                gm,
                driven(gm, next.take(n)).0,
            ) is Some by {
                if n < answers.len() {
                    assert(next.take(n) =~= answers.take(n));
                } else {
                    assert(next.take(n) =~= answers);
                }
            }
            assert forall|n: int| 0 <= n < next.len() implies said(
                mover,
                moved_paths(gm, next)[n],
                #[trigger] next[n],
            ) by {
                if n < answers.len() {
                    assert(next.take(n) =~= answers.take(n));
                    assert(moved_paths(gm, answers)[n] == moved_paths(gm, next)[n]);
                } else {
                    assert(next.take(n) =~= answers);
                }
            }
            law_every_answer_moves_the_run_on(gm, at, a);
            answers = next;
        }
        state.answer(result);
    }
    let ghost end = driven(gm, answers);
    let r = state.finish();
    assert(end.0.0 == gm.len() && end.1 == r.trashed && end.2 == failure_models(r.failed@));
    r
}

} // verus!
