//! The sidecar writer's queue: one waiting write per path, each due at its
//! deadline (in milliseconds of the writer's own clock), a failed one
//! requeued with a growing delay until its retries run out. The writer
//! thread does the waiting and the writing.

use vstd::prelude::*;

use crate::judging::{retry_after, retry_after_of};
use crate::text::same_str;

verus! {

/// A waiting write in the abstract: the path, what to write, the deadline
/// and how many attempts at it have failed.
pub type WaitingModel<E> = (Seq<char>, E, u64, u32);

/// Whether a write with `deadline` is due at `now`; in a drain (`now` is
/// `None`) every write is.
pub open spec fn due_at(now: Option<u64>, deadline: u64) -> bool {
    match now {
        Some(t) => t >= deadline,
        None => true,
    }
}

/// The waiting writes due at `now`.
pub open spec fn is_due<E>(now: Option<u64>) -> spec_fn(WaitingModel<E>) -> bool {
    |w: WaitingModel<E>| due_at(now, w.2)
}

/// The waiting writes not due at `now`.
pub open spec fn not_due<E>(now: Option<u64>) -> spec_fn(WaitingModel<E>) -> bool {
    |w: WaitingModel<E>| !due_at(now, w.2)
}

/// The index of the waiting write for `path`, if any.
pub open spec fn index_of<E>(w: Seq<WaitingModel<E>>, path: Seq<char>) -> Option<int> {
    if exists|k: int| 0 <= k < w.len() && #[trigger] w[k].0 == path {
        Some(choose|k: int| 0 <= k < w.len() && #[trigger] w[k].0 == path)
    } else {
        None
    }
}

/// The waiting writes with `(path, item, deadline, attempts)` put in: in
/// place of the one for `path`, or added.
pub open spec fn put<E>(w: Seq<WaitingModel<E>>, entry: WaitingModel<E>) -> Seq<WaitingModel<E>> {
    match index_of(w, entry.0) {
        Some(k) => w.update(k, entry),
        None => w.push(entry),
    }
}

/// Whether no two waiting writes are for one path.
pub open spec fn one_per_path<E>(w: Seq<WaitingModel<E>>) -> bool {
    forall|a: int, b: int| 0 <= a < b < w.len() ==> w[a].0 != w[b].0
}

/// `deadline` moved on by `delay_secs` seconds, at most to `u64::MAX`.
pub open spec fn later(deadline: u64, delay_secs: u64) -> u64 {
    if deadline + delay_secs * 1000 > u64::MAX {
        u64::MAX
    } else {
        (deadline + delay_secs * 1000) as u64
    }
}

/// How long until `deadline`, at `now`: nothing once it has passed.
pub open spec fn wait_until(now: u64, deadline: u64) -> u64 {
    if deadline > now {
        (deadline - now) as u64
    } else {
        0
    }
}

/// One write waiting in the queue.
pub struct Waiting<E> {
    pub path: String,
    pub item: E,
    pub deadline: u64,
    pub attempts: u32,
}

/// The waiting writes, in the abstract.
pub open spec fn waiting_models<E>(v: Seq<Waiting<E>>) -> Seq<WaitingModel<E>> {
    v.map_values(|w: Waiting<E>| (w.path@, w.item, w.deadline, w.attempts))
}

/// The writer's queue, keyed by path.
pub struct WriteQueue<E> {
    entries: Vec<Waiting<E>>,
}

impl<E> WriteQueue<E> {
    /// The waiting writes.
    pub closed spec fn waiting(&self) -> Seq<WaitingModel<E>> {
        waiting_models(self.entries@)
    }

    #[verifier::type_invariant]
    closed spec fn well_formed(&self) -> bool {
        one_per_path(self.waiting())
    }

    /// An empty queue.
    pub fn new() -> (r: WriteQueue<E>)
        ensures
            r.waiting() == Seq::<WaitingModel<E>>::empty(),
    {
        let r = WriteQueue { entries: Vec::new() };
        assert(r.waiting() =~= Seq::<WaitingModel<E>>::empty());
        r
    }

    /// Whether nothing waits.
    pub fn is_empty(&self) -> (r: bool)
        ensures
            r == (self.waiting().len() == 0),
    {
        self.entries.len() == 0
    }

    /// Put `entry` in, replacing the write waiting for its path.
    fn put_entry(&mut self, entry: Waiting<E>)
        ensures
            final(self).waiting() == put(
                old(self).waiting(),
                (entry.path@, entry.item, entry.deadline, entry.attempts),
            ),
    {
        proof {
            use_type_invariant(&*self);
        }
        let ghost w = self.waiting();
        let ghost e = (entry.path@, entry.item, entry.deadline, entry.attempts);
        let mut i: usize = 0;
        while i < self.entries.len()
            invariant
                i <= self.entries@.len(),
                w == waiting_models(self.entries@),
                one_per_path(w),
                w == old(self).waiting(),
                e == (entry.path@, entry.item, entry.deadline, entry.attempts),
                forall|k: int| 0 <= k < i ==> #[trigger] w[k].0 != entry.path@,
            decreases self.entries@.len() - i,
        {
            if same_str(self.entries[i].path.as_str(), entry.path.as_str()) {
                assert(w[i as int].0 == entry.path@);
                assert(index_of(w, entry.path@) == Some(i as int)) by {
                    let k = choose|k: int| 0 <= k < w.len() && #[trigger] w[k].0 == entry.path@;
                    if k != i as int {
                        if k < i {
                            assert(w[k].0 != entry.path@);
                        } else {
                            assert(w[i as int].0 != w[k].0);
                        }
                    }
                }
                let mut entries: Vec<Waiting<E>> = Vec::new();
                std::mem::swap(&mut entries, &mut self.entries);
                let ghost before = entries@;
                assert(waiting_models(before) == w);
                entries.set(i, entry);
                assert(entries@ == before.update(i as int, entry));
                assert forall|j: int| 0 <= j < w.len() implies #[trigger] waiting_models(entries@)[j]
                    == w.update(i as int, e)[j] by {
                    assert(entries@.len() == before.len());
                    if j != i {
                        assert(entries@[j] == before[j]);
                        assert(waiting_models(entries@)[j] == waiting_models(before)[j]);
                        assert(w.update(i as int, e)[j] == w[j]);
                    } else {
                        assert(entries@[j] == entry);
                        assert(waiting_models(entries@)[j] == (entries@[j].path@, entries@[j].item,
                            entries@[j].deadline, entries@[j].attempts));
                        assert(w.update(i as int, e)[j] == e);
                        assert(e == (entry.path@, entry.item, entry.deadline, entry.attempts));
                    }
                }
                assert(waiting_models(entries@) =~= w.update(i as int, e));
                assert(one_per_path(w.update(i as int, e))) by {
                    assert forall|a: int, b: int|
                        0 <= a < b < w.len() implies w.update(i as int, e)[a].0 != w.update(
                            i as int,
                            e,
                        )[b].0 by {
                        assert(w[a].0 != w[b].0);
                    }
                }
                self.entries = entries;
                return;
            }
            i = i + 1;
        }
        assert(index_of(w, entry.path@) is None);
        let mut entries: Vec<Waiting<E>> = Vec::new();
        std::mem::swap(&mut entries, &mut self.entries);
        entries.push(entry);
        assert(waiting_models(entries@) =~= w.push(e));
        assert(one_per_path(w.push(e))) by {
            assert forall|a: int, b: int| 0 <= a < b < w.len() + 1 implies w.push(e)[a].0 != w.push(
                e,
            )[b].0 by {
                if b < w.len() {
                    assert(w[a].0 != w[b].0);
                } else {
                    assert(w[a].0 != entry.path@);
                }
            }
        }
        self.entries = entries;
    }

    /// Queue a write of `item` for `path`, due at `deadline`, in place of
    /// the one waiting for that path: a later update of a path wins, and
    /// its attempts start again.
    pub fn set(&mut self, path: String, item: E, deadline: u64)
        ensures
            final(self).waiting() == put(old(self).waiting(), (path@, item, deadline, 0u32)),
    {
        self.put_entry(Waiting { path, item, deadline, attempts: 0 });
    }

    /// Take out the writes due at `now` (all of them in a drain, `now`
    /// being `None`), in queue order; the others keep waiting.
    pub fn take_due(&mut self, now: Option<u64>) -> (r: Vec<Waiting<E>>)
        ensures
            waiting_models(r@) == old(self).waiting().filter(is_due::<E>(now)),
            final(self).waiting() == old(self).waiting().filter(not_due::<E>(now)),
    {
        proof {
            use_type_invariant(&*self);
        }
        let ghost w = self.waiting();
        let ghost f = is_due::<E>(now);
        let ghost g = not_due::<E>(now);
        let mut rest: Vec<Waiting<E>> = Vec::new();
        std::mem::swap(&mut rest, &mut self.entries);
        let mut due: Vec<Waiting<E>> = Vec::new();
        let mut kept: Vec<Waiting<E>> = Vec::new();
        let ghost mut k: int = 0;
        proof {
            assert(w.take(0) =~= Seq::<WaitingModel<E>>::empty());
            w.take(0).lemma_filter_len(f);
            w.take(0).lemma_filter_len(g);
            assert(waiting_models(rest@) =~= w.skip(0));
            assert(waiting_models(due@) =~= w.take(0).filter(f));
            assert(waiting_models(kept@) =~= w.take(0).filter(g));
        }
        while rest.len() > 0
            invariant
                0 <= k <= w.len(),
                waiting_models(rest@) == w.skip(k),
                waiting_models(due@) == w.take(k).filter(f),
                waiting_models(kept@) == w.take(k).filter(g),
                f == is_due::<E>(now),
                g == not_due::<E>(now),
                one_per_path(w),
            decreases rest@.len(),
        {
            let ghost before = rest@;
            assert(waiting_models(before).len() == before.len());
            assert(k < w.len());
            let e = rest.remove(0);
            let ghost m = (e.path@, e.item, e.deadline, e.attempts);
            proof {
                assert(before[0] == e);
                assert(waiting_models(before)[0] == m);
                assert(w.skip(k)[0] == m);
                assert(w[k] == m);
                assert(w.take(k + 1) =~= w.take(k).push(m));
                w.take(k).lemma_filter_push(m, f);
                w.take(k).lemma_filter_push(m, g);
                assert(rest@ == before.subrange(1, before.len() as int));
                assert forall|j: int| 0 <= j < rest@.len() implies #[trigger] waiting_models(
                    rest@,
                )[j] == w.skip(k + 1)[j] by {
                    assert(rest@[j] == before[j + 1]);
                    assert(waiting_models(before)[j + 1] == w.skip(k)[j + 1]);
                }
                assert(waiting_models(rest@) =~= w.skip(k + 1));
            }
            let is_due_now = match now {
                Some(t) => t >= e.deadline,
                None => true,
            };
            if is_due_now {
                let ghost before = waiting_models(due@);
                due.push(e);
                assert(waiting_models(due@) =~= before.push(m));
            } else {
                let ghost before = waiting_models(kept@);
                kept.push(e);
                assert(waiting_models(kept@) =~= before.push(m));
            }
            proof {
                k = k + 1;
            }
        }
        proof {
            assert(w.take(k) =~= w);
            assert forall|a: int, b: int|
                0 <= a < b < waiting_models(kept@).len() implies waiting_models(kept@)[a].0
                != waiting_models(kept@)[b].0 by {
                lemma_filter_keeps_one_per_path(w, g, a, b);
            }
        }
        self.entries = kept;
        due
    }

    /// Requeue a write of `item` for `path` whose `attempts`-th attempt
    /// failed at `now`, after the delay `retry_after` gives (in seconds),
    /// and hand that delay back; with none (a drain, or the retries used
    /// up) the write is dropped and the queue left as it is.
    pub fn retry(&mut self, path: String, item: E, attempts: u32, now: u64, draining: bool) -> (r:
        Option<u64>)
        ensures
            r == retry_after_of(attempts, draining),
            match r {
                Some(d) => final(self).waiting() == put(
                    old(self).waiting(),
                    (path@, item, later(now, d), attempts),
                ),
                None => final(self).waiting() == old(self).waiting(),
            },
    {
        let delay = retry_after(attempts, draining);
        match delay {
            Some(d) => {
                let deadline = if d > (u64::MAX - now) / 1000 {
                    u64::MAX
                } else {
                    now + d * 1000
                };
                assert(deadline == later(now, d)) by (nonlinear_arith)
                    requires
                        deadline == (if d > (u64::MAX - now) / 1000 {
                            u64::MAX as int
                        } else {
                            now + d * 1000
                        }),
                        now <= u64::MAX,
                ;
                self.put_entry(Waiting { path, item, deadline, attempts });
            },
            None => {},
        }
        delay
    }

    /// How long until the first waiting write is due, at `now`: none when
    /// nothing waits.
    pub fn next_wait(&self, now: u64) -> (r: Option<u64>)
        ensures
            self.waiting().len() == 0 <==> r is None,
            r matches Some(t) ==> (exists|k: int|
                0 <= k < self.waiting().len() && t == wait_until(now, #[trigger] self.waiting()[k].2))
                && forall|k: int|
                0 <= k < self.waiting().len() ==> t <= wait_until(
                    now,
                    #[trigger] self.waiting()[k].2,
                ),
    {
        let ghost w = self.waiting();
        if self.entries.len() == 0 {
            return None;
        }
        let mut best: u64 = if self.entries[0].deadline > now {
            self.entries[0].deadline - now
        } else {
            0
        };
        assert(best == wait_until(now, w[0].2));
        let mut i: usize = 1;
        while i < self.entries.len()
            invariant
                1 <= i <= self.entries@.len(),
                w == waiting_models(self.entries@),
                exists|k: int| 0 <= k < i && best == wait_until(now, #[trigger] w[k].2),
                forall|k: int| 0 <= k < i ==> best <= wait_until(now, #[trigger] w[k].2),
            decreases self.entries@.len() - i,
        {
            let d = self.entries[i].deadline;
            let wait = if d > now {
                d - now
            } else {
                0
            };
            assert(wait == wait_until(now, w[i as int].2));
            if wait < best {
                best = wait;
            }
            i = i + 1;
        }
        Some(best)
    }
}

/// Two kept writes are for different paths when all writes were.
proof fn lemma_filter_keeps_one_per_path<E>(
    w: Seq<WaitingModel<E>>,
    g: spec_fn(WaitingModel<E>) -> bool,
    a: int,
    b: int,
)
    requires
        one_per_path(w),
        0 <= a < b < w.filter(g).len(),
    ensures
        w.filter(g)[a].0 != w.filter(g)[b].0,
    decreases w.len(),
{
    let p = w.drop_last();
    assert(p.push(w.last()) =~= w);
    p.lemma_filter_push(w.last(), g);
    assert(one_per_path(p)) by {
        assert forall|x: int, y: int| 0 <= x < y < p.len() implies p[x].0 != p[y].0 by {
            assert(w[x].0 != w[y].0);
        }
    }
    p.lemma_filter_len(g);
    if b < p.filter(g).len() {
        lemma_filter_keeps_one_per_path(p, g, a, b);
    } else {
        assert(g(w.last()));
        assert(w.filter(g)[b] == w.last());
        assert(w.filter(g)[a] == p.filter(g)[a]);
        assert(p.filter(g).contains(p.filter(g)[a]));
        p.lemma_filter_contains_rev(g, p.filter(g)[a]);
        let x = choose|x: int| 0 <= x < p.len() && p[x] == p.filter(g)[a];
        assert(w[x] == p[x]);
        assert(w[x].0 != w[w.len() - 1].0);
    }
}

} // verus!
