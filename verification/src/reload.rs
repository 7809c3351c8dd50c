//! What the stored overrides give back: the `shortcuts` setting written by
//! `Keymap::overrides` and read by `Keymap::from_overrides`.

use vstd::prelude::*;

use crate::keymap::{
    action_count, binds_no_key_twice, candidate, candidates, changed, default_bindings,
    distinct_actions, forbidden_reason, free, held_elsewhere, in_range, lookup, modifier_only,
    names_a_key, not_overridden, overridden, overrides_model, parsed_keys, pass, resolved, settle,
    sound, stashed, BindingModel, Name,
};
use crate::order::lemma_filter_one;

verus! {

/// A stored override's keys: a list whose items are all strings.
pub open spec fn stored_keys(keys: Seq<Name>) -> Option<Seq<Option<Name>>> {
    Some(keys.map_values(|k: Name| Some(k)))
}

/// A list of bindings as the `shortcuts` setting stores it: each action
/// with its keys.
pub open spec fn stored_form(o: Seq<BindingModel>) -> Seq<(Name, Option<Seq<Option<Name>>>)> {
    o.map_values(|e: BindingModel| (e.0, stored_keys(e.1)))
}

/// Every bound key reads back as it is stored: none is empty and none is a
/// lone modifier (both are dropped when the setting is read).
pub open spec fn keys_load_back(t: Seq<BindingModel>) -> bool {
    forall|i: int, k: Name|
        0 <= i < t.len() && #[trigger] t[i].1.contains(k) ==> k.len() > 0 && !modifier_only(k)
}

/// The action at `i` is rebound and holds a default key of the action at
/// `j`, which is rebound too.
pub open spec fn takes_default_of(t: Seq<BindingModel>, d: Seq<BindingModel>, i: int, j: int) -> bool {
    &&& i != j
    &&& t[i].1 != d[i].1
    &&& t[j].1 != d[j].1
    &&& exists|k: Name| #[trigger] t[i].1.contains(k) && d[j].1.contains(k)
}

/// `rank` falls along every rebound action that takes a rebound action's
/// default key.
pub open spec fn ranked_by(t: Seq<BindingModel>, d: Seq<BindingModel>, rank: spec_fn(int) -> nat) -> bool {
    forall|i: int, j: int|
        0 <= i < t.len() && 0 <= j < t.len() && #[trigger] takes_default_of(t, d, i, j) ==> rank(j)
            < rank(i)
}

/// No rebound actions take each other's default keys in a cycle (one action
/// taking the next one's default key, and the last the first's): the
/// rebound actions can be ranked so that each takes default keys only of
/// lower-ranked ones.
pub open spec fn no_circular_takes(t: Seq<BindingModel>, macos: bool) -> bool {
    exists|rank: spec_fn(int) -> nat| ranked_by(t, default_bindings(macos), rank)
}

/// Whether an override for the action at `i` is pending.
pub open spec fn waiting(p: Seq<(int, Seq<Name>)>, i: int) -> bool {
    exists|k: int| 0 <= k < p.len() && #[trigger] p[k].0 == i
}

/// Some of `keys` is held, both by default and in `t`, by an action other
/// than the one at `j`: an override of `j` with these keys stays skipped
/// however far the reading has got.
pub open spec fn held_throughout(t: Seq<BindingModel>, d: Seq<BindingModel>, j: int, keys: Seq<Name>) -> bool {
    exists|m: int, k: Name|
        0 <= m < t.len() && d[m].0 != d[j].0 && keys.contains(k) && #[trigger] d[m].1.contains(k)
            && #[trigger] t[m].1.contains(k)
}

/// The skipped overrides kept for the first `n` actions, in action order:
/// `kept[j]` holds the keys kept for the action at `j`, if any.
pub open spec fn kept_stash(kept: Seq<Option<Seq<Name>>>, macos: bool, n: int) -> Seq<BindingModel>
    decreases n,
{
    if n <= 0 {
        Seq::empty()
    } else {
        kept_stash(kept, macos, n - 1) + match kept[n - 1] {
            Some(keys) => seq![(default_bindings(macos)[n - 1].0, keys)],
            None => Seq::empty(),
        }
    }
}

/// The same skipped overrides as pending overrides.
pub open spec fn kept_pending(kept: Seq<Option<Seq<Name>>>, n: int) -> Seq<(int, Seq<Name>)>
    decreases n,
{
    if n <= 0 {
        Seq::empty()
    } else {
        kept_pending(kept, n - 1) + match kept[n - 1] {
            Some(keys) => seq![(n - 1, keys)],
            None => Seq::empty(),
        }
    }
}

/// The kept skipped overrides are as reading the stored setting keeps
/// them: only for actions with their default keys, each a non-empty list of
/// keys that read back as stored and are not forbidden, and each held up by
/// a key that another action holds both by default and in `t`.
pub open spec fn keeps_skipping(t: Seq<BindingModel>, kept: Seq<Option<Seq<Name>>>, macos: bool) -> bool {
    let d = default_bindings(macos);
    &&& kept.len() == t.len()
    &&& forall|j: int|
        0 <= j < kept.len() && #[trigger] kept[j] is Some ==> {
            let keys = kept[j]->0;
            &&& t[j].1 == d[j].1
            &&& keys.len() > 0
            &&& forall|k: Name|
                #[trigger] keys.contains(k) ==> k.len() > 0 && !modifier_only(k) && forbidden_reason(
                    k,
                    macos,
                ) is None
            &&& held_throughout(t, d, j, keys)
        }
}

/// A pending override of an action whose keys in `t` are the default ones.
pub open spec fn at_default(t: Seq<BindingModel>, d: Seq<BindingModel>) -> spec_fn(
    (int, Seq<Name>),
) -> bool {
    |e: (int, Seq<Name>)| t[e.0].1 == d[e.0].1
}

/// Reading the stored overrides of `t` has reached `b` with `p` pending:
/// a pending override of a rebound action holds its keys in `t` and its
/// binding still has the default keys; one of an action with its default
/// keys stays skipped; every other binding is as in `t`; and the pending
/// overrides of actions with their default keys are `s`, in order.
pub open spec fn reloading(
    t: Seq<BindingModel>,
    d: Seq<BindingModel>,
    b: Seq<BindingModel>,
    p: Seq<(int, Seq<Name>)>,
    s: Seq<(int, Seq<Name>)>,
) -> bool {
    &&& b.len() == t.len()
    &&& d.len() == t.len()
    &&& forall|i: int| 0 <= i < t.len() ==> #[trigger] b[i].0 == t[i].0 && d[i].0 == t[i].0
    &&& forall|k: int|
        0 <= k < p.len() ==> {
            let i = (#[trigger] p[k]).0;
            &&& 0 <= i < t.len()
            &&& if t[i].1 != d[i].1 {
                p[k].1 == t[i].1 && b[i] == d[i]
            } else {
                held_throughout(t, d, i, p[k].1)
            }
        }
    &&& forall|i: int|
        0 <= i < t.len() && !(waiting(p, i) && t[i].1 != d[i].1) ==> #[trigger] b[i] == t[i]
    &&& distinct_actions(p)
    &&& p.filter(at_default(t, d)) == s
}

/// The default actions have distinct names.
proof fn lemma_default_names_distinct(macos: bool)
    ensures
        forall|i: int, j: int|
            0 <= i < j < action_count() ==> #[trigger] default_bindings(macos)[i].0
                != #[trigger] default_bindings(macos)[j].0,
{
    reveal_strlit("previous");
    reveal_strlit("next");
    reveal_strlit("burstPrevious");
    reveal_strlit("burstNext");
    reveal_strlit("burstFramePrevious");
    reveal_strlit("burstFrameNext");
    reveal_strlit("extendPrevious");
    reveal_strlit("extendNext");
    reveal_strlit("open");
    reveal_strlit("photolab");
    reveal_strlit("undo");
    reveal_strlit("redo");
    reveal_strlit("focus");
    reveal_strlit("zoom");
    reveal_strlit("grayscale");
    reveal_strlit("compare");
    reveal_strlit("rate1");
    reveal_strlit("rate2");
    reveal_strlit("rate3");
    reveal_strlit("rate4");
    reveal_strlit("rate5");
    reveal_strlit("reject");
    reveal_strlit("rejectRest");
    reveal_strlit("pick");
    reveal_strlit("unflag");
    reveal_strlit("clear");
    reveal_strlit("red");
    reveal_strlit("orange");
    reveal_strlit("yellow");
    reveal_strlit("green");
    reveal_strlit("blue");
    reveal_strlit("pink");
    reveal_strlit("purple");
    reveal_strlit("clearlabel");
    reveal_strlit("clearall");
    assert("previous"@.len() == 8 && "previous"@[0] == 'p' && "previous"@[1] == 'r');
    assert("next"@.len() == 4 && "next"@[0] == 'n' && "next"@[2] == 'x');
    assert("burstPrevious"@.len() == 13);
    assert("burstNext"@.len() == 9 && "burstNext"@[0] == 'b');
    assert("burstFramePrevious"@.len() == 18);
    assert("burstFrameNext"@.len() == 14 && "burstFrameNext"@[0] == 'b');
    assert("extendPrevious"@.len() == 14 && "extendPrevious"@[0] == 'e');
    assert("extendNext"@.len() == 10 && "extendNext"@[0] == 'e');
    assert("open"@.len() == 4 && "open"@[0] == 'o' && "open"@[2] == 'e');
    assert("photolab"@.len() == 8 && "photolab"@[0] == 'p' && "photolab"@[1] == 'h');
    assert("undo"@.len() == 4 && "undo"@[0] == 'u' && "undo"@[2] == 'd');
    assert("redo"@.len() == 4 && "redo"@[0] == 'r' && "redo"@[2] == 'd');
    assert("focus"@.len() == 5 && "focus"@[0] == 'f' && "focus"@[4] == 's');
    assert("zoom"@.len() == 4 && "zoom"@[0] == 'z' && "zoom"@[2] == 'o');
    assert("grayscale"@.len() == 9 && "grayscale"@[0] == 'g');
    assert("compare"@.len() == 7);
    assert("rate1"@.len() == 5 && "rate1"@[0] == 'r' && "rate1"@[4] == '1');
    assert("rate2"@.len() == 5 && "rate2"@[0] == 'r' && "rate2"@[4] == '2');
    assert("rate3"@.len() == 5 && "rate3"@[0] == 'r' && "rate3"@[4] == '3');
    assert("rate4"@.len() == 5 && "rate4"@[0] == 'r' && "rate4"@[4] == '4');
    assert("rate5"@.len() == 5 && "rate5"@[0] == 'r' && "rate5"@[4] == '5');
    assert("reject"@.len() == 6 && "reject"@[0] == 'r');
    assert("rejectRest"@.len() == 10 && "rejectRest"@[0] == 'r');
    assert("pick"@.len() == 4 && "pick"@[0] == 'p' && "pick"@[2] == 'c');
    assert("unflag"@.len() == 6 && "unflag"@[0] == 'u');
    assert("clear"@.len() == 5 && "clear"@[0] == 'c' && "clear"@[4] == 'r');
    assert("red"@.len() == 3);
    assert("orange"@.len() == 6 && "orange"@[0] == 'o');
    assert("yellow"@.len() == 6 && "yellow"@[0] == 'y');
    assert("green"@.len() == 5 && "green"@[0] == 'g' && "green"@[4] == 'n');
    assert("blue"@.len() == 4 && "blue"@[0] == 'b' && "blue"@[2] == 'u');
    assert("pink"@.len() == 4 && "pink"@[0] == 'p' && "pink"@[2] == 'n');
    assert("purple"@.len() == 6 && "purple"@[0] == 'p');
    assert("clearlabel"@.len() == 10 && "clearlabel"@[0] == 'c');
    assert("clearall"@.len() == 8 && "clearall"@[0] == 'c');
}

/// Filtering by a predicate that every item meets keeps them all.
proof fn lemma_filter_all<A>(s: Seq<A>, f: spec_fn(A) -> bool)
    requires
        forall|i: int| 0 <= i < s.len() ==> f(#[trigger] s[i]),
    ensures
        s.filter(f) == s,
    decreases s.len(),
{
    if s.len() > 0 {
        let p = s.drop_last();
        assert forall|i: int| 0 <= i < p.len() implies f(#[trigger] p[i]) by {
            assert(p[i] == s[i]);
        }
        lemma_filter_all(p, f);
        p.lemma_filter_push(s.last(), f);
        assert(p.push(s.last()) =~= s);
    }
}

/// Keys stored as they are read back as they are.
proof fn lemma_parsed_stored(keys: Seq<Name>)
    requires
        keys.len() > 0,
        forall|k: Name| #[trigger] keys.contains(k) ==> k.len() > 0 && !modifier_only(k),
    ensures
        parsed_keys(stored_keys(keys)) == Some(keys),
{
    let list = keys.map_values(|k: Name| Some(k));
    assert forall|i: int| 0 <= i < list.len() implies !(#[trigger] list[i] is None || list[i]->0.len()
        == 0) by {
        assert(keys.contains(keys[i]));
    }
    let read = list.map_values(|o: Option<Name>| o->0);
    assert(read =~= keys);
    assert forall|i: int| 0 <= i < keys.len() implies names_a_key()(#[trigger] keys[i]) by {
        assert(keys.contains(keys[i]));
    }
    lemma_filter_all(keys, names_a_key());
}

/// Looking a name up in two lists looks in the second only when the first
/// has no entry of that name.
proof fn lemma_lookup_append<V>(x: Seq<(Name, V)>, y: Seq<(Name, V)>, name: Name)
    ensures
        lookup(x + y, name) == match lookup(x, name) {
            Some(v) => Some(v),
            None => lookup(y, name),
        },
    decreases y.len(),
{
    if y.len() == 0 {
        assert(x + y =~= x);
    } else {
        lemma_lookup_append(x, y.drop_last(), name);
        assert((x + y).drop_last() =~= x + y.drop_last());
        assert((x + y).last() == y.last());
    }
}

/// Looking an action up in the stored changed bindings finds its keys when
/// it is rebound.
proof fn lemma_lookup_changed(t: Seq<BindingModel>, macos: bool, n: int, i: int)
    requires
        t.len() == action_count(),
        forall|j: int| 0 <= j < t.len() ==> #[trigger] t[j].0 == default_bindings(macos)[j].0,
        0 <= n <= action_count(),
        0 <= i < action_count(),
    ensures
        lookup(stored_form(changed(t, default_bindings(macos), n)), default_bindings(macos)[i].0)
            == if i < n && t[i].1 != default_bindings(macos)[i].1 {
            Some(stored_keys(t[i].1))
        } else {
            None
        },
    decreases n,
{
    let d = default_bindings(macos);
    lemma_default_names_distinct(macos);
    if n == 0 {
        assert(stored_form(changed(t, d, 0)) =~= Seq::empty());
    } else {
        lemma_lookup_changed(t, macos, n - 1, i);
        let c0 = changed(t, d, n - 1);
        let c = changed(t, d, n);
        if t[n - 1].1 != d[n - 1].1 {
            assert(c == c0 + seq![t[n - 1]]);
            let e = stored_form(c);
            assert(e.drop_last() =~= stored_form(c0));
            assert(e.last() == (t[n - 1].0, stored_keys(t[n - 1].1)));
            if i != n - 1 {
                if i < n - 1 {
                    assert(d[i].0 != d[n - 1].0);
                } else {
                    assert(d[n - 1].0 != d[i].0);
                }
            }
        } else {
            assert(c =~= c0);
        }
    }
}

/// Looking an action up in the stored skipped overrides finds the keys kept
/// for it.
proof fn lemma_lookup_kept(kept: Seq<Option<Seq<Name>>>, macos: bool, n: int, i: int)
    requires
        kept.len() == action_count(),
        0 <= n <= action_count(),
        0 <= i < action_count(),
    ensures
        lookup(stored_form(kept_stash(kept, macos, n)), default_bindings(macos)[i].0) == if i < n
            && kept[i] is Some {
            Some(stored_keys(kept[i]->0))
        } else {
            None
        },
    decreases n,
{
    let d = default_bindings(macos);
    lemma_default_names_distinct(macos);
    if n == 0 {
        assert(stored_form(kept_stash(kept, macos, 0)) =~= Seq::empty());
    } else {
        lemma_lookup_kept(kept, macos, n - 1, i);
        let c0 = kept_stash(kept, macos, n - 1);
        let c = kept_stash(kept, macos, n);
        if let Some(keys) = kept[n - 1] {
            assert(c == c0 + seq![(d[n - 1].0, keys)]);
            let e = stored_form(c);
            assert(e.drop_last() =~= stored_form(c0));
            assert(e.last() == (d[n - 1].0, stored_keys(keys)));
            if i != n - 1 {
                if i < n - 1 {
                    assert(d[i].0 != d[n - 1].0);
                } else {
                    assert(d[n - 1].0 != d[i].0);
                }
            }
        } else {
            assert(c =~= c0);
        }
    }
}

/// What the stored overrides of `t` with the skipped ones `kept` are read
/// from.
pub open spec fn stored_overrides(t: Seq<BindingModel>, kept: Seq<Option<Seq<Name>>>, macos: bool) -> Seq<
    (Name, Option<Seq<Option<Name>>>),
> {
    stored_form(overrides_model(t, kept_stash(kept, macos, action_count() as int), macos))
}

/// Every skipped override kept is one of an action with its default keys,
/// so none is superseded when the overrides are stored.
proof fn lemma_kept_not_overridden(t: Seq<BindingModel>, kept: Seq<Option<Seq<Name>>>, macos: bool, n: int)
    requires
        t.len() == action_count(),
        forall|j: int| 0 <= j < t.len() ==> #[trigger] t[j].0 == default_bindings(macos)[j].0,
        keeps_skipping(t, kept, macos),
        0 <= n <= action_count(),
    ensures
        forall|k: int|
            0 <= k < kept_stash(kept, macos, n).len() ==> not_overridden(
                t,
                default_bindings(macos),
            )(#[trigger] kept_stash(kept, macos, n)[k]),
    decreases n,
{
    let d = default_bindings(macos);
    if n > 0 {
        lemma_kept_not_overridden(t, kept, macos, n - 1);
        let c0 = kept_stash(kept, macos, n - 1);
        let c = kept_stash(kept, macos, n);
        if let Some(keys) = kept[n - 1] {
            assert(c == c0 + seq![(d[n - 1].0, keys)]);
            lemma_default_names_distinct(macos);
            assert forall|k: int| 0 <= k < c.len() implies not_overridden(t, d)(#[trigger] c[k]) by {
                if k < c0.len() {
                    assert(c[k] == c0[k]);
                } else {
                    assert(c[k] == (d[n - 1].0, keys));
                    assert(kept[n - 1] is Some);
                    if overridden(t, d, d[n - 1].0) {
                        let i = choose|i: int|
                            0 <= i < t.len() && t[i].0 == d[n - 1].0 && #[trigger] t[i].1 != d[i].1;
                        if i < n - 1 {
                            assert(d[i].0 != d[n - 1].0);
                        } else if i > n - 1 {
                            assert(d[n - 1].0 != d[i].0);
                        }
                    }
                }
            }
        } else {
            assert(c =~= c0);
        }
    }
}

/// The stored overrides read back into the same candidates: a rebound
/// action's keys, or the keys kept for an action with its default keys.
proof fn lemma_candidate_reload(t: Seq<BindingModel>, kept: Seq<Option<Seq<Name>>>, macos: bool, i: int)
    requires
        t.len() == action_count(),
        forall|j: int| 0 <= j < t.len() ==> #[trigger] t[j].0 == default_bindings(macos)[j].0,
        sound(t, macos),
        keys_load_back(t),
        keeps_skipping(t, kept, macos),
        0 <= i < action_count(),
    ensures
        candidate(stored_overrides(t, kept, macos), macos, i) == if t[i].1 != default_bindings(
            macos,
        )[i].1 {
            Some(t[i].1)
        } else {
            kept[i]
        },
{
    let d = default_bindings(macos);
    let n = action_count() as int;
    let ks = kept_stash(kept, macos, n);
    lemma_kept_not_overridden(t, kept, macos, n);
    lemma_filter_all(ks, not_overridden(t, d));
    assert(overrides_model(t, ks, macos) == ks + changed(t, d, n));
    assert(stored_form(ks + changed(t, d, n)) =~= stored_form(ks) + stored_form(changed(t, d, n)));
    lemma_lookup_append(stored_form(ks), stored_form(changed(t, d, n)), d[i].0);
    lemma_lookup_kept(kept, macos, n, i);
    lemma_lookup_changed(t, macos, n, i);
    if t[i].1 != d[i].1 {
        if kept[i] is Some {
            assert(t[i].1 == d[i].1);
        }
        assert(t[i].1.len() > 0);
        assert forall|k: Name| #[trigger] t[i].1.contains(k) implies k.len() > 0 && !modifier_only(
            k,
        ) by {}
        lemma_parsed_stored(t[i].1);
        assert forall|k: Name| t[i].1.contains(k) implies !(#[trigger] forbidden_reason(
            k,
            macos,
        ) is Some) by {}
    } else if let Some(keys) = kept[i] {
        lemma_parsed_stored(keys);
        assert forall|k: Name| keys.contains(k) implies !(#[trigger] forbidden_reason(
            k,
            macos,
        ) is Some) by {}
    }
}

/// The candidates read from the stored overrides: for each of the first
/// `n` actions in order, a rebound one's keys or the keys kept for it.
proof fn lemma_candidates_reload(t: Seq<BindingModel>, kept: Seq<Option<Seq<Name>>>, macos: bool, n: int)
    requires
        t.len() == action_count(),
        forall|j: int| 0 <= j < t.len() ==> #[trigger] t[j].0 == default_bindings(macos)[j].0,
        sound(t, macos),
        keys_load_back(t),
        keeps_skipping(t, kept, macos),
        0 <= n <= action_count(),
    ensures
        ({
            let c = candidates(stored_overrides(t, kept, macos), macos, n);
            let d = default_bindings(macos);
            &&& forall|k: int|
                0 <= k < c.len() ==> {
                    let i = (#[trigger] c[k]).0;
                    &&& 0 <= i < n
                    &&& if t[i].1 != d[i].1 {
                        c[k].1 == t[i].1
                    } else {
                        kept[i] == Some(c[k].1)
                    }
                }
            &&& forall|i: int| 0 <= i < n && t[i].1 != d[i].1 ==> waiting(c, i)
            &&& distinct_actions(c)
            &&& c.filter(at_default(t, d)) == kept_pending(kept, n)
        }),
    decreases n,
{
    let d = default_bindings(macos);
    let e = stored_overrides(t, kept, macos);
    let f = at_default(t, d);
    if n == 0 {
        let none = Seq::<(int, Seq<Name>)>::empty();
        none.lemma_filter_len(f);
        assert(candidates(e, macos, 0).filter(f) =~= kept_pending(kept, 0));
    } else {
        lemma_candidates_reload(t, kept, macos, n - 1);
        lemma_candidate_reload(t, kept, macos, n - 1);
        let prev = candidates(e, macos, n - 1);
        let c = candidates(e, macos, n);
        let added = match candidate(e, macos, n - 1) {
            Some(keys) => seq![(n - 1, keys)],
            None => Seq::<(int, Seq<Name>)>::empty(),
        };
        assert(c == prev + added);
        Seq::filter_distributes_over_add(prev, added, f);
        if let Some(keys) = candidate(e, macos, n - 1) {
            lemma_filter_one((n - 1, keys), f);
            if t[n - 1].1 != d[n - 1].1 {
                assert(kept[n - 1] is None);
                assert(kept_pending(kept, n) =~= kept_pending(kept, n - 1));
                assert(c.filter(f) =~= prev.filter(f));
            } else {
                assert(kept_pending(kept, n) == kept_pending(kept, n - 1) + seq![(n - 1, keys)]);
            }
            assert forall|k: int| 0 <= k < c.len() implies {
                let i = (#[trigger] c[k]).0;
                &&& 0 <= i < n
                &&& if t[i].1 != d[i].1 {
                    c[k].1 == t[i].1
                } else {
                    kept[i] == Some(c[k].1)
                }
            } by {
                if k < prev.len() {
                    assert(c[k] == prev[k]);
                }
            }
            assert forall|i: int| 0 <= i < n && t[i].1 != d[i].1 implies waiting(c, i) by {
                if i < n - 1 {
                    assert(waiting(prev, i));
                    let k = choose|k: int| 0 <= k < prev.len() && #[trigger] prev[k].0 == i;
                    assert(c[k] == prev[k]);
                } else {
                    assert(c[prev.len() as int].0 == i);
                }
            }
            assert forall|a: int, b: int| 0 <= a < b < c.len() implies c[a].0 != c[b].0 by {
                assert(c[a] == prev[a]);
                if b < prev.len() {
                    assert(c[b] == prev[b]);
                }
            }
        } else {
            assert(added.filter(f) =~= added) by {
                added.lemma_filter_len(f);
            }
            assert(c =~= prev);
            if t[n - 1].1 == d[n - 1].1 {
                assert(kept[n - 1] is None);
            } else {
                assert(false);
            }
            assert(kept_pending(kept, n) =~= kept_pending(kept, n - 1));
            assert forall|i: int| 0 <= i < n && t[i].1 != d[i].1 implies waiting(c, i) by {
                assert(i < n - 1);
            }
        }
    }
}

/// A pending override whose keys `held_throughout` some other action is
/// never free.
proof fn lemma_held_not_free(
    t: Seq<BindingModel>,
    d: Seq<BindingModel>,
    b: Seq<BindingModel>,
    p: Seq<(int, Seq<Name>)>,
    s: Seq<(int, Seq<Name>)>,
    i: int,
    keys: Seq<Name>,
)
    requires
        reloading(t, d, b, p, s),
        0 <= i < t.len(),
        held_throughout(t, d, i, keys),
    ensures
        !free(b, i, keys),
{
    let (m, k) = choose|m: int, k: Name|
        0 <= m < t.len() && d[m].0 != d[i].0 && keys.contains(k) && #[trigger] d[m].1.contains(k)
            && #[trigger] t[m].1.contains(k);
    if waiting(p, m) && t[m].1 != d[m].1 {
        let x = choose|x: int| 0 <= x < p.len() && #[trigger] p[x].0 == m;
        assert(b[m] == d[m]);
    } else {
        assert(b[m] == t[m]);
    }
    assert(b[m].1.contains(k));
    assert(held_elsewhere(b, b[i].0, k));
}

/// A pass over the pending overrides keeps the reading on course: what it
/// applies becomes as in `t`, what it keeps stays pending in order.
proof fn lemma_reload_pass(
    t: Seq<BindingModel>,
    d: Seq<BindingModel>,
    b: Seq<BindingModel>,
    extra: Seq<(int, Seq<Name>)>,
    p: Seq<(int, Seq<Name>)>,
    s: Seq<(int, Seq<Name>)>,
)
    requires
        reloading(t, d, b, extra + p, s),
    ensures
        reloading(t, d, pass(b, p).0, extra + pass(b, p).1, s),
    decreases p.len(),
{
    if p.len() == 0 {
        assert(pass(b, p) == (b, p));
    } else {
        let q = extra + p;
        let f = at_default(t, d);
        let k0 = extra.len() as int;
        assert(q[k0] == p[0]);
        let (i, keys) = p[0];
        let rest = p.drop_first();
        assert(0 <= i < t.len());
        if free(b, i, keys) {
            if t[i].1 == d[i].1 {
                lemma_held_not_free(t, d, b, q, s, i, keys);
            }
            assert(keys == t[i].1 && b[i] == d[i]);
            let b1 = b.update(i, (b[i].0, keys));
            let q1 = extra + rest;
            assert forall|m: int| 0 <= m < q1.len() implies q1[m] == if m < k0 {
                q[m]
            } else {
                q[m + 1]
            } by {
                if m >= k0 {
                    assert(q1[m] == rest[m - k0]);
                    assert(rest[m - k0] == p[m - k0 + 1]);
                }
            }
            assert forall|m: int| 0 <= m < q1.len() implies (#[trigger] q1[m]).0 != i by {
                if m < k0 {
                    assert(q[m].0 != q[k0].0);
                } else {
                    assert(q[k0].0 != q[m + 1].0);
                }
            }
            assert forall|j: int|
                0 <= j < t.len() && !(waiting(q1, j) && t[j].1 != d[j].1) implies #[trigger] b1[j]
                == t[j] by {
                if j != i && t[j].1 != d[j].1 {
                    if waiting(q, j) {
                        let m = choose|m: int| 0 <= m < q.len() && #[trigger] q[m].0 == j;
                        if m < k0 {
                            assert(q1[m].0 == j);
                        } else if m > k0 {
                            assert(q1[m - 1].0 == j);
                        }
                    }
                }
            }
            assert forall|x: int, y: int| 0 <= x < y < q1.len() implies q1[x].0 != q1[y].0 by {
                if x < k0 && y < k0 {
                    assert(q[x].0 != q[y].0);
                } else if x < k0 {
                    assert(q[x].0 != q[y + 1].0);
                } else {
                    assert(q[x + 1].0 != q[y + 1].0);
                }
            }
            assert forall|m: int| 0 <= m < q1.len() implies {
                let j = (#[trigger] q1[m]).0;
                &&& 0 <= j < t.len()
                &&& if t[j].1 != d[j].1 {
                    q1[m].1 == t[j].1 && b1[j] == d[j]
                } else {
                    held_throughout(t, d, j, q1[m].1)
                }
            } by {
                if m < k0 {
                    assert(q[m] == q1[m]);
                } else {
                    assert(q[m + 1] == q1[m]);
                }
            }
            assert(p =~= seq![p[0]] + rest);
            Seq::filter_distributes_over_add(extra, p, f);
            Seq::filter_distributes_over_add(seq![p[0]], rest, f);
            Seq::filter_distributes_over_add(extra, rest, f);
            lemma_filter_one(p[0], f);
            assert(seq![p[0]].filter(f) + rest.filter(f) =~= rest.filter(f));
            assert(reloading(t, d, b1, q1, s));
            lemma_reload_pass(t, d, b1, extra, rest, s);
        } else {
            let extra2 = extra.push(p[0]);
            assert(extra2 + rest =~= q);
            lemma_reload_pass(t, d, b, extra2, rest, s);
            let r2 = pass(b, rest).1;
            assert(extra + (seq![p[0]] + r2) =~= extra2 + r2);
        }
    }
}

/// Whether a pending override is of a rebound action.
pub open spec fn rebound(t: Seq<BindingModel>, d: Seq<BindingModel>) -> spec_fn((int, Seq<Name>)) -> bool {
    |e: (int, Seq<Name>)| t[e.0].1 != d[e.0].1
}

/// Among the pending overrides meeting `f`, one of lowest rank.
proof fn lemma_lowest(
    p: Seq<(int, Seq<Name>)>,
    f: spec_fn((int, Seq<Name>)) -> bool,
    rank: spec_fn(int) -> nat,
) -> (k: int)
    requires
        exists|m: int| 0 <= m < p.len() && f(#[trigger] p[m]),
    ensures
        0 <= k < p.len(),
        f(p[k]),
        forall|m: int| 0 <= m < p.len() && f(#[trigger] p[m]) ==> rank(p[k].0) <= rank(p[m].0),
    decreases p.len(),
{
    let rest = p.drop_first();
    assert forall|m: int| 0 < m < p.len() implies p[m] == rest[m - 1] by {}
    if exists|m: int| 0 <= m < rest.len() && f(#[trigger] rest[m]) {
        let k1 = lemma_lowest(rest, f, rank);
        if f(p[0]) && rank(p[0].0) <= rank(rest[k1].0) {
            assert forall|m: int| 0 <= m < p.len() && f(#[trigger] p[m]) implies rank(p[0].0) <= rank(
                p[m].0,
            ) by {
                if m > 0 {
                    assert(p[m] == rest[m - 1]);
                }
            }
            0
        } else {
            assert forall|m: int| 0 <= m < p.len() && f(#[trigger] p[m]) implies rank(p[k1 + 1].0)
                <= rank(p[m].0) by {
                if m > 0 {
                    assert(p[m] == rest[m - 1]);
                }
            }
            k1 + 1
        }
    } else {
        let m0 = choose|m: int| 0 <= m < p.len() && f(#[trigger] p[m]);
        if m0 > 0 {
            assert(f(rest[m0 - 1]));
        }
        assert forall|m: int| 0 <= m < p.len() && f(#[trigger] p[m]) implies m == 0 by {
            if m > 0 {
                assert(f(rest[m - 1]));
            }
        }
        0
    }
}

/// Reading on course with no cycle of taken default keys ends at `t`, with
/// the skipped overrides `s` left over.
proof fn lemma_reload_settle(
    t: Seq<BindingModel>,
    d: Seq<BindingModel>,
    b: Seq<BindingModel>,
    p: Seq<(int, Seq<Name>)>,
    s: Seq<(int, Seq<Name>)>,
    rank: spec_fn(int) -> nat,
)
    requires
        reloading(t, d, b, p, s),
        ranked_by(t, d, rank),
        binds_no_key_twice(t),
    ensures
        settle(b, p) == (t, s),
    decreases p.len(),
{
    assert(in_range(p, b.len() as int));
    crate::keymap::lemma_pass_shape(b, p);
    assert(Seq::<(int, Seq<Name>)>::empty() + p =~= p);
    lemma_reload_pass(t, d, b, Seq::empty(), p, s);
    let (b2, rest) = pass(b, p);
    assert(Seq::<(int, Seq<Name>)>::empty() + rest =~= rest);
    if rest.len() < p.len() {
        lemma_reload_settle(t, d, b2, rest, s, rank);
    } else {
        let g = rebound(t, d);
        if exists|m: int| 0 <= m < p.len() && g(#[trigger] p[m]) {
            let k = lemma_lowest(p, g, rank);
            let i = p[k].0;
            let keys = p[k].1;
            assert forall|kk: Name| keys.contains(kk) implies !held_elsewhere(b, b[i].0, kk) by {
                if held_elsewhere(b, b[i].0, kk) {
                    let j = choose|j: int|
                        0 <= j < b.len() && b[j].0 != b[i].0 && #[trigger] b[j].1.contains(kk);
                    assert(t[i].1.contains(kk));
                    if waiting(p, j) && t[j].1 != d[j].1 {
                        let m = choose|m: int| 0 <= m < p.len() && #[trigger] p[m].0 == j;
                        assert(b[j] == d[j]);
                        assert(takes_default_of(t, d, i, j));
                        assert(g(p[m]));
                        assert(rank(p[k].0) <= rank(p[m].0));
                    } else {
                        assert(b[j] == t[j]);
                        assert(t[i].1.contains(kk) ==> !t[j].1.contains(kk));
                    }
                }
            }
            assert(free(b, i, keys));
            assert(false);
        }
        let f = at_default(t, d);
        assert forall|m: int| 0 <= m < p.len() implies f(#[trigger] p[m]) by {
            assert(!g(p[m]));
        }
        lemma_filter_all(p, f);
        assert forall|i: int| 0 <= i < t.len() implies b[i] == t[i] by {
            if waiting(p, i) && t[i].1 != d[i].1 {
                let m = choose|m: int| 0 <= m < p.len() && #[trigger] p[m].0 == i;
                assert(!g(p[m]));
            }
        }
        assert(b =~= t);
        assert(settle(b, p) == (b2, rest));
    }
}

/// The kept skipped overrides, stashed, are the stash they were kept from.
proof fn lemma_stashed_kept(t: Seq<BindingModel>, kept: Seq<Option<Seq<Name>>>, macos: bool, n: int)
    requires
        t.len() == action_count(),
        forall|j: int| 0 <= j < t.len() ==> #[trigger] t[j].0 == default_bindings(macos)[j].0,
        kept.len() == action_count(),
        0 <= n <= action_count(),
    ensures
        stashed(t, kept_pending(kept, n)) == kept_stash(kept, macos, n),
    decreases n,
{
    if n == 0 {
        assert(stashed(t, kept_pending(kept, 0)) =~= kept_stash(kept, macos, 0));
    } else {
        lemma_stashed_kept(t, kept, macos, n - 1);
        let p0 = kept_pending(kept, n - 1);
        let p = kept_pending(kept, n);
        assert(stashed(t, p).len() == p.len());
        if let Some(keys) = kept[n - 1] {
            assert(p == p0 + seq![(n - 1, keys)]);
            assert(stashed(t, p) =~= stashed(t, p0) + seq![(t[n - 1].0, keys)]);
        } else {
            assert(p =~= p0);
        }
    }
}

/// Storing a keymap's overrides and reading them back gives the keymap
/// again: every binding as it was and the same skipped overrides kept. This
/// holds of a sound keymap whose keys all read back as they are stored,
/// whose skipped overrides (one at most per action, in action order, each
/// for an action with its default keys) are still held up by an action that
/// holds one of their keys both by default and now, as long as no rebound
/// actions take each other's default keys in a cycle.
pub proof fn law_stored_overrides_load_back(
    t: Seq<BindingModel>,
    kept: Seq<Option<Seq<Name>>>,
    macos: bool,
)
    requires
        t.len() == action_count(),
        forall|i: int| 0 <= i < t.len() ==> #[trigger] t[i].0 == default_bindings(macos)[i].0,
        sound(t, macos),
        keys_load_back(t),
        keeps_skipping(t, kept, macos),
        no_circular_takes(t, macos),
    ensures
        resolved(Some(Some(stored_overrides(t, kept, macos))), macos) == (
            t,
            kept_stash(kept, macos, action_count() as int),
        ),
{
    let d = default_bindings(macos);
    let n = action_count() as int;
    let e = stored_overrides(t, kept, macos);
    lemma_candidates_reload(t, kept, macos, n);
    let c = candidates(e, macos, n);
    let s = kept_pending(kept, n);
    assert forall|i: int| 0 <= i < t.len() && !(waiting(c, i) && t[i].1 != d[i].1) implies #[trigger] d[i]
        == t[i] by {
        assert(t[i].1 == d[i].1);
    }
    assert forall|k: int| 0 <= k < c.len() implies {
        let i = (#[trigger] c[k]).0;
        &&& 0 <= i < t.len()
        &&& if t[i].1 != d[i].1 {
            c[k].1 == t[i].1 && d[i] == d[i]
        } else {
            held_throughout(t, d, i, c[k].1)
        }
    } by {
        let i = c[k].0;
        if t[i].1 == d[i].1 {
            assert(kept[i] is Some);
        }
    }
    assert(reloading(t, d, d, c, s));
    let rank = choose|rank: spec_fn(int) -> nat| ranked_by(t, d, rank);
    lemma_reload_settle(t, d, d, c, s, rank);
    lemma_stashed_kept(t, kept, macos, n);
}

/// Every binding of `b` has its action's default keys or the keys stored
/// for it in `entries` that may be applied.
pub open spec fn defaults_or_stored(
    b: Seq<BindingModel>,
    entries: Seq<(Name, Option<Seq<Option<Name>>>)>,
    macos: bool,
) -> bool {
    forall|i: int|
        0 <= i < b.len() ==> #[trigger] b[i].1 == default_bindings(macos)[i].1 || candidate(
            entries,
            macos,
            i,
        ) == Some(b[i].1)
}

/// Every pending override holds the keys stored for its action.
pub open spec fn pending_from(
    p: Seq<(int, Seq<Name>)>,
    entries: Seq<(Name, Option<Seq<Option<Name>>>)>,
    macos: bool,
) -> bool {
    forall|k: int| 0 <= k < p.len() ==> candidate(entries, macos, (#[trigger] p[k]).0) == Some(p[k].1)
}

/// The candidates hold the keys stored for their actions.
proof fn lemma_candidates_from(e: Seq<(Name, Option<Seq<Option<Name>>>)>, macos: bool, n: int)
    ensures
        pending_from(candidates(e, macos, n), e, macos),
    decreases n,
{
    if n > 0 {
        lemma_candidates_from(e, macos, n - 1);
        let prev = candidates(e, macos, n - 1);
        let c = candidates(e, macos, n);
        if let Some(keys) = candidate(e, macos, n - 1) {
            assert(c == prev + seq![(n - 1, keys)]);
            assert forall|k: int| 0 <= k < c.len() implies candidate(e, macos, (#[trigger] c[k]).0)
                == Some(c[k].1) by {
                if k < prev.len() {
                    assert(c[k] == prev[k]);
                }
            }
        } else {
            assert(c =~= prev);
        }
    }
}

/// A pass applies only stored keys.
proof fn lemma_pass_from(
    b: Seq<BindingModel>,
    p: Seq<(int, Seq<Name>)>,
    e: Seq<(Name, Option<Seq<Option<Name>>>)>,
    macos: bool,
)
    requires
        defaults_or_stored(b, e, macos),
        pending_from(p, e, macos),
        in_range(p, b.len() as int),
    ensures
        defaults_or_stored(pass(b, p).0, e, macos),
        pending_from(pass(b, p).1, e, macos),
    decreases p.len(),
{
    if p.len() > 0 {
        let (i, keys) = p[0];
        let rest = p.drop_first();
        assert forall|k: int| 0 <= k < rest.len() implies candidate(e, macos, (#[trigger] rest[k]).0)
            == Some(rest[k].1) && 0 <= rest[k].0 < b.len() by {
            assert(rest[k] == p[k + 1]);
        }
        assert(candidate(e, macos, p[0].0) == Some(p[0].1));
        if free(b, i, keys) {
            let b1 = b.update(i, (b[i].0, keys));
            assert forall|j: int| 0 <= j < b1.len() implies #[trigger] b1[j].1 == default_bindings(
                macos,
            )[j].1 || candidate(e, macos, j) == Some(b1[j].1) by {
                if j != i {
                    assert(b1[j] == b[j]);
                }
            }
            lemma_pass_from(b1, rest, e, macos);
        } else {
            lemma_pass_from(b, rest, e, macos);
            let r2 = pass(b, rest).1;
            let out = seq![(i, keys)] + r2;
            assert forall|k: int| 0 <= k < out.len() implies candidate(e, macos, (#[trigger] out[k]).0)
                == Some(out[k].1) by {
                if k > 0 {
                    assert(out[k] == r2[k - 1]);
                }
            }
        }
    }
}

/// Settling applies only stored keys.
proof fn lemma_settle_from(
    b: Seq<BindingModel>,
    p: Seq<(int, Seq<Name>)>,
    e: Seq<(Name, Option<Seq<Option<Name>>>)>,
    macos: bool,
)
    requires
        defaults_or_stored(b, e, macos),
        pending_from(p, e, macos),
        in_range(p, b.len() as int),
    ensures
        defaults_or_stored(settle(b, p).0, e, macos),
    decreases p.len(),
{
    crate::keymap::lemma_pass_shape(b, p);
    lemma_pass_from(b, p, e, macos);
    let (b2, rest) = pass(b, p);
    if rest.len() < p.len() {
        lemma_settle_from(b2, rest, e, macos);
    }
}

/// Reading the stored overrides gives every action either its default keys
/// or exactly the keys stored for it, read as `parsed_keys` reads them (the
/// lone modifiers dropped) and none of them forbidden.
pub proof fn law_each_action_has_its_defaults_or_its_stored_keys(
    stored: Option<Option<Seq<(Name, Option<Seq<Option<Name>>>)>>>,
    macos: bool,
)
    ensures
        forall|i: int|
            0 <= i < action_count() ==> #[trigger] resolved(stored, macos).0[i].1 == default_bindings(
                macos,
            )[i].1 || (stored matches Some(Some(e)) && candidate(e, macos, i) == Some(
                resolved(stored, macos).0[i].1,
            )),
{
    if let Some(Some(e)) = stored {
        let d = default_bindings(macos);
        assert(d.len() == action_count());
        let p = candidates(e, macos, action_count() as int);
        lemma_candidates_from(e, macos, action_count() as int);
        crate::keymap::law_merge_keeps_the_keymap_sound(stored, macos);
        crate::keymap::lemma_candidates_applicable(e, macos, action_count() as int);
        lemma_settle_from(d, p, e, macos);
    }
}

} // verus!
