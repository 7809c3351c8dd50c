//! Text order and a stable sort by text keys, for the listings the app
//! shows in name order.

use vstd::prelude::*;

use crate::settings::text_less;

verus! {

broadcast use vstd::seq_lib::group_to_multiset_ensures;

/// No text comes before itself.
pub proof fn lemma_text_less_irreflexive(a: Seq<char>)
    ensures
        !text_less(a, a),
    decreases a.len(),
{
    if a.len() > 0 {
        lemma_text_less_irreflexive(a.drop_first());
    }
}

/// Text order is transitive.
pub proof fn lemma_text_less_transitive(a: Seq<char>, b: Seq<char>, c: Seq<char>)
    requires
        text_less(a, b),
        text_less(b, c),
    ensures
        text_less(a, c),
    decreases a.len(),
{
    if a.len() > 0 && b.len() > 0 && c.len() > 0 {
        if a[0] == b[0] && b[0] == c[0] {
            lemma_text_less_transitive(a.drop_first(), b.drop_first(), c.drop_first());
        }
    }
}

/// Of two different texts, one comes before the other.
pub proof fn lemma_text_less_total(a: Seq<char>, b: Seq<char>)
    requires
        a != b,
    ensures
        text_less(a, b) || text_less(b, a),
    decreases a.len(),
{
    if a.len() > 0 && b.len() > 0 && a[0] == b[0] {
        if a.drop_first() == b.drop_first() {
            assert(a =~= seq![a[0]] + a.drop_first());
            assert(b =~= seq![b[0]] + b.drop_first());
        }
        lemma_text_less_total(a.drop_first(), b.drop_first());
    } else if a.len() == 0 && b.len() == 0 {
        assert(a =~= b);
    }
}

/// Two lists with the same elements still have the same elements once
/// each is mapped by `f`.
pub proof fn lemma_map_keeps_multiset<A, B>(s1: Seq<A>, s2: Seq<A>, f: spec_fn(A) -> B)
    requires
        s1.to_multiset() == s2.to_multiset(),
    ensures
        s1.map_values(f).to_multiset() == s2.map_values(f).to_multiset(),
    decreases s1.len(),
{
    broadcast use vstd::multiset::group_multiset_axioms;
    broadcast use vstd::seq_lib::to_multiset_build;
    broadcast use vstd::seq_lib::to_multiset_remove;
    broadcast use vstd::seq_lib::to_multiset_len;
    broadcast use vstd::seq_lib::to_multiset_contains;

    if s1.len() == 0 {
        assert(s1.to_multiset().len() == 0);
        assert(s2.to_multiset().len() == s2.len());
        assert(s2.len() == 0);
        assert(s1.map_values(f) =~= s2.map_values(f));
    } else {
        let x = s1.last();
        let rest = s1.drop_last();
        assert(s1 =~= rest.push(x));
        assert(s1.to_multiset().count(x) > 0);
        assert(s2.to_multiset().count(x) > 0);
        assert(s2.contains(x));
        let i = choose|i: int| 0 <= i < s2.len() && s2[i] == x;
        let s2r = s2.remove(i);
        assert(s2r.to_multiset() == s2.to_multiset().remove(x));
        assert(rest.to_multiset() =~= s1.to_multiset().remove(x));
        lemma_map_keeps_multiset(rest, s2r, f);
        assert(s1.map_values(f) =~= rest.map_values(f).push(f(x)));
        let m2 = s2.map_values(f);
        assert(m2.remove(i) =~= s2r.map_values(f));
        assert(m2.remove(i).to_multiset() == m2.to_multiset().remove(f(x)));
        assert(m2.to_multiset().count(f(x)) > 0) by {
            assert(m2[i] == f(x));
            assert(m2.contains(f(x)));
        }
        assert(m2.to_multiset() =~= m2.to_multiset().remove(f(x)).insert(f(x)));
    }
}

/// Whether the keys of `s` never go down.
pub open spec fn keys_sorted<T>(s: Seq<(Seq<char>, T)>) -> bool {
    forall|i: int, j: int| 0 <= i < j < s.len() ==> !text_less(#[trigger] s[j].0, #[trigger] s[i].0)
}

/// The items whose key is `k`.
pub open spec fn with_key<T>(k: Seq<char>) -> spec_fn((Seq<char>, T)) -> bool {
    |e: (Seq<char>, T)| e.0 == k
}

/// Filtering a single item.
pub(crate) proof fn lemma_filter_one<A>(x: A, f: spec_fn(A) -> bool)
    ensures
        seq![x].filter(f) == if f(x) {
            seq![x]
        } else {
            Seq::empty()
        },
{
    let none = Seq::<A>::empty();
    none.lemma_filter_len(f);
    none.lemma_filter_push(x, f);
    assert(none.push(x) =~= seq![x]);
    assert(none.filter(f) =~= none);
}

/// Filtering a list none of whose items meets the predicate leaves nothing.
pub(crate) proof fn lemma_filter_none<A>(s: Seq<A>, f: spec_fn(A) -> bool)
    requires
        forall|i: int| 0 <= i < s.len() ==> !f(#[trigger] s[i]),
    ensures
        s.filter(f) == Seq::<A>::empty(),
    decreases s.len(),
{
    s.lemma_filter_len(f);
    if s.len() > 0 {
        let p = s.drop_last();
        assert forall|i: int| 0 <= i < p.len() implies !f(#[trigger] p[i]) by {
            assert(p[i] == s[i]);
        }
        lemma_filter_none(p, f);
        p.lemma_filter_push(s.last(), f);
        assert(p.push(s.last()) =~= s);
    }
}

/// Mapping items to items with the same key and then taking those with key
/// `k` is taking them first and mapping them after.
pub(crate) proof fn lemma_filter_key_map<T, U>(
    s: Seq<(Seq<char>, T)>,
    g: spec_fn((Seq<char>, T)) -> (Seq<char>, U),
    k: Seq<char>,
)
    requires
        forall|i: int| 0 <= i < s.len() ==> (#[trigger] g(s[i])).0 == s[i].0,
    ensures
        s.map_values(g).filter(with_key::<U>(k)) == s.filter(with_key::<T>(k)).map_values(g),
    decreases s.len(),
{
    if s.len() == 0 {
        s.map_values(g).lemma_filter_len(with_key::<U>(k));
        s.lemma_filter_len(with_key::<T>(k));
        assert(s.map_values(g).filter(with_key::<U>(k)) =~= s.filter(with_key::<T>(k)).map_values(
            g,
        ));
    } else {
        let p = s.drop_last();
        let x = s.last();
        assert forall|i: int| 0 <= i < p.len() implies (#[trigger] g(p[i])).0 == p[i].0 by {
            assert(p[i] == s[i]);
        }
        lemma_filter_key_map(p, g, k);
        assert(p.push(x) =~= s);
        assert(s.map_values(g) =~= p.map_values(g).push(g(x)));
        p.map_values(g).lemma_filter_push(g(x), with_key::<U>(k));
        p.lemma_filter_push(x, with_key::<T>(k));
        assert(g(s[s.len() - 1]).0 == s[s.len() - 1].0);
        if x.0 == k {
            assert(p.filter(with_key::<T>(k)).push(x).map_values(g) =~= p.filter(
                with_key::<T>(k),
            ).map_values(g).push(g(x)));
        }
    }
}

/// The keyed items of a list, by the view of their key.
pub open spec fn keyed<T>(v: Seq<(String, T)>) -> Seq<(Seq<char>, T)> {
    v.map_values(|e: (String, T)| (e.0@, e.1))
}

/// Where `key` goes in the sorted `s` so that it comes before every equal
/// key: the first index whose key does not come before it.
fn insertion_point<T>(s: &Vec<(String, T)>, key: &String) -> (r: usize)
    ensures
        r <= s@.len(),
        forall|k: int| 0 <= k < r ==> text_less(#[trigger] keyed(s@)[k].0, key@),
        r < s@.len() ==> !text_less(keyed(s@)[r as int].0, key@),
{
    let ghost ks = keyed(s@);
    let k = crate::text::chars_of(key.as_str());
    let mut i: usize = 0;
    while i < s.len()
        invariant
            i <= s@.len(),
            ks == keyed(s@),
            k@ == key@,
            forall|j: int| 0 <= j < i ==> text_less(#[trigger] ks[j].0, key@),
        decreases s@.len() - i,
    {
        let other = crate::text::chars_of(s[i].0.as_str());
        assert(ks[i as int].0 == s@[i as int].0@);
        if !crate::settings::chars_less(&other, &k) {
            return i;
        }
        i = i + 1;
    }
    i
}

/// `items` in the order of their keys; items with equal keys keep their
/// order.
pub fn sort_by_key<T>(items: Vec<(String, T)>) -> (r: Vec<(String, T)>)
    ensures
        keys_sorted(keyed(r@)),
        keyed(r@).to_multiset() == keyed(items@).to_multiset(),
        forall|k: Seq<char>|
            #[trigger] keyed(r@).filter(with_key::<T>(k)) == keyed(items@).filter(with_key::<T>(k)),
{
    let mut items = items;
    let mut out: Vec<(String, T)> = Vec::new();
    let ghost all = keyed(items@).reverse();
    let ghost given = keyed(items@);
    assert(Seq::<(Seq<char>, T)>::empty() + keyed(items@).reverse() =~= all);
    let ghost mut taken: Seq<(Seq<char>, T)> = Seq::empty();
    assert(given.take(given.len() as int) =~= given);
    assert forall|k: Seq<char>| #[trigger] keyed(out@).filter(with_key::<T>(k)) == given.skip(
        keyed(items@).len() as int,
    ).filter(with_key::<T>(k)) by {
        assert(keyed(out@) =~= given.skip(given.len() as int));
    }
    while items.len() > 0
        invariant
            all == taken + keyed(items@).reverse(),
            keys_sorted(keyed(out@)),
            keyed(out@).to_multiset() == taken.to_multiset(),
            keyed(items@).len() <= given.len(),
            keyed(items@) == given.take(keyed(items@).len() as int),
            forall|k: Seq<char>|
                #[trigger] keyed(out@).filter(with_key::<T>(k)) == given.skip(
                    keyed(items@).len() as int,
                ).filter(with_key::<T>(k)),
        decreases items@.len(),
    {
        let ghost before = keyed(items@);
        let item = items.pop().unwrap();
        let ghost e = (item.0@, item.1);
        assert(before == keyed(items@).push(e));
        assert(before.reverse() =~= seq![e] + keyed(items@).reverse());
        assert(all == taken.push(e) + keyed(items@).reverse()) by {
            assert(taken + (seq![e] + keyed(items@).reverse()) =~= taken.push(e) + keyed(
                items@,
            ).reverse());
        }
        let pos = insertion_point(&out, &item.0);
        let ghost old_out = keyed(out@);
        out.insert(pos, item);
        assert(keyed(out@) =~= old_out.insert(pos as int, e));
        proof {
            vstd::seq_lib::to_multiset_insert(old_out, pos as int, e);
            assert(taken.push(e).to_multiset() == taken.to_multiset().insert(e));
            let s = keyed(out@);
            assert forall|i: int, j: int| 0 <= i < j < s.len() implies !text_less(
                #[trigger] s[j].0,
                #[trigger] s[i].0,
            ) by {
                if j < pos {
                    assert(s[i] == old_out[i] && s[j] == old_out[j]);
                } else if j == pos {
                    assert(s[i] == old_out[i]);
                    assert(text_less(old_out[i].0, e.0));
                    if text_less(e.0, old_out[i].0) {
                        lemma_text_less_transitive(e.0, old_out[i].0, e.0);
                        lemma_text_less_irreflexive(e.0);
                    }
                } else if i == pos {
                    assert(s[j] == old_out[j - 1]);
                    assert(!text_less(old_out[pos as int].0, e.0));
                    if text_less(s[j].0, e.0) {
                        if pos < j - 1 {
                            assert(!text_less(old_out[j - 1].0, old_out[pos as int].0));
                            if old_out[pos as int].0 != e.0 {
                                lemma_text_less_total(old_out[pos as int].0, e.0);
                                lemma_text_less_transitive(s[j].0, e.0, old_out[pos as int].0);
                            }
                        }
                    }
                } else if i < pos {
                    assert(s[i] == old_out[i] && s[j] == old_out[j - 1]);
                } else {
                    assert(s[i] == old_out[i - 1] && s[j] == old_out[j - 1]);
                }
            }
            let n = before.len() as int;
            assert(given[n - 1] == e) by {
                assert(before[n - 1] == e);
                assert(given.take(n)[n - 1] == given[n - 1]);
            }
            assert(keyed(items@) =~= given.take(n - 1));
            assert(given.skip(n - 1) =~= seq![e] + given.skip(n));
            assert forall|k: Seq<char>| #[trigger] keyed(out@).filter(with_key::<T>(k))
                == given.skip(n - 1).filter(with_key::<T>(k)) by {
                let f = with_key::<T>(k);
                let front = old_out.take(pos as int);
                let back = old_out.skip(pos as int);
                assert(s =~= front + seq![e] + back);
                assert(front + back =~= old_out);
                Seq::filter_distributes_over_add(front + seq![e], back, f);
                Seq::filter_distributes_over_add(front, seq![e], f);
                Seq::filter_distributes_over_add(front, back, f);
                Seq::filter_distributes_over_add(seq![e], given.skip(n), f);
                lemma_filter_one(e, f);
                if k == e.0 {
                    assert forall|i: int| 0 <= i < front.len() implies !f(#[trigger] front[i]) by {
                        assert(front[i] == old_out[i]);
                        assert(text_less(old_out[i].0, e.0));
                        if old_out[i].0 == e.0 {
                            lemma_text_less_irreflexive(e.0);
                        }
                    }
                    lemma_filter_none(front, f);
                    assert(front.filter(f) + seq![e] + back.filter(f) =~= seq![e] + (front.filter(
                        f,
                    ) + back.filter(f)));
                } else {
                    assert(front.filter(f) + Seq::empty() + back.filter(f) =~= front.filter(f)
                        + back.filter(f));
                    assert(Seq::<(Seq<char>, T)>::empty() + given.skip(n).filter(f)
                        =~= given.skip(n).filter(f));
                }
            }
            taken = taken.push(e);
        }
    }
    assert(given.skip(0) =~= given);
    assert(keyed(items@).reverse() =~= Seq::<(Seq<char>, T)>::empty());
    assert(all =~= taken);
    proof {
        given.lemma_reverse_to_multiset();
    }
    out
}

} // verus!
