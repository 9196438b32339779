//! The stated laws of the engine, each proved over the models: a diff of
//! observationally equal trees is the empty patch; a diff applied to the
//! tree it was computed against round-trips to the new tree; and the
//! listener registry tracks exactly the binding occurrences of the live
//! tree through any patch.
use vstd::prelude::*;

use vstd::multiset::Multiset;

use crate::diff::{
    diff_children, diff_pairs, diff_tail, seq_deltas, seq_minus, spec_diff, tail_inserts,
    tail_removes, Delta, DiffV,
};
use crate::html::{attr_key_of, AttrV};
use crate::vdom::{
    ids_kids, ids_of, lemma_obs_kids, lemma_obs_kids_refl, lemma_obs_refl, obs_eq, obs_kids,
    distinct_ids, distinct_keys, wf_html, wf_kids, ElemV, Event, EventId, HtmlV,
};

verus! {

broadcast use vstd::seq_lib::group_to_multiset_ensures, vstd::multiset::group_multiset_axioms;

/// The multiset of a concatenation is the sum of the multisets.
pub proof fn lemma_to_multiset_concat<A>(s: Seq<A>, t: Seq<A>)
    ensures
        (s + t).to_multiset() == s.to_multiset().add(t.to_multiset()),
    decreases t.len(),
{
    if t.len() == 0 {
        assert(s + t =~= s);
        assert(t.to_multiset().len() == 0);
        assert(t.to_multiset() =~= Multiset::<A>::empty());
        assert(s.to_multiset().add(Multiset::<A>::empty()) =~= s.to_multiset());
    } else {
        let t0 = t.drop_last();
        let x = t.last();
        lemma_to_multiset_concat(s, t0);
        assert(s + t =~= (s + t0).push(x));
        assert(t =~= t0.push(x));
        assert((s + t0).push(x).to_multiset() =~= (s + t0).to_multiset().insert(x));
        assert(t0.push(x).to_multiset() =~= t0.to_multiset().insert(x));
        assert(s.to_multiset().add(t0.to_multiset().insert(x)) =~= s.to_multiset().add(
            t0.to_multiset(),
        ).insert(x));
    }
}

/// Sequences with one multiset have one multiset of mapped identities.
proof fn lemma_map_ids_to_multiset(s: Seq<Event>, t: Seq<Event>)
    requires
        s.to_multiset() == t.to_multiset(),
    ensures
        s.map_values(|ev: Event| ev.id).to_multiset() == t.map_values(
            |ev: Event| ev.id,
        ).to_multiset(),
    decreases s.len(),
{
    let f = |ev: Event| ev.id;
    if s.len() == 0 {
        assert(t.to_multiset().len() == 0);
        assert(t.len() == 0);
        assert(s.map_values(f).to_multiset().len() == 0);
        assert(t.map_values(f).to_multiset().len() == 0);
        assert(s.map_values(f).to_multiset() =~= t.map_values(f).to_multiset());
    } else {
        let x = s[0];
        assert(s.contains(x));
        assert(s.to_multiset().count(x) > 0);
        assert(t.to_multiset().count(x) > 0);
        assert(t.contains(x));
        let j = choose|j: int| 0 <= j < t.len() && t[j] == x;
        assert(s.remove(0).to_multiset() =~= s.to_multiset().remove(x));
        assert(t.remove(j).to_multiset() =~= t.to_multiset().remove(x));
        lemma_map_ids_to_multiset(s.remove(0), t.remove(j));
        let ms = s.map_values(f);
        let mt = t.map_values(f);
        assert(s.remove(0).map_values(f) =~= ms.remove(0));
        assert(t.remove(j).map_values(f) =~= mt.remove(j));
        assert(ms.remove(0).to_multiset() =~= ms.to_multiset().remove(ms[0]));
        assert(mt.remove(j).to_multiset() =~= mt.to_multiset().remove(mt[j]));
        assert(ms[0] == f(x));
        assert(mt[j] == f(x));
        assert(ms.to_multiset().remove(f(x)) == mt.to_multiset().remove(f(x)));
        assert(ms.contains(f(x)));
        assert(mt.contains(f(x)));
        assert forall|v: EventId| ms.to_multiset().count(v) == mt.to_multiset().count(v) by {
            if v == f(x) {
                assert(ms.to_multiset().remove(f(x)).count(v) == ms.to_multiset().count(v) - 1);
                assert(mt.to_multiset().remove(f(x)).count(v) == mt.to_multiset().count(v) - 1);
            } else {
                assert(ms.to_multiset().remove(f(x)).count(v) == ms.to_multiset().count(v));
                assert(mt.to_multiset().remove(f(x)).count(v) == mt.to_multiset().count(v));
            }
        }
        assert(ms.to_multiset() =~= mt.to_multiset());
    }
}

/// Observationally equal trees carry one multiset of binding identities.
pub proof fn lemma_obs_eq_ids(a: HtmlV, b: HtmlV)
    requires
        obs_eq(a, b),
    ensures
        ids_of(a).to_multiset() == ids_of(b).to_multiset(),
    decreases a, 1int,
{
    match (a, b) {
        (HtmlV::Text(_), HtmlV::Text(_)) => {},
        (HtmlV::Element(x), HtmlV::Element(y)) => {
            lemma_map_ids_to_multiset(x.events, y.events);
            lemma_obs_eq_ids_kids(x.children, y.children);
            lemma_to_multiset_concat(
                x.events.map_values(|ev: Event| ev.id),
                ids_kids(x.children),
            );
            lemma_to_multiset_concat(
                y.events.map_values(|ev: Event| ev.id),
                ids_kids(y.children),
            );
        },
        _ => {},
    }
}

proof fn lemma_obs_eq_ids_kids(xs: Seq<HtmlV>, ys: Seq<HtmlV>)
    requires
        obs_kids(xs, ys),
    ensures
        ids_kids(xs).to_multiset() == ids_kids(ys).to_multiset(),
    decreases xs, 0int,
{
    if xs.len() > 0 {
        lemma_obs_eq_ids(xs[0], ys[0]);
        lemma_obs_eq_ids_kids(xs.drop_first(), ys.drop_first());
        lemma_to_multiset_concat(ids_of(xs[0]), ids_kids(xs.drop_first()));
        lemma_to_multiset_concat(ids_of(ys[0]), ids_kids(ys.drop_first()));
    } else {
        assert(ys.len() == 0);
    }
}

/// Two positions holding one value give that value multiplicity at least
/// two.
proof fn lemma_dup_count<A>(s: Seq<A>, i: int, j: int)
    requires
        0 <= i < j < s.len(),
        s[i] == s[j],
    ensures
        s.to_multiset().count(s[i]) >= 2,
{
    let v = s[i];
    assert(s.remove(i).to_multiset() =~= s.to_multiset().remove(v));
    assert(s.remove(i)[j - 1] == v);
    assert(s.remove(i).contains(v));
    assert(s.remove(i).to_multiset().count(v) > 0);
}

/// Distinct keys or identities survive observational equality: a tree
/// observationally equal to a well-formed tree is well-formed.
pub proof fn lemma_obs_eq_wf(a: HtmlV, b: HtmlV)
    requires
        obs_eq(a, b),
        wf_html(b),
    ensures
        wf_html(a),
    decreases a, 1int,
{
    match (a, b) {
        (HtmlV::Element(x), HtmlV::Element(y)) => {
            assert forall|i: int, j: int|
                0 <= i < j < x.attrs.len() implies attr_key_of(x.attrs[i]) != attr_key_of(
                x.attrs[j],
            ) by {
                if attr_key_of(x.attrs[i]) == attr_key_of(x.attrs[j]) {
                    let v1 = x.attrs[i];
                    let v2 = x.attrs[j];
                    if v1 == v2 {
                        lemma_dup_count(x.attrs, i, j);
                        assert(y.attrs.to_multiset().count(v1) >= 2);
                        assert(y.attrs.contains(v1));
                        let k1 = choose|k: int| 0 <= k < y.attrs.len() && y.attrs[k] == v1;
                        assert(y.attrs.remove(k1).to_multiset() =~= y.attrs.to_multiset().remove(
                            v1,
                        ));
                        assert(y.attrs.remove(k1).to_multiset().count(v1) > 0);
                        assert(y.attrs.remove(k1).contains(v1));
                        let k2 = choose|k: int|
                            0 <= k < y.attrs.remove(k1).len() && y.attrs.remove(k1)[k] == v1;
                        if k2 < k1 {
                            assert(y.attrs[k2] == v1);
                            assert(attr_key_of(y.attrs[k2]) == attr_key_of(y.attrs[k1]));
                        } else {
                            assert(y.attrs[k2 + 1] == v1);
                            assert(attr_key_of(y.attrs[k2 + 1]) == attr_key_of(y.attrs[k1]));
                        }
                    } else {
                        assert(x.attrs.contains(v1));
                        assert(x.attrs.to_multiset().count(v1) > 0);
                        assert(y.attrs.to_multiset().count(v1) > 0);
                        assert(y.attrs.contains(v1));
                        assert(x.attrs.contains(v2));
                        assert(x.attrs.to_multiset().count(v2) > 0);
                        assert(y.attrs.to_multiset().count(v2) > 0);
                        assert(y.attrs.contains(v2));
                        let k1 = choose|k: int| 0 <= k < y.attrs.len() && y.attrs[k] == v1;
                        let k2 = choose|k: int| 0 <= k < y.attrs.len() && y.attrs[k] == v2;
                        assert(k1 != k2);
                        assert(attr_key_of(y.attrs[k1]) == attr_key_of(y.attrs[k2]));
                    }
                }
            }
            assert forall|i: int, j: int|
                0 <= i < j < x.events.len() implies x.events[i].id != x.events[j].id by {
                if x.events[i].id == x.events[j].id {
                    let v1 = x.events[i];
                    let v2 = x.events[j];
                    if v1 == v2 {
                        lemma_dup_count(x.events, i, j);
                        assert(y.events.to_multiset().count(v1) >= 2);
                        assert(y.events.contains(v1));
                        let k1 = choose|k: int| 0 <= k < y.events.len() && y.events[k] == v1;
                        assert(y.events.remove(k1).to_multiset() =~= y.events.to_multiset().remove(
                            v1,
                        ));
                        assert(y.events.remove(k1).to_multiset().count(v1) > 0);
                        assert(y.events.remove(k1).contains(v1));
                        let k2 = choose|k: int|
                            0 <= k < y.events.remove(k1).len() && y.events.remove(k1)[k] == v1;
                        if k2 < k1 {
                            assert(y.events[k2] == v1);
                        } else {
                            assert(y.events[k2 + 1] == v1);
                        }
                    } else {
                        assert(x.events.contains(v1));
                        assert(x.events.to_multiset().count(v1) > 0);
                        assert(y.events.to_multiset().count(v1) > 0);
                        assert(y.events.contains(v1));
                        assert(x.events.contains(v2));
                        assert(x.events.to_multiset().count(v2) > 0);
                        assert(y.events.to_multiset().count(v2) > 0);
                        assert(y.events.contains(v2));
                        let k1 = choose|k: int| 0 <= k < y.events.len() && y.events[k] == v1;
                        let k2 = choose|k: int| 0 <= k < y.events.len() && y.events[k] == v2;
                        assert(k1 != k2);
                    }
                }
            }
            lemma_obs_eq_wf_kids(x.children, y.children);
        },
        _ => {},
    }
}

proof fn lemma_obs_eq_wf_kids(xs: Seq<HtmlV>, ys: Seq<HtmlV>)
    requires
        obs_kids(xs, ys),
        wf_kids(ys),
    ensures
        wf_kids(xs),
    decreases xs, 0int,
{
    if xs.len() > 0 {
        lemma_obs_eq_wf(xs[0], ys[0]);
        lemma_obs_eq_wf_kids(xs.drop_first(), ys.drop_first());
    }
}

/// The diff of observationally equal trees is the empty patch. In
/// particular a tree diffed against itself is unchanged, so a render pass
/// over an unchanged model touches nothing.
pub proof fn lemma_obs_eq_diff_unchanged(a: HtmlV, b: HtmlV)
    requires
        obs_eq(a, b),
    ensures
        spec_diff(a, b) == DiffV::Unchanged,
    decreases a, 1int,
{
    match (a, b) {
        (HtmlV::Text(_), HtmlV::Text(_)) => {},
        (HtmlV::Element(x), HtmlV::Element(y)) => {
            assert forall|k: int|
                0 <= k < x.attrs.len() implies y.attrs.contains(#[trigger] x.attrs[k]) by {
                assert(x.attrs.contains(x.attrs[k]));
                assert(x.attrs.to_multiset().count(x.attrs[k]) > 0);
                assert(y.attrs.to_multiset().count(x.attrs[k]) > 0);
            }
            assert forall|k: int|
                0 <= k < y.attrs.len() implies x.attrs.contains(#[trigger] y.attrs[k]) by {
                assert(y.attrs.contains(y.attrs[k]));
                assert(y.attrs.to_multiset().count(y.attrs[k]) > 0);
                assert(x.attrs.to_multiset().count(y.attrs[k]) > 0);
            }
            crate::diff::lemma_seq_minus_contained(x.attrs, y.attrs);
            crate::diff::lemma_seq_minus_contained(y.attrs, x.attrs);
            assert(seq_deltas(x.attrs, y.attrs) =~= Seq::<Delta<AttrV>>::empty());
            assert forall|k: int|
                0 <= k < x.events.len() implies y.events.contains(#[trigger] x.events[k]) by {
                assert(x.events.contains(x.events[k]));
                assert(x.events.to_multiset().count(x.events[k]) > 0);
                assert(y.events.to_multiset().count(x.events[k]) > 0);
            }
            assert forall|k: int|
                0 <= k < y.events.len() implies x.events.contains(#[trigger] y.events[k]) by {
                assert(y.events.contains(y.events[k]));
                assert(y.events.to_multiset().count(y.events[k]) > 0);
                assert(x.events.to_multiset().count(y.events[k]) > 0);
            }
            crate::diff::lemma_seq_minus_contained(x.events, y.events);
            crate::diff::lemma_seq_minus_contained(y.events, x.events);
            assert(seq_deltas(x.events, y.events) =~= Seq::<Delta<Event>>::empty());
            lemma_obs_eq_diff_pairs(x.children, y.children, 0);
            assert(diff_tail(x.children, y.children) == tail_removes(
                y.children,
                y.children.len() as int,
            ));
            assert(diff_children(x.children, y.children) =~= Seq::<(int, DiffV)>::empty());
        },
        _ => {},
    }
}

proof fn lemma_obs_eq_diff_pairs(xs: Seq<HtmlV>, ys: Seq<HtmlV>, at: int)
    requires
        obs_kids(xs, ys),
    ensures
        diff_pairs(xs, ys, at) == Seq::<(int, DiffV)>::empty(),
    decreases xs, 0int,
{
    if xs.len() > 0 {
        lemma_obs_eq_diff_unchanged(xs[0], ys[0]);
        lemma_obs_eq_diff_pairs(xs.drop_first(), ys.drop_first(), at + 1);
        assert(diff_pairs(xs, ys, at) =~= Seq::<(int, DiffV)>::empty());
    }
}

/// The diff engine is reflexive: a tree diffed against itself reports no
/// change at all.
pub proof fn lemma_diff_self(a: HtmlV)
    ensures
        spec_diff(a, a) == DiffV::Unchanged,
{
    lemma_obs_refl(a);
    lemma_obs_eq_diff_unchanged(a, a);
}

/// Registering a run of identities adds exactly their multiset.
pub proof fn lemma_stash_all(m: Multiset<EventId>, s: Seq<EventId>)
    ensures
        crate::patch::stash_all(m, s) == m.add(s.to_multiset()),
    decreases s.len(),
{
    if s.len() == 0 {
        assert(s.to_multiset().len() == 0);
        assert(s.to_multiset() =~= Multiset::<EventId>::empty());
        assert(m.add(Multiset::<EventId>::empty()) =~= m);
    } else {
        let x = s[0];
        let d = s.drop_first();
        lemma_stash_all(m.insert(x), d);
        assert(s.remove(0) =~= d);
        assert(s.remove(0).to_multiset() =~= s.to_multiset().remove(x));
        assert(s.contains(x));
        assert(s.to_multiset().count(x) > 0);
        assert forall|v: EventId| s.to_multiset().count(v) == d.to_multiset().insert(x).count(v)
        by {
            if v == x {
                assert(s.to_multiset().remove(x).count(v) == s.to_multiset().count(v) - 1);
            } else {
                assert(s.to_multiset().remove(x).count(v) == s.to_multiset().count(v));
            }
        }
        assert(s.to_multiset() =~= d.to_multiset().insert(x));
        assert(m.insert(x).add(d.to_multiset()) =~= m.add(d.to_multiset().insert(x)));
    }
}

/// Releasing a run of identities whose multiset the registry holds in full
/// leaves exactly the remainder.
pub proof fn lemma_release_all_exact(m: Multiset<EventId>, s: Seq<EventId>, rest: Multiset<EventId>)
    requires
        m == s.to_multiset().add(rest),
    ensures
        crate::patch::release_all(m, s) == rest,
    decreases s.len(),
{
    if s.len() == 0 {
        assert(s.to_multiset().len() == 0);
        assert(s.to_multiset() =~= Multiset::<EventId>::empty());
        assert(Multiset::<EventId>::empty().add(rest) =~= rest);
    } else {
        let x = s[0];
        let d = s.drop_first();
        assert(s.remove(0) =~= d);
        assert(s.remove(0).to_multiset() =~= s.to_multiset().remove(x));
        assert(s.contains(x));
        assert(s.to_multiset().count(x) > 0);
        assert forall|v: EventId| s.to_multiset().count(v) == d.to_multiset().insert(x).count(v)
        by {
            if v == x {
                assert(s.to_multiset().remove(x).count(v) == s.to_multiset().count(v) - 1);
            } else {
                assert(s.to_multiset().remove(x).count(v) == s.to_multiset().count(v));
            }
        }
        assert(s.to_multiset() =~= d.to_multiset().insert(x));
        assert(m.count(x) > 0);
        assert(crate::registry::release_one(m, x) == m.remove(x));
        assert(m.remove(x) =~= d.to_multiset().add(rest));
        lemma_release_all_exact(m.remove(x), d, rest);
    }
}

proof fn lemma_contains_drop_first<A>(s: Seq<A>, v: A)
    requires
        s.len() > 0,
    ensures
        s.contains(v) <==> (s[0] == v || s.drop_first().contains(v)),
{
    if s.contains(v) {
        let i = choose|i: int| 0 <= i < s.len() && s[i] == v;
        if i > 0 {
            assert(s.drop_first()[i - 1] == v);
        }
    }
    if s.drop_first().contains(v) {
        let i = choose|i: int| 0 <= i < s.drop_first().len() && s.drop_first()[i] == v;
        assert(s[i + 1] == v);
    }
}

proof fn lemma_contains_push<A>(s: Seq<A>, x: A, v: A)
    ensures
        s.push(x).contains(v) <==> (s.contains(v) || v == x),
{
    if s.push(x).contains(v) {
        let i = choose|i: int| 0 <= i < s.push(x).len() && s.push(x)[i] == v;
        if i < s.len() {
            assert(s[i] == v);
        }
    }
    if s.contains(v) {
        let i = choose|i: int| 0 <= i < s.len() && s[i] == v;
        assert(s.push(x)[i] == v);
    }
    assert(s.push(x)[s.len() as int] == x);
}

/// What the set difference holds: exactly the elements of the left list
/// that the exclusion list lacks, each once.
pub proof fn lemma_seq_minus_props<A>(xs: Seq<A>, excl: Seq<A>)
    ensures
        forall|v: A|
            #[trigger] seq_minus(xs, excl).contains(v) <==> (xs.contains(v) && !excl.contains(v)),
        seq_minus(xs, excl).no_duplicates(),
    decreases xs,
{
    if xs.len() == 0 {
        assert(forall|v: A| !seq_minus(xs, excl).contains(v));
        assert(forall|v: A| !xs.contains(v));
    } else {
        let x = xs[0];
        let d = xs.drop_first();
        assert(forall|v: A| #[trigger] xs.contains(v) <==> (x == v || d.contains(v))) by {
            assert forall|v: A| #[trigger] xs.contains(v) <==> (x == v || d.contains(v)) by {
                lemma_contains_drop_first(xs, v);
            }
        }
        if excl.contains(x) {
            lemma_seq_minus_props(d, excl);
        } else {
            lemma_seq_minus_props(d, excl.push(x));
            let r = seq_minus(d, excl.push(x));
            assert forall|v: A| #[trigger] excl.push(x).contains(v) <==> (excl.contains(v) || v
                == x) by {
                lemma_contains_push(excl, x, v);
            }
            assert forall|v: A|
                #[trigger] seq_minus(xs, excl).contains(v) <==> (xs.contains(v)
                    && !excl.contains(v)) by {
                crate::diff::lemma_contains_concat(seq![x], r, v);
                assert(seq![x].contains(v) <==> v == x) by {
                    if seq![x].contains(v) {
                        let i = choose|i: int| 0 <= i < 1 && seq![x][i] == v;
                        assert(seq![x][0] == x);
                    }
                    assert(seq![x][0] == x);
                }
            }
            assert(seq_minus(xs, excl).no_duplicates()) by {
                assert(seq_minus(xs, excl) == seq![x] + r);
                assert(!r.contains(x));
                assert forall|i: int, j: int|
                    0 <= i < j < seq_minus(xs, excl).len() implies seq_minus(xs, excl)[i]
                    != seq_minus(xs, excl)[j] by {
                    if i == 0 {
                        assert(seq_minus(xs, excl)[j] == r[j - 1]);
                        assert(r.contains(r[j - 1]));
                    } else {
                        assert(seq_minus(xs, excl)[i] == r[i - 1]);
                        assert(seq_minus(xs, excl)[j] == r[j - 1]);
                    }
                }
            }
        }
    }
}

/// Lists with pairwise distinct keys hold pairwise distinct values.
proof fn lemma_distinct_keys_no_dup(attrs: Seq<AttrV>)
    requires
        distinct_keys(attrs),
    ensures
        attrs.no_duplicates(),
{
}

proof fn lemma_distinct_ids_no_dup(events: Seq<Event>)
    requires
        distinct_ids(events),
    ensures
        events.no_duplicates(),
{
}

proof fn lemma_apply_attr_deltas_concat(attrs: Seq<AttrV>, d1: Seq<Delta<AttrV>>, d2: Seq<
    Delta<AttrV>,
>)
    ensures
        crate::patch::apply_attr_deltas(attrs, d1 + d2) == crate::patch::apply_attr_deltas(
            crate::patch::apply_attr_deltas(attrs, d1),
            d2,
        ),
    decreases d1.len(),
{
    if d1.len() == 0 {
        assert(d1 + d2 =~= d2);
    } else {
        assert((d1 + d2)[0] == d1[0]);
        assert((d1 + d2).drop_first() =~= d1.drop_first() + d2);
        lemma_apply_attr_deltas_concat(
            crate::patch::apply_attr_delta(attrs, d1[0]),
            d1.drop_first(),
            d2,
        );
    }
}

proof fn lemma_apply_event_deltas_concat(events: Seq<Event>, d1: Seq<Delta<Event>>, d2: Seq<
    Delta<Event>,
>)
    ensures
        crate::patch::apply_event_deltas(events, d1 + d2) == crate::patch::apply_event_deltas(
            crate::patch::apply_event_deltas(events, d1),
            d2,
        ),
    decreases d1.len(),
{
    if d1.len() == 0 {
        assert(d1 + d2 =~= d2);
    } else {
        assert((d1 + d2)[0] == d1[0]);
        assert((d1 + d2).drop_first() =~= d1.drop_first() + d2);
        lemma_apply_event_deltas_concat(
            crate::patch::apply_event_delta(events, d1[0]),
            d1.drop_first(),
            d2,
        );
    }
}

proof fn lemma_commit_events_concat(m: Multiset<EventId>, d1: Seq<Delta<Event>>, d2: Seq<
    Delta<Event>,
>)
    ensures
        crate::patch::commit_events(m, d1 + d2) == crate::patch::commit_events(
            crate::patch::commit_events(m, d1),
            d2,
        ),
    decreases d1.len(),
{
    if d1.len() == 0 {
        assert(d1 + d2 =~= d2);
    } else {
        assert((d1 + d2)[0] == d1[0]);
        assert((d1 + d2).drop_first() =~= d1.drop_first() + d2);
        let m1 = match d1[0] {
            Delta::Add(e) => m.insert(e.id),
            Delta::Remove(e) => crate::registry::release_one(m, e.id),
        };
        lemma_commit_events_concat(m1, d1.drop_first(), d2);
    }
}

proof fn lemma_attr_removals(cur: Seq<AttrV>, rm: Seq<AttrV>)
    requires
        distinct_keys(cur),
        rm.no_duplicates(),
        forall|k: int| 0 <= k < rm.len() ==> cur.contains(#[trigger] rm[k]),
    ensures
        ({
            let res = crate::patch::apply_attr_deltas(
                cur,
                rm.map_values(|a: AttrV| Delta::Remove(a)),
            );
            &&& distinct_keys(res)
            &&& forall|v: AttrV| #[trigger] res.contains(v) <==> (cur.contains(v) && !rm.contains(v))
        }),
    decreases rm.len(),
{
    let ds = rm.map_values(|a: AttrV| Delta::Remove(a));
    if rm.len() == 0 {
        assert(crate::patch::apply_attr_deltas(cur, ds) == cur);
        assert(forall|v: AttrV| !rm.contains(v));
    } else {
        let a = rm[0];
        assert(cur.contains(a));
        let i = choose|i: int| 0 <= i < cur.len() && cur[i] == a;
        assert(forall|n: int| 0 <= n < i ==> attr_key_of(cur[n]) != attr_key_of(a));
        crate::patch::lemma_remove_key_at(cur, attr_key_of(a), i);
        assert(ds[0] == Delta::<AttrV>::Remove(a));
        assert(crate::patch::apply_attr_delta(cur, ds[0]) == cur.remove(i));
        let cur2 = cur.remove(i);
        assert(distinct_keys(cur2)) by {
            assert forall|p: int, q: int|
                0 <= p < q < cur2.len() implies attr_key_of(cur2[p]) != attr_key_of(cur2[q]) by {
                if p < i {
                    assert(cur2[p] == cur[p]);
                } else {
                    assert(cur2[p] == cur[p + 1]);
                }
                if q < i {
                    assert(cur2[q] == cur[q]);
                } else {
                    assert(cur2[q] == cur[q + 1]);
                }
            }
        }
        lemma_distinct_keys_no_dup(cur);
        cur.lemma_multiset_has_no_duplicates();
        assert(cur2.to_multiset() =~= cur.to_multiset().remove(a));
        assert(forall|v: AttrV| #[trigger] cur2.contains(v) <==> (cur.contains(v) && v != a)) by {
            assert forall|v: AttrV| #[trigger] cur2.contains(v) <==> (cur.contains(v) && v != a)
            by {
                if v == a {
                    assert(cur.to_multiset().count(a) == 1);
                    assert(cur2.to_multiset().count(a) == 0);
                } else {
                    assert(cur2.to_multiset().count(v) == cur.to_multiset().count(v));
                }
            }
        }
        let rm2 = rm.drop_first();
        assert(forall|k: int| 0 <= k < rm2.len() ==> rm2[k] == rm[k + 1]);
        assert(rm2.no_duplicates());
        assert(forall|k: int| 0 <= k < rm2.len() ==> cur2.contains(#[trigger] rm2[k])) by {
            assert forall|k: int| 0 <= k < rm2.len() implies cur2.contains(#[trigger] rm2[k]) by {
                assert(rm2[k] == rm[k + 1]);
                assert(cur.contains(rm[k + 1]));
                assert(rm[k + 1] != a);
            }
        }
        lemma_attr_removals(cur2, rm2);
        assert(ds.drop_first() =~= rm2.map_values(|x: AttrV| Delta::Remove(x)));
        assert(crate::patch::apply_attr_deltas(cur, ds) == crate::patch::apply_attr_deltas(
            cur2,
            rm2.map_values(|x: AttrV| Delta::Remove(x)),
        ));
        assert forall|v: AttrV|
            #[trigger] crate::patch::apply_attr_deltas(cur, ds).contains(v) <==> (cur.contains(v)
                && !rm.contains(v)) by {
            lemma_contains_drop_first(rm, v);
        }
    }
}

proof fn lemma_attr_adds(cur: Seq<AttrV>, ad: Seq<AttrV>)
    requires
        distinct_keys(ad),
        forall|k: int, n: int|
            0 <= k < ad.len() && 0 <= n < cur.len() ==> attr_key_of(#[trigger] cur[n])
                != attr_key_of(#[trigger] ad[k]),
    ensures
        crate::patch::apply_attr_deltas(cur, ad.map_values(|a: AttrV| Delta::Add(a))) == cur + ad,
    decreases ad.len(),
{
    let ds = ad.map_values(|a: AttrV| Delta::Add(a));
    if ad.len() == 0 {
        assert(cur + ad =~= cur);
    } else {
        let a = ad[0];
        assert(ds[0] == Delta::<AttrV>::Add(a));
        crate::patch::lemma_set_attr_none(cur, a);
        assert(crate::patch::apply_attr_delta(cur, ds[0]) == cur.push(a));
        let ad2 = ad.drop_first();
        assert(forall|k: int| 0 <= k < ad2.len() ==> ad2[k] == ad[k + 1]);
        assert(distinct_keys(ad2));
        assert(forall|k: int, n: int|
            0 <= k < ad2.len() && 0 <= n < cur.push(a).len() ==> attr_key_of(
                #[trigger] cur.push(a)[n],
            ) != attr_key_of(#[trigger] ad2[k])) by {
            assert forall|k: int, n: int|
                0 <= k < ad2.len() && 0 <= n < cur.push(a).len() implies attr_key_of(
                #[trigger] cur.push(a)[n],
            ) != attr_key_of(#[trigger] ad2[k]) by {
                assert(ad2[k] == ad[k + 1]);
                if n < cur.len() {
                    assert(cur.push(a)[n] == cur[n]);
                } else {
                    assert(cur.push(a)[n] == a);
                }
            }
        }
        lemma_attr_adds(cur.push(a), ad2);
        assert(ds.drop_first() =~= ad2.map_values(|x: AttrV| Delta::Add(x)));
        assert(cur.push(a) + ad2 =~= cur + ad);
    }
}

/// Attribute edits computed as a set difference round-trip: applying them
/// to the old list yields the new list's attributes, as a set keyed by
/// name.
pub proof fn lemma_attr_round(xa: Seq<AttrV>, ya: Seq<AttrV>)
    requires
        distinct_keys(xa),
        distinct_keys(ya),
    ensures
        crate::patch::apply_attr_deltas(xa, seq_deltas(xa, ya)).to_multiset() == ya.to_multiset(),
    decreases xa.len() + ya.len(),
{
    let rm = seq_minus(xa, ya);
    let ad = seq_minus(ya, xa);
    lemma_seq_minus_props(xa, ya);
    lemma_seq_minus_props(ya, xa);
    lemma_apply_attr_deltas_concat(
        xa,
        rm.map_values(|a: AttrV| Delta::Remove(a)),
        ad.map_values(|a: AttrV| Delta::Add(a)),
    );
    assert(seq_deltas(xa, ya) == rm.map_values(|a: AttrV| Delta::Remove(a)) + ad.map_values(
        |a: AttrV| Delta::Add(a),
    ));
    assert forall|k: int| 0 <= k < rm.len() implies xa.contains(#[trigger] rm[k]) by {
        assert(rm.contains(rm[k]));
    }
    lemma_attr_removals(xa, rm);
    let mid = crate::patch::apply_attr_deltas(xa, rm.map_values(|a: AttrV| Delta::Remove(a)));
    assert(forall|v: AttrV| #[trigger] mid.contains(v) <==> (xa.contains(v) && ya.contains(v)));
    assert(distinct_keys(ad)) by {
        assert forall|p: int, q: int|
            0 <= p < q < ad.len() implies attr_key_of(ad[p]) != attr_key_of(ad[q]) by {
            if attr_key_of(ad[p]) == attr_key_of(ad[q]) {
                assert(ad.contains(ad[p]));
                assert(ad.contains(ad[q]));
                assert(ya.contains(ad[p]));
                assert(ya.contains(ad[q]));
                let u1 = choose|u: int| 0 <= u < ya.len() && ya[u] == ad[p];
                let u2 = choose|u: int| 0 <= u < ya.len() && ya[u] == ad[q];
                assert(ad.no_duplicates());
                assert(ad[p] != ad[q]);
                assert(u1 != u2);
            }
        }
    }
    assert(forall|k: int, n: int|
        0 <= k < ad.len() && 0 <= n < mid.len() ==> attr_key_of(#[trigger] mid[n]) != attr_key_of(
            #[trigger] ad[k],
        )) by {
        assert forall|k: int, n: int|
            0 <= k < ad.len() && 0 <= n < mid.len() implies attr_key_of(#[trigger] mid[n])
            != attr_key_of(#[trigger] ad[k]) by {
            if attr_key_of(mid[n]) == attr_key_of(ad[k]) {
                assert(mid.contains(mid[n]));
                assert(ya.contains(mid[n]));
                assert(xa.contains(mid[n]));
                assert(ad.contains(ad[k]));
                assert(ya.contains(ad[k]));
                assert(!xa.contains(ad[k]));
                assert(mid[n] != ad[k]);
                let u1 = choose|u: int| 0 <= u < ya.len() && ya[u] == mid[n];
                let u2 = choose|u: int| 0 <= u < ya.len() && ya[u] == ad[k];
                assert(u1 != u2);
            }
        }
    }
    lemma_attr_adds(mid, ad);
    let res = mid + ad;
    lemma_to_multiset_concat(mid, ad);
    assert(distinct_keys(mid));
    lemma_distinct_keys_no_dup(mid);
    lemma_distinct_keys_no_dup(ya);
    mid.lemma_multiset_has_no_duplicates();
    ya.lemma_multiset_has_no_duplicates();
    ad.lemma_multiset_has_no_duplicates();
    assert forall|v: AttrV| res.to_multiset().count(v) == ya.to_multiset().count(v) by {
        assert(res.to_multiset().count(v) == mid.to_multiset().count(v) + ad.to_multiset().count(
            v,
        ));
        if ya.contains(v) {
            assert(ya.to_multiset().count(v) == 1);
            if xa.contains(v) {
                assert(mid.contains(v));
                assert(mid.to_multiset().count(v) == 1);
                assert(!ad.contains(v));
                assert(ad.to_multiset().count(v) == 0);
            } else {
                assert(ad.contains(v));
                assert(ad.to_multiset().count(v) == 1);
                assert(!mid.contains(v));
                assert(mid.to_multiset().count(v) == 0);
            }
        } else {
            assert(ya.to_multiset().count(v) == 0);
            assert(!mid.contains(v));
            assert(!ad.contains(v));
            assert(mid.to_multiset().count(v) == 0);
            assert(ad.to_multiset().count(v) == 0);
        }
    }
    assert(res.to_multiset() =~= ya.to_multiset());
}

proof fn lemma_event_removals(cur: Seq<Event>, rm: Seq<Event>, m: Multiset<EventId>, rest: Multiset<
    EventId,
>)
    requires
        distinct_ids(cur),
        rm.no_duplicates(),
        forall|k: int| 0 <= k < rm.len() ==> cur.contains(#[trigger] rm[k]),
        m == cur.map_values(|ev: Event| ev.id).to_multiset().add(rest),
    ensures
        ({
            let res = crate::patch::apply_event_deltas(
                cur,
                rm.map_values(|e: Event| Delta::Remove(e)),
            );
            &&& distinct_ids(res)
            &&& forall|v: Event| #[trigger] res.contains(v) <==> (cur.contains(v) && !rm.contains(v))
            &&& crate::patch::commit_events(m, rm.map_values(|e: Event| Delta::Remove(e)))
                == res.map_values(|ev: Event| ev.id).to_multiset().add(rest)
        }),
    decreases rm.len(),
{
    let f = |ev: Event| ev.id;
    let ds = rm.map_values(|e: Event| Delta::Remove(e));
    if rm.len() == 0 {
        assert(crate::patch::apply_event_deltas(cur, ds) == cur);
        assert(crate::patch::commit_events(m, ds) == m);
        assert(forall|v: Event| !rm.contains(v));
    } else {
        let e = rm[0];
        assert(cur.contains(e));
        let i = choose|i: int| 0 <= i < cur.len() && cur[i] == e;
        assert(forall|n: int| 0 <= n < i ==> cur[n].id != e.id);
        crate::patch::lemma_remove_event_at(cur, e.id, i);
        assert(ds[0] == Delta::<Event>::Remove(e));
        assert(crate::patch::apply_event_delta(cur, ds[0]) == cur.remove(i));
        let cur2 = cur.remove(i);
        assert(distinct_ids(cur2)) by {
            assert forall|p: int, q: int|
                0 <= p < q < cur2.len() implies cur2[p].id != cur2[q].id by {
                if p < i {
                    assert(cur2[p] == cur[p]);
                } else {
                    assert(cur2[p] == cur[p + 1]);
                }
                if q < i {
                    assert(cur2[q] == cur[q]);
                } else {
                    assert(cur2[q] == cur[q + 1]);
                }
            }
        }
        lemma_distinct_ids_no_dup(cur);
        cur.lemma_multiset_has_no_duplicates();
        assert(cur2.to_multiset() =~= cur.to_multiset().remove(e));
        assert(forall|v: Event| #[trigger] cur2.contains(v) <==> (cur.contains(v) && v != e)) by {
            assert forall|v: Event| #[trigger] cur2.contains(v) <==> (cur.contains(v) && v != e)
            by {
                if v == e {
                    assert(cur.to_multiset().count(e) == 1);
                    assert(cur2.to_multiset().count(e) == 0);
                } else {
                    assert(cur2.to_multiset().count(v) == cur.to_multiset().count(v));
                }
            }
        }
        let mc = cur.map_values(f);
        assert(mc[i] == e.id);
        assert(mc.contains(e.id));
        assert(mc.to_multiset().count(e.id) > 0);
        assert(m.count(e.id) > 0);
        assert(crate::registry::release_one(m, e.id) == m.remove(e.id));
        let m2 = m.remove(e.id);
        assert(cur2.map_values(f) =~= mc.remove(i));
        assert(mc.remove(i).to_multiset() =~= mc.to_multiset().remove(mc[i]));
        assert forall|v: EventId|
            m2.count(v) == cur2.map_values(f).to_multiset().add(rest).count(v) by {
            if v == e.id {
                assert(m.remove(e.id).count(v) == m.count(v) - 1);
                assert(mc.to_multiset().remove(e.id).count(v) == mc.to_multiset().count(v) - 1);
            } else {
                assert(m.remove(e.id).count(v) == m.count(v));
                assert(mc.to_multiset().remove(e.id).count(v) == mc.to_multiset().count(v));
            }
        }
        assert(m2 =~= cur2.map_values(f).to_multiset().add(rest));
        let rm2 = rm.drop_first();
        assert(forall|k: int| 0 <= k < rm2.len() ==> rm2[k] == rm[k + 1]);
        assert(rm2.no_duplicates());
        assert(forall|k: int| 0 <= k < rm2.len() ==> cur2.contains(#[trigger] rm2[k])) by {
            assert forall|k: int| 0 <= k < rm2.len() implies cur2.contains(#[trigger] rm2[k]) by {
                assert(rm2[k] == rm[k + 1]);
                assert(cur.contains(rm[k + 1]));
                assert(rm[k + 1] != e);
            }
        }
        lemma_event_removals(cur2, rm2, m2, rest);
        assert(ds.drop_first() =~= rm2.map_values(|x: Event| Delta::Remove(x)));
        assert forall|v: Event|
            #[trigger] crate::patch::apply_event_deltas(cur, ds).contains(v) <==> (cur.contains(v)
                && !rm.contains(v)) by {
            lemma_contains_drop_first(rm, v);
        }
    }
}

proof fn lemma_event_adds(cur: Seq<Event>, ad: Seq<Event>, m: Multiset<EventId>, rest: Multiset<
    EventId,
>)
    requires
        m == cur.map_values(|ev: Event| ev.id).to_multiset().add(rest),
    ensures
        crate::patch::apply_event_deltas(cur, ad.map_values(|e: Event| Delta::Add(e))) == cur + ad,
        crate::patch::commit_events(m, ad.map_values(|e: Event| Delta::Add(e))) == (cur
            + ad).map_values(|ev: Event| ev.id).to_multiset().add(rest),
    decreases ad.len(),
{
    let f = |ev: Event| ev.id;
    let ds = ad.map_values(|e: Event| Delta::Add(e));
    if ad.len() == 0 {
        assert(cur + ad =~= cur);
    } else {
        let e = ad[0];
        assert(ds[0] == Delta::<Event>::Add(e));
        assert(crate::patch::apply_event_delta(cur, ds[0]) == cur.push(e));
        assert(cur.push(e).map_values(f) =~= cur.map_values(f).push(e.id));
        assert(cur.map_values(f).push(e.id).to_multiset() =~= cur.map_values(
            f,
        ).to_multiset().insert(e.id));
        assert(m.insert(e.id) =~= cur.push(e).map_values(f).to_multiset().add(rest));
        let ad2 = ad.drop_first();
        lemma_event_adds(cur.push(e), ad2, m.insert(e.id), rest);
        assert(ds.drop_first() =~= ad2.map_values(|x: Event| Delta::Add(x)));
        assert(cur.push(e) + ad2 =~= cur + ad);
    }
}

/// Binding edits computed as a set difference round-trip, and the registry
/// moves by exactly the departing and arriving identities.
pub proof fn lemma_event_round(xe: Seq<Event>, ye: Seq<Event>, m: Multiset<EventId>, rest: Multiset<
    EventId,
>)
    requires
        distinct_ids(xe),
        distinct_ids(ye),
        m == xe.map_values(|ev: Event| ev.id).to_multiset().add(rest),
    ensures
        crate::patch::apply_event_deltas(xe, seq_deltas(xe, ye)).to_multiset() == ye.to_multiset(),
        crate::patch::commit_events(m, seq_deltas(xe, ye)) == ye.map_values(
            |ev: Event| ev.id,
        ).to_multiset().add(rest),
{
    let f = |ev: Event| ev.id;
    let rm = seq_minus(xe, ye);
    let ad = seq_minus(ye, xe);
    lemma_seq_minus_props(xe, ye);
    lemma_seq_minus_props(ye, xe);
    lemma_apply_event_deltas_concat(
        xe,
        rm.map_values(|e: Event| Delta::Remove(e)),
        ad.map_values(|e: Event| Delta::Add(e)),
    );
    lemma_commit_events_concat(
        m,
        rm.map_values(|e: Event| Delta::Remove(e)),
        ad.map_values(|e: Event| Delta::Add(e)),
    );
    assert(seq_deltas(xe, ye) == rm.map_values(|e: Event| Delta::Remove(e)) + ad.map_values(
        |e: Event| Delta::Add(e),
    ));
    assert forall|k: int| 0 <= k < rm.len() implies xe.contains(#[trigger] rm[k]) by {
        assert(rm.contains(rm[k]));
    }
    lemma_event_removals(xe, rm, m, rest);
    let mid = crate::patch::apply_event_deltas(xe, rm.map_values(|e: Event| Delta::Remove(e)));
    let m_mid = crate::patch::commit_events(m, rm.map_values(|e: Event| Delta::Remove(e)));
    assert(forall|v: Event| #[trigger] mid.contains(v) <==> (xe.contains(v) && ye.contains(v)));
    lemma_event_adds(mid, ad, m_mid, rest);
    let res = mid + ad;
    lemma_to_multiset_concat(mid, ad);
    lemma_distinct_ids_no_dup(mid);
    lemma_distinct_ids_no_dup(ye);
    mid.lemma_multiset_has_no_duplicates();
    ye.lemma_multiset_has_no_duplicates();
    ad.lemma_multiset_has_no_duplicates();
    assert forall|v: Event| res.to_multiset().count(v) == ye.to_multiset().count(v) by {
        assert(res.to_multiset().count(v) == mid.to_multiset().count(v) + ad.to_multiset().count(
            v,
        ));
        if ye.contains(v) {
            assert(ye.to_multiset().count(v) == 1);
            if xe.contains(v) {
                assert(mid.contains(v));
                assert(mid.to_multiset().count(v) == 1);
                assert(!ad.contains(v));
                assert(ad.to_multiset().count(v) == 0);
            } else {
                assert(ad.contains(v));
                assert(ad.to_multiset().count(v) == 1);
                assert(!mid.contains(v));
                assert(mid.to_multiset().count(v) == 0);
            }
        } else {
            assert(ye.to_multiset().count(v) == 0);
            assert(!mid.contains(v));
            assert(!ad.contains(v));
            assert(mid.to_multiset().count(v) == 0);
            assert(ad.to_multiset().count(v) == 0);
        }
    }
    assert(res.to_multiset() =~= ye.to_multiset());
    lemma_map_ids_to_multiset(res, ye);
}

/// The removal offset after walking a child-patch list, mirroring
/// `apply_kids`.
pub open spec fn rm_after(cs: Seq<HtmlV>, ds: Seq<(int, DiffV)>, rm: int) -> int
    decreases ds,
{
    if ds.len() == 0 {
        rm
    } else {
        let j = ds[0].0 - rm;
        match ds[0].1 {
            DiffV::Unchanged => rm_after(cs, ds.drop_first(), rm),
            DiffV::Insert(n) => rm_after(cs.push(n), ds.drop_first(), rm),
            DiffV::Remove { .. } => {
                if 0 <= j < cs.len() {
                    rm_after(cs.remove(j), ds.drop_first(), rm + 1)
                } else {
                    rm_after(cs, ds.drop_first(), rm)
                }
            },
            _ => {
                if 0 <= j < cs.len() {
                    rm_after(
                        cs.update(j, crate::patch::apply_node(cs[j], ds[0].1)),
                        ds.drop_first(),
                        rm,
                    )
                } else {
                    rm_after(cs, ds.drop_first(), rm)
                }
            },
        }
    }
}

proof fn lemma_kids_split(
    cs: Seq<HtmlV>,
    d1: Seq<(int, DiffV)>,
    d2: Seq<(int, DiffV)>,
    rm: int,
    m: Multiset<EventId>,
)
    ensures
        crate::patch::apply_kids(cs, d1 + d2, rm) == crate::patch::apply_kids(
            crate::patch::apply_kids(cs, d1, rm),
            d2,
            rm_after(cs, d1, rm),
        ),
        crate::patch::commit_kids(cs, d1 + d2, rm, m) == crate::patch::commit_kids(
            crate::patch::apply_kids(cs, d1, rm),
            d2,
            rm_after(cs, d1, rm),
            crate::patch::commit_kids(cs, d1, rm, m),
        ),
    decreases d1.len(),
{
    if d1.len() == 0 {
        assert(d1 + d2 =~= d2);
    } else {
        assert((d1 + d2)[0] == d1[0]);
        assert((d1 + d2).drop_first() =~= d1.drop_first() + d2);
        let j = d1[0].0 - rm;
        match d1[0].1 {
            DiffV::Unchanged => {
                lemma_kids_split(cs, d1.drop_first(), d2, rm, m);
            },
            DiffV::Insert(n) => {
                lemma_kids_split(
                    cs.push(n),
                    d1.drop_first(),
                    d2,
                    rm,
                    crate::patch::stash_all(m, ids_of(n)),
                );
            },
            DiffV::Remove { events_to_rm } => {
                if 0 <= j < cs.len() {
                    lemma_kids_split(
                        cs.remove(j),
                        d1.drop_first(),
                        d2,
                        rm + 1,
                        crate::patch::release_all(m, events_to_rm),
                    );
                } else {
                    lemma_kids_split(cs, d1.drop_first(), d2, rm, m);
                }
            },
            _ => {
                if 0 <= j < cs.len() {
                    lemma_kids_split(
                        cs.update(j, crate::patch::apply_node(cs[j], d1[0].1)),
                        d1.drop_first(),
                        d2,
                        rm,
                        crate::patch::commit_node(cs[j], d1[0].1, m),
                    );
                } else {
                    lemma_kids_split(cs, d1.drop_first(), d2, rm, m);
                }
            },
        }
    }
}

/// Splitting a children list splits its identities.
pub proof fn lemma_ids_kids_concat(s: Seq<HtmlV>, t: Seq<HtmlV>)
    ensures
        ids_kids(s + t) == ids_kids(s) + ids_kids(t),
    decreases s,
{
    if s.len() == 0 {
        assert(s + t =~= t);
        assert(ids_kids(s) =~= Seq::<EventId>::empty());
        assert(Seq::<EventId>::empty() + ids_kids(t) =~= ids_kids(t));
    } else {
        assert((s + t)[0] == s[0]);
        assert((s + t).drop_first() =~= s.drop_first() + t);
        lemma_ids_kids_concat(s.drop_first(), t);
        assert(ids_kids(s + t) == ids_of(s[0]) + (ids_kids(s.drop_first()) + ids_kids(t)));
        assert(ids_of(s[0]) + (ids_kids(s.drop_first()) + ids_kids(t)) =~= (ids_of(s[0])
            + ids_kids(s.drop_first())) + ids_kids(t));
    }
}

/// Empty set differences both ways mean one multiset, given each list has
/// no duplicates.
proof fn lemma_minus_empty_mset<A>(xs: Seq<A>, ys: Seq<A>)
    requires
        seq_minus(xs, ys) == Seq::<A>::empty(),
        seq_minus(ys, xs) == Seq::<A>::empty(),
        xs.no_duplicates(),
        ys.no_duplicates(),
    ensures
        xs.to_multiset() == ys.to_multiset(),
{
    lemma_seq_minus_props(xs, ys);
    lemma_seq_minus_props(ys, xs);
    xs.lemma_multiset_has_no_duplicates();
    ys.lemma_multiset_has_no_duplicates();
    assert forall|v: A| xs.to_multiset().count(v) == ys.to_multiset().count(v) by {
        if xs.contains(v) {
            assert(!seq_minus(xs, ys).contains(v));
            assert(ys.contains(v));
            assert(xs.to_multiset().count(v) == 1);
            assert(ys.to_multiset().count(v) == 1);
        } else if ys.contains(v) {
            assert(!seq_minus(ys, xs).contains(v));
            assert(xs.contains(v));
        } else {
            assert(xs.to_multiset().count(v) == 0);
            assert(ys.to_multiset().count(v) == 0);
        }
    }
    assert(xs.to_multiset() =~= ys.to_multiset());
}

proof fn round_inserts(cs: Seq<HtmlV>, nc: Seq<HtmlV>, i: int, rm: int, m: Multiset<EventId>)
    requires
        0 <= i <= nc.len(),
    ensures
        crate::patch::apply_kids(cs, tail_inserts(nc, i), rm) == cs + nc.skip(i),
        crate::patch::commit_kids(cs, tail_inserts(nc, i), rm, m) == m.add(
            ids_kids(nc.skip(i)).to_multiset(),
        ),
    decreases nc.len() - i,
{
    if i == nc.len() {
        assert(tail_inserts(nc, i) == Seq::<(int, DiffV)>::empty());
        assert(nc.skip(i) =~= Seq::<HtmlV>::empty());
        assert(cs + nc.skip(i) =~= cs);
        assert(ids_kids(nc.skip(i)) =~= Seq::<EventId>::empty());
        assert(ids_kids(nc.skip(i)).to_multiset().len() == 0);
        assert(ids_kids(nc.skip(i)).to_multiset() =~= Multiset::<EventId>::empty());
        assert(m.add(Multiset::<EventId>::empty()) =~= m);
    } else {
        let ds = tail_inserts(nc, i);
        assert(ds == seq![(i, DiffV::Insert(nc[i]))] + tail_inserts(nc, i + 1));
        assert(ds[0] == (i, DiffV::Insert(nc[i])));
        assert(ds.drop_first() =~= tail_inserts(nc, i + 1));
        lemma_stash_all(m, ids_of(nc[i]));
        round_inserts(cs.push(nc[i]), nc, i + 1, rm, m.add(ids_of(nc[i]).to_multiset()));
        assert(cs.push(nc[i]) + nc.skip(i + 1) =~= cs + nc.skip(i));
        assert(nc.skip(i)[0] == nc[i]);
        assert(nc.skip(i).drop_first() =~= nc.skip(i + 1));
        assert(ids_kids(nc.skip(i)) == ids_of(nc[i]) + ids_kids(nc.skip(i + 1)));
        lemma_to_multiset_concat(ids_of(nc[i]), ids_kids(nc.skip(i + 1)));
        assert(m.add(ids_of(nc[i]).to_multiset()).add(ids_kids(nc.skip(i + 1)).to_multiset())
            =~= m.add(ids_kids(nc.skip(i)).to_multiset()));
    }
}

proof fn round_removes(
    cs: Seq<HtmlV>,
    oc: Seq<HtmlV>,
    base: int,
    i: int,
    m: Multiset<EventId>,
    rest: Multiset<EventId>,
)
    requires
        0 <= base <= i <= oc.len(),
        cs.len() == base + (oc.len() - i),
        forall|k: int| 0 <= k < oc.len() - i ==> #[trigger] cs[base + k] == oc[i + k],
        m == ids_kids(oc.skip(i)).to_multiset().add(rest),
    ensures
        crate::patch::apply_kids(cs, tail_removes(oc, i), i - base) == cs.take(base),
        crate::patch::commit_kids(cs, tail_removes(oc, i), i - base, m) == rest,
    decreases oc.len() - i,
{
    if i == oc.len() {
        assert(tail_removes(oc, i) == Seq::<(int, DiffV)>::empty());
        assert(cs.take(base) =~= cs);
        assert(oc.skip(i) =~= Seq::<HtmlV>::empty());
        assert(ids_kids(oc.skip(i)) =~= Seq::<EventId>::empty());
        assert(ids_kids(oc.skip(i)).to_multiset().len() == 0);
        assert(ids_kids(oc.skip(i)).to_multiset() =~= Multiset::<EventId>::empty());
        assert(m =~= rest);
    } else {
        let ds = tail_removes(oc, i);
        assert(ds == seq![(i, DiffV::Remove { events_to_rm: ids_of(oc[i]) })] + tail_removes(
            oc,
            i + 1,
        ));
        assert(ds[0] == (i, DiffV::Remove { events_to_rm: ids_of(oc[i]) }));
        assert(ds.drop_first() =~= tail_removes(oc, i + 1));
        let j = i - (i - base);
        assert(j == base);
        assert(0 <= j < cs.len());
        assert(oc.skip(i)[0] == oc[i]);
        assert(oc.skip(i).drop_first() =~= oc.skip(i + 1));
        assert(ids_kids(oc.skip(i)) == ids_of(oc[i]) + ids_kids(oc.skip(i + 1)));
        lemma_to_multiset_concat(ids_of(oc[i]), ids_kids(oc.skip(i + 1)));
        assert(m =~= ids_of(oc[i]).to_multiset().add(
            ids_kids(oc.skip(i + 1)).to_multiset().add(rest),
        ));
        lemma_release_all_exact(
            m,
            ids_of(oc[i]),
            ids_kids(oc.skip(i + 1)).to_multiset().add(rest),
        );
        let cs2 = cs.remove(base);
        assert(cs2.len() == base + (oc.len() - (i + 1)));
        assert(forall|k: int|
            0 <= k < oc.len() - (i + 1) ==> #[trigger] cs2[base + k] == oc[i + 1 + k]) by {
            cs.remove_ensures(base);
            assert forall|k: int|
                0 <= k < oc.len() - (i + 1) implies #[trigger] cs2[base + k] == oc[i + 1 + k] by {
                assert(cs2[base + k] == cs[base + k + 1]);
                assert(cs[base + (k + 1)] == oc[i + (k + 1)]);
            }
        }
        round_removes(
            cs2,
            oc,
            base,
            i + 1,
            crate::patch::release_all(m, ids_of(oc[i])),
            rest,
        );
        assert(cs2.take(base) =~= cs.take(base));
    }
}

proof fn round_pairs(
    cs: Seq<HtmlV>,
    sa: Seq<HtmlV>,
    sb: Seq<HtmlV>,
    at: int,
    m: Multiset<EventId>,
    rest: Multiset<EventId>,
)
    requires
        0 <= at,
        at + sa.len() == cs.len(),
        forall|k: int| 0 <= k < sa.len() ==> #[trigger] cs[at + k] == sa[k],
        wf_kids(sa),
        wf_kids(sb),
        m == ids_kids(sa).to_multiset().add(rest),
    ensures
        ({
            let mn = if sa.len() <= sb.len() {
                sa.len() as int
            } else {
                sb.len() as int
            };
            let ds = diff_pairs(sa, sb, at);
            let res = crate::patch::apply_kids(cs, ds, 0);
            &&& res.len() == cs.len()
            &&& forall|k: int| 0 <= k < at ==> #[trigger] res[k] == cs[k]
            &&& forall|k: int| 0 <= k < mn ==> obs_eq(#[trigger] res[at + k], sb[k])
            &&& forall|k: int| mn <= k < sa.len() ==> #[trigger] res[at + k] == sa[k]
            &&& rm_after(cs, ds, 0) == 0
            &&& crate::patch::commit_kids(cs, ds, 0, m) == ids_kids(
                sb.take(mn),
            ).to_multiset().add(ids_kids(sa.skip(mn)).to_multiset()).add(rest)
        }),
    decreases sa, 0int,
{
    let mn = if sa.len() <= sb.len() {
        sa.len() as int
    } else {
        sb.len() as int
    };
    if sa.len() == 0 || sb.len() == 0 {
        assert(mn == 0);
        let ds = diff_pairs(sa, sb, at);
        assert(ds == Seq::<(int, DiffV)>::empty());
        assert(crate::patch::apply_kids(cs, ds, 0) == cs);
        assert(crate::patch::commit_kids(cs, ds, 0, m) == m);
        assert(rm_after(cs, ds, 0) == 0);
        assert(sb.take(0) =~= Seq::<HtmlV>::empty());
        assert(ids_kids(sb.take(0)) =~= Seq::<EventId>::empty());
        assert(ids_kids(sb.take(0)).to_multiset().len() == 0);
        assert(sa.skip(0) =~= sa);
        assert(m =~= ids_kids(sb.take(0)).to_multiset().add(ids_kids(sa).to_multiset()).add(
            rest,
        ));
    } else {
        let a0 = sa[0];
        let b0 = sb[0];
        let sa2 = sa.drop_first();
        let sb2 = sb.drop_first();
        assert(wf_html(a0) && wf_kids(sa2));
        assert(wf_html(b0) && wf_kids(sb2));
        assert(ids_kids(sa) == ids_of(a0) + ids_kids(sa2));
        lemma_to_multiset_concat(ids_of(a0), ids_kids(sa2));
        let r2 = ids_kids(sa2).to_multiset().add(rest);
        assert(m =~= ids_of(a0).to_multiset().add(r2));
        round_node(a0, b0, m, r2);
        let d = spec_diff(a0, b0);
        assert(forall|k: int| 0 <= k < sa2.len() ==> #[trigger] cs[at + 1 + k] == sa2[k]) by {
            assert forall|k: int|
                0 <= k < sa2.len() implies #[trigger] cs[at + 1 + k] == sa2[k] by {
                assert(cs[at + (k + 1)] == sa[k + 1]);
            }
        }
        if d == DiffV::Unchanged {
            let ds = diff_pairs(sa, sb, at);
            assert(ds == Seq::<(int, DiffV)>::empty() + diff_pairs(sa2, sb2, at + 1));
            assert(ds =~= diff_pairs(sa2, sb2, at + 1));
            let rest2 = rest.add(ids_of(a0).to_multiset());
            assert(m == ids_kids(sa2).to_multiset().add(rest2)) by {
                assert(m =~= ids_kids(sa2).to_multiset().add(rest2));
            }
            round_pairs(cs, sa2, sb2, at + 1, m, rest2);
            let res = crate::patch::apply_kids(cs, ds, 0);
            assert(obs_eq(a0, b0));
            assert(res[at] == cs[at]);
            assert(cs[at + 0] == sa[0]);
            assert forall|k: int| 0 <= k < mn implies obs_eq(#[trigger] res[at + k], sb[k]) by {
                if k == 0 {
                    assert(res[at] == a0);
                } else {
                    assert(res[(at + 1) + (k - 1)] == res[at + k]);
                    assert(sb2[k - 1] == sb[k]);
                }
            }
            assert forall|k: int| mn <= k < sa.len() implies #[trigger] res[at + k] == sa[k] by {
                assert(res[(at + 1) + (k - 1)] == res[at + k]);
                assert(sa2[k - 1] == sa[k]);
            }
            lemma_obs_eq_ids(a0, b0);
            let mn2 = mn - 1;
            assert(sb.take(mn) =~= seq![b0] + sb2.take(mn2));
            assert(seq![b0].drop_first() =~= Seq::<HtmlV>::empty());
            assert(ids_kids(seq![b0]) == ids_of(b0) + ids_kids(Seq::<HtmlV>::empty()));
            assert(ids_kids(seq![b0]) =~= ids_of(b0));
            lemma_ids_kids_concat(seq![b0], sb2.take(mn2));
            lemma_to_multiset_concat(ids_of(b0), ids_kids(sb2.take(mn2)));
            assert(sa.skip(mn) =~= sa2.skip(mn2));
            assert(crate::patch::commit_kids(cs, ds, 0, m) =~= ids_kids(
                sb.take(mn),
            ).to_multiset().add(ids_kids(sa.skip(mn)).to_multiset()).add(rest));
        } else {
            assert(match d {
                DiffV::Insert(_) => false,
                DiffV::Remove { .. } => false,
                _ => true,
            });
            let hd = (at, d);
            let ds = diff_pairs(sa, sb, at);
            assert(ds == seq![hd] + diff_pairs(sa2, sb2, at + 1));
            assert(ds[0] == hd);
            assert(ds.drop_first() =~= diff_pairs(sa2, sb2, at + 1));
            assert(0 <= at < cs.len());
            assert(cs[at + 0] == sa[0]);
            let cs2 = cs.update(at, crate::patch::apply_node(cs[at], d));
            assert(crate::patch::apply_kids(cs, ds, 0) == crate::patch::apply_kids(
                cs2,
                ds.drop_first(),
                0,
            ));
            let m2 = crate::patch::commit_node(a0, d, m);
            assert(crate::patch::commit_kids(cs, ds, 0, m) == crate::patch::commit_kids(
                cs2,
                ds.drop_first(),
                0,
                m2,
            ));
            assert(rm_after(cs, ds, 0) == rm_after(cs2, ds.drop_first(), 0));
            assert(m2 == ids_of(b0).to_multiset().add(r2));
            let rest2 = rest.add(ids_of(b0).to_multiset());
            assert(m2 == ids_kids(sa2).to_multiset().add(rest2)) by {
                assert(m2 =~= ids_kids(sa2).to_multiset().add(rest2));
            }
            assert(forall|k: int| 0 <= k < sa2.len() ==> #[trigger] cs2[at + 1 + k] == sa2[k])
                by {
                assert forall|k: int|
                    0 <= k < sa2.len() implies #[trigger] cs2[at + 1 + k] == sa2[k] by {
                    assert(cs2[at + 1 + k] == cs[at + 1 + k]);
                }
            }
            round_pairs(cs2, sa2, sb2, at + 1, m2, rest2);
            let res = crate::patch::apply_kids(cs, ds, 0);
            assert(res[at] == cs2[at]);
            assert(cs2[at] == crate::patch::apply_node(a0, d));
            assert forall|k: int| 0 <= k < mn implies obs_eq(#[trigger] res[at + k], sb[k]) by {
                if k == 0 {
                    assert(res[at] == crate::patch::apply_node(a0, d));
                } else {
                    assert(res[(at + 1) + (k - 1)] == res[at + k]);
                    assert(sb2[k - 1] == sb[k]);
                }
            }
            assert forall|k: int| mn <= k < sa.len() implies #[trigger] res[at + k] == sa[k] by {
                assert(res[(at + 1) + (k - 1)] == res[at + k]);
                assert(sa2[k - 1] == sa[k]);
            }
            assert forall|k: int| 0 <= k < at implies #[trigger] res[k] == cs[k] by {
                assert(res[k] == cs2[k]);
            }
            let mn2 = mn - 1;
            assert(sb.take(mn) =~= seq![b0] + sb2.take(mn2));
            assert(seq![b0].drop_first() =~= Seq::<HtmlV>::empty());
            assert(ids_kids(seq![b0]) == ids_of(b0) + ids_kids(Seq::<HtmlV>::empty()));
            assert(ids_kids(seq![b0]) =~= ids_of(b0));
            lemma_ids_kids_concat(seq![b0], sb2.take(mn2));
            lemma_to_multiset_concat(ids_of(b0), ids_kids(sb2.take(mn2)));
            assert(sa.skip(mn) =~= sa2.skip(mn2));
            assert(crate::patch::commit_kids(cs, ds, 0, m) =~= ids_kids(
                sb.take(mn),
            ).to_multiset().add(ids_kids(sa.skip(mn)).to_multiset()).add(rest));
        }
    }
}

proof fn round_node(a: HtmlV, b: HtmlV, m: Multiset<EventId>, rest: Multiset<EventId>)
    requires
        wf_html(a),
        wf_html(b),
        m == ids_of(a).to_multiset().add(rest),
    ensures
        obs_eq(crate::patch::apply_node(a, spec_diff(a, b)), b),
        crate::patch::commit_node(a, spec_diff(a, b), m) == ids_of(b).to_multiset().add(rest),
    decreases a, 1int,
{
    let d = spec_diff(a, b);
    match (a, b) {
        (HtmlV::Text(s), HtmlV::Text(t)) => {
            if s == t {
                assert(ids_of(a).to_multiset().len() == 0);
                assert(ids_of(b).to_multiset().len() == 0);
                assert(crate::patch::commit_node(a, d, m) =~= ids_of(b).to_multiset().add(rest));
            } else {
                lemma_obs_refl(b);
                lemma_stash_all(m, ids_of(b));
                assert(crate::patch::release_all(m, Seq::<EventId>::empty()) == m);
                assert(ids_of(a).to_multiset().len() == 0);
                assert(crate::patch::commit_node(a, d, m) =~= ids_of(b).to_multiset().add(rest));
            }
        },
        (HtmlV::Text(_), HtmlV::Element(_)) => {
            lemma_obs_refl(b);
            lemma_stash_all(m, ids_of(b));
            assert(crate::patch::release_all(m, Seq::<EventId>::empty()) == m);
            assert(ids_of(a).to_multiset().len() == 0);
            assert(crate::patch::commit_node(a, d, m) =~= ids_of(b).to_multiset().add(rest));
        },
        (HtmlV::Element(_), HtmlV::Text(_)) => {
            lemma_obs_refl(b);
            lemma_release_all_exact(m, ids_of(a), rest);
            lemma_stash_all(rest, ids_of(b));
            assert(crate::patch::commit_node(a, d, m) =~= ids_of(b).to_multiset().add(rest));
        },
        (HtmlV::Element(x), HtmlV::Element(y)) => {
            if x.tag != y.tag {
                lemma_obs_refl(b);
                lemma_release_all_exact(m, ids_of(a), rest);
                lemma_stash_all(rest, ids_of(b));
                assert(crate::patch::commit_node(a, d, m) =~= ids_of(b).to_multiset().add(rest));
            } else {
                let xc = x.children;
                let yc = y.children;
                let ads = seq_deltas(x.attrs, y.attrs);
                let eds = seq_deltas(x.events, y.events);
                let cds = diff_children(xc, yc);
                assert(distinct_keys(x.attrs) && distinct_ids(x.events) && wf_kids(xc));
                assert(distinct_keys(y.attrs) && distinct_ids(y.events) && wf_kids(yc));
                let f = |ev: Event| ev.id;
                let evx = x.events.map_values(f);
                let evy = y.events.map_values(f);
                assert(ids_of(a) == evx + ids_kids(xc));
                assert(ids_of(b) == evy + ids_kids(yc));
                lemma_to_multiset_concat(evx, ids_kids(xc));
                lemma_to_multiset_concat(evy, ids_kids(yc));
                if ads.len() == 0 && eds.len() == 0 && cds.len() == 0 {
                    assert(d == DiffV::Unchanged);
                    assert(seq_minus(x.attrs, y.attrs).len() == 0);
                    assert(seq_minus(x.attrs, y.attrs) =~= Seq::<AttrV>::empty());
                    assert(seq_minus(y.attrs, x.attrs).len() == 0);
                    assert(seq_minus(y.attrs, x.attrs) =~= Seq::<AttrV>::empty());
                    lemma_distinct_keys_no_dup(x.attrs);
                    lemma_distinct_keys_no_dup(y.attrs);
                    lemma_minus_empty_mset(x.attrs, y.attrs);
                    assert(seq_minus(x.events, y.events).len() == 0);
                    assert(seq_minus(x.events, y.events) =~= Seq::<Event>::empty());
                    assert(seq_minus(y.events, x.events).len() == 0);
                    assert(seq_minus(y.events, x.events) =~= Seq::<Event>::empty());
                    lemma_distinct_ids_no_dup(x.events);
                    lemma_distinct_ids_no_dup(y.events);
                    lemma_minus_empty_mset(x.events, y.events);
                    assert(diff_pairs(xc, yc, 0).len() == 0);
                    assert(diff_pairs(xc, yc, 0) == Seq::<(int, DiffV)>::empty());
                    assert(diff_tail(xc, yc).len() == 0);
                    if yc.len() > xc.len() {
                        assert(diff_tail(xc, yc) == tail_inserts(yc, xc.len() as int));
                        assert(tail_inserts(yc, xc.len() as int).len() >= 1);
                        assert(false);
                    }
                    if xc.len() > yc.len() {
                        assert(diff_tail(xc, yc) == tail_removes(xc, yc.len() as int));
                        assert(tail_removes(xc, yc.len() as int).len() >= 1);
                        assert(false);
                    }
                    assert(xc.len() == yc.len());
                    let mm = ids_kids(xc).to_multiset().add(Multiset::<EventId>::empty());
                    assert(mm == ids_kids(xc).to_multiset().add(Multiset::<EventId>::empty()));
                    round_pairs(xc, xc, yc, 0, mm, Multiset::<EventId>::empty());
                    let res = crate::patch::apply_kids(xc, diff_pairs(xc, yc, 0), 0);
                    assert(res == xc);
                    assert(forall|k: int| 0 <= k < xc.len() ==> obs_eq(#[trigger] xc[k], yc[k]))
                        by {
                        assert forall|k: int|
                            0 <= k < xc.len() implies obs_eq(#[trigger] xc[k], yc[k]) by {
                            assert(res[0 + k] == xc[k]);
                            assert(obs_eq(res[0 + k], yc[k]));
                        }
                    }
                    lemma_obs_kids(xc, yc);
                    assert(obs_eq(a, b));
                    lemma_obs_eq_ids(a, b);
                    assert(crate::patch::commit_node(a, d, m) == m);
                    assert(m =~= ids_of(b).to_multiset().add(rest));
                } else {
                    assert(d == DiffV::Update { attrs: ads, events: eds, children: cds });
                    lemma_attr_round(x.attrs, y.attrs);
                    let reste = ids_kids(xc).to_multiset().add(rest);
                    assert(m == evx.to_multiset().add(reste)) by {
                        assert(m =~= evx.to_multiset().add(reste));
                    }
                    lemma_event_round(x.events, y.events, m, reste);
                    let m_e = crate::patch::commit_events(m, eds);
                    assert(m_e == evy.to_multiset().add(reste));
                    let restk = evy.to_multiset().add(rest);
                    assert(m_e == ids_kids(xc).to_multiset().add(restk)) by {
                        assert(m_e =~= ids_kids(xc).to_multiset().add(restk));
                    }
                    let pairs = diff_pairs(xc, yc, 0);
                    let tail = diff_tail(xc, yc);
                    assert(cds == pairs + tail);
                    round_pairs(xc, xc, yc, 0, m_e, restk);
                    let mn = if xc.len() <= yc.len() {
                        xc.len() as int
                    } else {
                        yc.len() as int
                    };
                    let pp = crate::patch::apply_kids(xc, pairs, 0);
                    let mp = crate::patch::commit_kids(xc, pairs, 0, m_e);
                    assert(mp == ids_kids(yc.take(mn)).to_multiset().add(
                        ids_kids(xc.skip(mn)).to_multiset(),
                    ).add(restk));
                    lemma_kids_split(xc, pairs, tail, 0, m_e);
                    assert(rm_after(xc, pairs, 0) == 0);
                    let cfinal = crate::patch::apply_kids(xc, cds, 0);
                    let mfinal = crate::patch::commit_kids(xc, cds, 0, m_e);
                    assert(cfinal == crate::patch::apply_kids(pp, tail, 0));
                    assert(mfinal == crate::patch::commit_kids(pp, tail, 0, mp));
                    if yc.len() > xc.len() {
                        assert(mn == xc.len() as int);
                        assert(tail == tail_inserts(yc, xc.len() as int));
                        round_inserts(pp, yc, xc.len() as int, 0, mp);
                        assert(cfinal == pp + yc.skip(xc.len() as int));
                        assert(cfinal.len() == yc.len());
                        assert forall|k: int|
                            0 <= k < yc.len() implies obs_eq(#[trigger] cfinal[k], yc[k]) by {
                            if k < xc.len() {
                                assert(cfinal[k] == pp[k]);
                                assert(pp[0 + k] == pp[k]);
                                assert(obs_eq(pp[0 + k], yc[k]));
                            } else {
                                assert(cfinal[k] == yc.skip(xc.len() as int)[k - xc.len()]);
                                assert(cfinal[k] == yc[k]);
                                lemma_obs_refl(yc[k]);
                            }
                        }
                        lemma_obs_kids(cfinal, yc);
                        assert(yc =~= yc.take(mn) + yc.skip(mn));
                        lemma_ids_kids_concat(yc.take(mn), yc.skip(mn));
                        lemma_to_multiset_concat(ids_kids(yc.take(mn)), ids_kids(yc.skip(mn)));
                        assert(xc.skip(mn) =~= Seq::<HtmlV>::empty());
                        assert(ids_kids(xc.skip(mn)) =~= Seq::<EventId>::empty());
                        assert(ids_kids(xc.skip(mn)).to_multiset().len() == 0);
                        assert(mfinal =~= ids_of(b).to_multiset().add(rest));
                    } else {
                        assert(mn == yc.len() as int);
                        assert(tail == tail_removes(xc, yc.len() as int));
                        assert(yc.take(mn) =~= yc);
                        let restr = ids_kids(yc).to_multiset().add(restk);
                        assert(mp == ids_kids(xc.skip(mn)).to_multiset().add(restr)) by {
                            assert(mp =~= ids_kids(xc.skip(mn)).to_multiset().add(restr));
                        }
                        assert(forall|k: int|
                            0 <= k < xc.len() - mn ==> #[trigger] pp[mn + k] == xc[mn + k]) by {
                            assert forall|k: int|
                                0 <= k < xc.len() - mn implies #[trigger] pp[mn + k] == xc[mn
                                + k] by {
                                assert(pp[0 + (mn + k)] == xc[mn + k]);
                            }
                        }
                        round_removes(pp, xc, mn, mn, mp, restr);
                        assert(cfinal == pp.take(mn));
                        assert(cfinal.len() == yc.len());
                        assert forall|k: int|
                            0 <= k < yc.len() implies obs_eq(#[trigger] cfinal[k], yc[k]) by {
                            assert(cfinal[k] == pp[k]);
                            assert(pp[0 + k] == pp[k]);
                            assert(obs_eq(pp[0 + k], yc[k]));
                        }
                        lemma_obs_kids(cfinal, yc);
                        assert(mfinal == restr);
                        assert(mfinal =~= ids_of(b).to_multiset().add(rest));
                    }
                    let anew = crate::patch::apply_node(a, d);
                    assert(anew == HtmlV::Element(
                        ElemV {
                            tag: x.tag,
                            attrs: crate::patch::apply_attr_deltas(x.attrs, ads),
                            events: crate::patch::apply_event_deltas(x.events, eds),
                            children: cfinal,
                        },
                    ));
                    assert(obs_eq(anew, b));
                    assert(crate::patch::commit_node(a, d, m) == mfinal);
                }
            }
        },
    }
}

/// Applying the diff of two well-formed trees to the first tree, with the
/// registry holding exactly that tree's binding occurrences, yields a tree
/// observationally equal to the second, and a registry holding exactly the
/// second tree's binding occurrences.
pub proof fn lemma_patch_round_trip(a: HtmlV, b: HtmlV, m: Multiset<EventId>)
    requires
        wf_html(a),
        wf_html(b),
        m == ids_of(a).to_multiset(),
    ensures
        obs_eq(crate::patch::apply_node(a, spec_diff(a, b)), b),
        crate::patch::commit_node(a, spec_diff(a, b), m) == ids_of(b).to_multiset(),
{
    assert(m == ids_of(a).to_multiset().add(Multiset::<EventId>::empty())) by {
        assert(m =~= ids_of(a).to_multiset().add(Multiset::<EventId>::empty()));
    }
    round_node(a, b, m, Multiset::<EventId>::empty());
    assert(ids_of(b).to_multiset().add(Multiset::<EventId>::empty()) =~= ids_of(
        b,
    ).to_multiset());
}

} // verus!
