//! The diff engine: a pure, total, deterministic comparison of two virtual
//! trees into a patch description. Children are compared positionally
//! (index against index, no keyed matching): appends and truncations at the
//! tail patch cheaply, reorderings fall back to per-index rewrites.
use vstd::prelude::*;

use crate::html::{attr_view, AttrV, Attribute};
use crate::vdom::{
    children_view, html_view, ids_of, lemma_children_view, attrs_view, clone_html, Event, EventId,
    Html, HtmlV,
};

verus! {

/// One attribute or event-binding edit.
#[derive(Debug, PartialEq)]
pub enum Delta<T> {
    Add(T),
    Remove(T),
}

/// The described difference between two virtual trees at one position.
/// A patch is computed for one specific pair of trees and consumed once.
#[derive(Debug, PartialEq)]
pub enum Diff {
    Unchanged,
    Insert(Html),
    Replace { with: Html, events_to_rm: Vec<EventId> },
    Remove { events_to_rm: Vec<EventId> },
    Update {
        attrs: Vec<Delta<Attribute>>,
        events: Vec<Delta<Event>>,
        children: Vec<(usize, Diff)>,
    },
}

/// Mathematical model of a patch.
#[verifier::ext_equal]
pub enum DiffV {
    Unchanged,
    Insert(HtmlV),
    Replace { with: HtmlV, events_to_rm: Seq<EventId> },
    Remove { events_to_rm: Seq<EventId> },
    Update {
        attrs: Seq<Delta<AttrV>>,
        events: Seq<Delta<Event>>,
        children: Seq<(int, DiffV)>,
    },
}

pub open spec fn deltas_view(s: Seq<Delta<Attribute>>) -> Seq<Delta<AttrV>> {
    s.map_values(
        |d: Delta<Attribute>|
            match d {
                Delta::Add(a) => Delta::Add(attr_view(a)),
                Delta::Remove(a) => Delta::Remove(attr_view(a)),
            },
    )
}

pub open spec fn diff_view(d: Diff) -> DiffV
    decreases d,
{
    match d {
        Diff::Unchanged => DiffV::Unchanged,
        Diff::Insert(h) => DiffV::Insert(html_view(h)),
        Diff::Replace { with, events_to_rm } => DiffV::Replace {
            with: html_view(with),
            events_to_rm: events_to_rm@,
        },
        Diff::Remove { events_to_rm } => DiffV::Remove { events_to_rm: events_to_rm@ },
        Diff::Update { attrs, events, children } => DiffV::Update {
            attrs: deltas_view(attrs@),
            events: events@,
            children: diffs_view(children@),
        },
    }
}

pub open spec fn diffs_view(s: Seq<(usize, Diff)>) -> Seq<(int, DiffV)>
    decreases s,
{
    if s.len() == 0 {
        Seq::empty()
    } else {
        seq![(s[0].0 as int, diff_view(s[0].1))] + diffs_view(s.drop_first())
    }
}

impl View for Diff {
    type V = DiffV;

    open spec fn view(&self) -> DiffV {
        diff_view(*self)
    }
}

/// The model of a child-patch list is the list of entry models.
pub proof fn lemma_diffs_view(s: Seq<(usize, Diff)>)
    ensures
        diffs_view(s).len() == s.len(),
        forall|k: int|
            0 <= k < s.len() ==> diffs_view(s)[k] == (s[k].0 as int, diff_view(s[k].1)),
    decreases s,
{
    if s.len() > 0 {
        lemma_diffs_view(s.drop_first());
    }
}

/// The elements of `xs` that do not occur in `excl`, first occurrences
/// only, in `xs` order: the set difference the diff engine uses.
pub open spec fn seq_minus<A>(xs: Seq<A>, excl: Seq<A>) -> Seq<A>
    decreases xs,
{
    if xs.len() == 0 {
        Seq::empty()
    } else if excl.contains(xs[0]) {
        seq_minus(xs.drop_first(), excl)
    } else {
        seq![xs[0]] + seq_minus(xs.drop_first(), excl.push(xs[0]))
    }
}

/// Attribute or binding edits between two lists read as sets: what left,
/// then what arrived.
pub open spec fn seq_deltas<A>(old: Seq<A>, new: Seq<A>) -> Seq<Delta<A>> {
    seq_minus(old, new).map_values(|a: A| Delta::Remove(a)) + seq_minus(new, old).map_values(
        |a: A| Delta::Add(a),
    )
}

/// The positional diff of two trees, as the contract states it.
pub open spec fn spec_diff(a: HtmlV, b: HtmlV) -> DiffV
    decreases a, 1int,
{
    match (a, b) {
        (HtmlV::Text(s), HtmlV::Text(t)) => {
            if s == t {
                DiffV::Unchanged
            } else {
                DiffV::Replace { with: b, events_to_rm: Seq::empty() }
            }
        },
        (HtmlV::Text(_), HtmlV::Element(_)) => DiffV::Replace {
            with: b,
            events_to_rm: Seq::empty(),
        },
        (HtmlV::Element(_), HtmlV::Text(_)) => DiffV::Replace { with: b, events_to_rm: ids_of(a) },
        (HtmlV::Element(x), HtmlV::Element(y)) => {
            if x.tag != y.tag {
                DiffV::Replace { with: b, events_to_rm: ids_of(a) }
            } else {
                let attrs = seq_deltas(x.attrs, y.attrs);
                let events = seq_deltas(x.events, y.events);
                let children = diff_children(x.children, y.children);
                if attrs.len() == 0 && events.len() == 0 && children.len() == 0 {
                    DiffV::Unchanged
                } else {
                    DiffV::Update { attrs, events, children }
                }
            }
        },
    }
}

/// Child patches: the changed positional pairs, then the tail of inserts
/// or removals, ordered by index.
pub open spec fn diff_children(oc: Seq<HtmlV>, nc: Seq<HtmlV>) -> Seq<(int, DiffV)>
    decreases oc, 1int, 0int,
{
    diff_pairs(oc, nc, 0) + diff_tail(oc, nc)
}

pub open spec fn diff_pairs(oc: Seq<HtmlV>, nc: Seq<HtmlV>, at: int) -> Seq<(int, DiffV)>
    decreases oc, 0int, 0int,
{
    if oc.len() == 0 || nc.len() == 0 {
        Seq::empty()
    } else {
        let d = spec_diff(oc[0], nc[0]);
        (if d == DiffV::Unchanged {
            Seq::<(int, DiffV)>::empty()
        } else {
            seq![(at, d)]
        }) + diff_pairs(oc.drop_first(), nc.drop_first(), at + 1)
    }
}

pub open spec fn diff_tail(oc: Seq<HtmlV>, nc: Seq<HtmlV>) -> Seq<(int, DiffV)> {
    if nc.len() > oc.len() {
        tail_inserts(nc, oc.len() as int)
    } else {
        tail_removes(oc, nc.len() as int)
    }
}

pub open spec fn tail_inserts(nc: Seq<HtmlV>, i: int) -> Seq<(int, DiffV)>
    decreases nc.len() - i,
{
    if i < 0 || i >= nc.len() {
        Seq::empty()
    } else {
        seq![(i, DiffV::Insert(nc[i]))] + tail_inserts(nc, i + 1)
    }
}

pub open spec fn tail_removes(oc: Seq<HtmlV>, i: int) -> Seq<(int, DiffV)>
    decreases oc.len() - i,
{
    if i < 0 || i >= oc.len() {
        Seq::empty()
    } else {
        seq![(i, DiffV::Remove { events_to_rm: ids_of(oc[i]) })] + tail_removes(oc, i + 1)
    }
}

pub proof fn lemma_contains_concat<A>(s: Seq<A>, t: Seq<A>, x: A)
    ensures
        (s + t).contains(x) <==> (s.contains(x) || t.contains(x)),
{
    if s.contains(x) {
        let i = choose|i: int| 0 <= i < s.len() && s[i] == x;
        assert((s + t)[i] == x);
    }
    if t.contains(x) {
        let j = choose|j: int| 0 <= j < t.len() && t[j] == x;
        assert((s + t)[s.len() + j] == x);
    }
    if (s + t).contains(x) {
        let k = choose|k: int| 0 <= k < (s + t).len() && (s + t)[k] == x;
        if k < s.len() {
            assert(s[k] == x);
        } else {
            assert(t[k - s.len()] == x);
        }
    }
}

/// A list wholly contained in the exclusion list leaves no difference.
pub proof fn lemma_seq_minus_contained<A>(xs: Seq<A>, excl: Seq<A>)
    requires
        forall|k: int| 0 <= k < xs.len() ==> excl.contains(#[trigger] xs[k]),
    ensures
        seq_minus(xs, excl) == Seq::<A>::empty(),
    decreases xs,
{
    if xs.len() > 0 {
        assert(excl.contains(xs[0]));
        assert(forall|k: int|
            0 <= k < xs.drop_first().len() ==> xs.drop_first()[k] == xs[k + 1]);
        lemma_seq_minus_contained(xs.drop_first(), excl);
    }
}

fn attrs_contain(v: &Vec<Attribute>, a: &Attribute) -> (r: bool)
    ensures
        r == attrs_view(v@).contains(a@),
{
    let mut i: usize = 0;
    while i < v.len()
        invariant
            i <= v@.len(),
            forall|k: int| 0 <= k < i ==> attr_view(v@[k]) != attr_view(*a),
        decreases v@.len() - i,
    {
        if crate::html::attr_eq(&v[i], a) {
            assert(attrs_view(v@)[i as int] == attr_view(*a));
            return true;
        }
        i += 1;
    }
    proof {
        assert forall|k: int| 0 <= k < attrs_view(v@).len() implies attrs_view(v@)[k]
            != attr_view(*a) by {
            assert(attrs_view(v@)[k] == attr_view(v@[k]));
        }
    }
    false
}

fn events_contain(v: &Vec<Event>, e: Event) -> (r: bool)
    ensures
        r == v@.contains(e),
{
    let mut i: usize = 0;
    while i < v.len()
        invariant
            i <= v@.len(),
            forall|k: int| 0 <= k < i ==> v@[k] != e,
        decreases v@.len() - i,
    {
        if v[i] == e {
            return true;
        }
        i += 1;
    }
    false
}

fn attr_set_minus(xs: &Vec<Attribute>, ys: &Vec<Attribute>) -> (r: Vec<Attribute>)
    ensures
        attrs_view(r@) == seq_minus(attrs_view(xs@), attrs_view(ys@)),
{
    let ghost xsv = attrs_view(xs@);
    let ghost ysv = attrs_view(ys@);
    let mut out: Vec<Attribute> = Vec::new();
    let mut i: usize = 0;
    proof {
        assert(xsv.skip(0) =~= xsv);
        assert(attrs_view(out@) =~= Seq::<AttrV>::empty());
    }
    while i < xs.len()
        invariant
            i <= xs@.len(),
            xsv == attrs_view(xs@),
            ysv == attrs_view(ys@),
            xsv.len() == xs@.len(),
            forall|k: int| 0 <= k < xs@.len() ==> xsv[k] == attr_view(xs@[k]),
            seq_minus(xsv, ysv) == attrs_view(out@) + seq_minus(
                xsv.skip(i as int),
                ysv + attrs_view(out@),
            ),
        decreases xs@.len() - i,
    {
        let ghost outv = attrs_view(out@);
        let ghost rest = xsv.skip(i as int);
        proof {
            assert(rest.len() == xsv.len() - i);
            assert(rest[0] == xsv[i as int]);
            assert(rest.drop_first() =~= xsv.skip(i + 1 as int));
            lemma_contains_concat(ysv, outv, xsv[i as int]);
        }
        let in_ys = attrs_contain(ys, &xs[i]);
        let in_out = attrs_contain(&out, &xs[i]);
        if !in_ys && !in_out {
            out.push(crate::html::clone_attr(&xs[i]));
            proof {
                assert(attrs_view(out@) =~= outv.push(xsv[i as int]));
                assert(ysv + outv.push(xsv[i as int]) =~= (ysv + outv).push(xsv[i as int]));
                assert(seq_minus(rest, ysv + outv) == seq![rest[0]] + seq_minus(
                    rest.drop_first(),
                    (ysv + outv).push(rest[0]),
                ));
                assert(outv + (seq![rest[0]] + seq_minus(
                    rest.drop_first(),
                    (ysv + outv).push(rest[0]),
                )) =~= outv.push(xsv[i as int]) + seq_minus(
                    xsv.skip(i + 1 as int),
                    ysv + outv.push(xsv[i as int]),
                ));
            }
        } else {
            proof {
                assert(seq_minus(rest, ysv + outv) == seq_minus(rest.drop_first(), ysv + outv));
            }
        }
        i += 1;
    }
    proof {
        assert(xsv.skip(xsv.len() as int) =~= Seq::<AttrV>::empty());
        assert(seq_minus(Seq::<AttrV>::empty(), ysv + attrs_view(out@)) == Seq::<AttrV>::empty());
        assert(attrs_view(out@) + Seq::<AttrV>::empty() =~= attrs_view(out@));
    }
    out
}

fn event_set_minus(xs: &Vec<Event>, ys: &Vec<Event>) -> (r: Vec<Event>)
    ensures
        r@ == seq_minus(xs@, ys@),
{
    let mut out: Vec<Event> = Vec::new();
    let mut i: usize = 0;
    proof {
        assert(xs@.skip(0) =~= xs@);
    }
    while i < xs.len()
        invariant
            i <= xs@.len(),
            seq_minus(xs@, ys@) == out@ + seq_minus(xs@.skip(i as int), ys@ + out@),
        decreases xs@.len() - i,
    {
        let ghost outv = out@;
        let ghost rest = xs@.skip(i as int);
        proof {
            assert(rest[0] == xs@[i as int]);
            assert(rest.drop_first() =~= xs@.skip(i + 1 as int));
            lemma_contains_concat(ys@, outv, xs@[i as int]);
        }
        let in_ys = events_contain(ys, xs[i]);
        let in_out = events_contain(&out, xs[i]);
        if !in_ys && !in_out {
            out.push(xs[i]);
            proof {
                assert(ys@ + outv.push(xs@[i as int]) =~= (ys@ + outv).push(xs@[i as int]));
                assert(seq_minus(rest, ys@ + outv) == seq![rest[0]] + seq_minus(
                    rest.drop_first(),
                    (ys@ + outv).push(rest[0]),
                ));
                assert(outv + (seq![rest[0]] + seq_minus(
                    rest.drop_first(),
                    (ys@ + outv).push(rest[0]),
                )) =~= outv.push(xs@[i as int]) + seq_minus(
                    xs@.skip(i + 1 as int),
                    ys@ + outv.push(xs@[i as int]),
                ));
            }
        } else {
            proof {
                assert(seq_minus(rest, ys@ + outv) == seq_minus(rest.drop_first(), ys@ + outv));
            }
        }
        i += 1;
    }
    proof {
        assert(xs@.skip(xs@.len() as int) =~= Seq::<Event>::empty());
        assert(out@ + Seq::<Event>::empty() =~= out@);
    }
    out
}

fn attr_deltas(old: &Vec<Attribute>, new: &Vec<Attribute>) -> (r: Vec<Delta<Attribute>>)
    ensures
        deltas_view(r@) == seq_deltas(attrs_view(old@), attrs_view(new@)),
{
    let removed = attr_set_minus(old, new);
    let added = attr_set_minus(new, old);
    let ghost rmv = attrs_view(removed@);
    let ghost adv = attrs_view(added@);
    let mut out: Vec<Delta<Attribute>> = Vec::new();
    let mut i: usize = 0;
    while i < removed.len()
        invariant
            i <= removed@.len(),
            rmv == attrs_view(removed@),
            rmv.len() == removed@.len(),
            out@.len() == i,
            forall|k: int|
                0 <= k < i ==> (#[trigger] out@[k] matches Delta::Remove(a) && attr_view(a)
                    == rmv[k]),
        decreases removed@.len() - i,
    {
        out.push(Delta::Remove(crate::html::clone_attr(&removed[i])));
        i += 1;
    }
    let ghost half = out@;
    let mut j: usize = 0;
    while j < added.len()
        invariant
            j <= added@.len(),
            adv == attrs_view(added@),
            adv.len() == added@.len(),
            rmv == attrs_view(removed@),
            rmv.len() == removed@.len(),
            half == out@.subrange(0, rmv.len() as int),
            out@.len() == rmv.len() + j,
            forall|k: int|
                0 <= k < rmv.len() ==> (#[trigger] out@[k] matches Delta::Remove(a) && attr_view(a)
                    == rmv[k]),
            forall|k: int|
                rmv.len() <= k < out@.len() ==> (#[trigger] out@[k] matches Delta::Add(a)
                    && attr_view(a) == adv[k - rmv.len()]),
        decreases added@.len() - j,
    {
        out.push(Delta::Add(crate::html::clone_attr(&added[j])));
        assert(out@.subrange(0, rmv.len() as int) =~= half);
        j += 1;
    }
    proof {
        assert(deltas_view(out@) =~= seq_deltas(attrs_view(old@), attrs_view(new@)));
    }
    out
}

fn event_deltas(old: &Vec<Event>, new: &Vec<Event>) -> (r: Vec<Delta<Event>>)
    ensures
        r@ == seq_deltas(old@, new@),
{
    let removed = event_set_minus(old, new);
    let added = event_set_minus(new, old);
    let mut out: Vec<Delta<Event>> = Vec::new();
    let mut i: usize = 0;
    while i < removed.len()
        invariant
            i <= removed@.len(),
            out@.len() == i,
            forall|k: int| 0 <= k < i ==> out@[k] == Delta::Remove(removed@[k]),
        decreases removed@.len() - i,
    {
        out.push(Delta::Remove(removed[i]));
        i += 1;
    }
    let mut j: usize = 0;
    while j < added.len()
        invariant
            j <= added@.len(),
            out@.len() == removed@.len() + j,
            forall|k: int| 0 <= k < removed@.len() ==> out@[k] == Delta::Remove(removed@[k]),
            forall|k: int|
                removed@.len() <= k < out@.len() ==> out@[k] == Delta::Add(
                    added@[k - removed@.len()],
                ),
        decreases added@.len() - j,
    {
        out.push(Delta::Add(added[j]));
        j += 1;
    }
    proof {
        assert(out@ =~= seq_deltas(old@, new@));
    }
    out
}

fn events_eq(a: &Vec<Event>, b: &Vec<Event>) -> (r: bool)
    ensures
        r == (a@ == b@),
{
    if a.len() != b.len() {
        return false;
    }
    let mut i: usize = 0;
    while i < a.len()
        invariant
            a@.len() == b@.len(),
            i <= a@.len(),
            forall|k: int| 0 <= k < i ==> a@[k] == b@[k],
        decreases a@.len() - i,
    {
        if !(a[i] == b[i]) {
            return false;
        }
        i += 1;
    }
    proof {
        assert(a@ =~= b@);
    }
    true
}

fn attrs_eq(a: &Vec<Attribute>, b: &Vec<Attribute>) -> (r: bool)
    ensures
        r == (attrs_view(a@) == attrs_view(b@)),
{
    if a.len() != b.len() {
        assert(attrs_view(a@).len() != attrs_view(b@).len());
        return false;
    }
    let mut i: usize = 0;
    while i < a.len()
        invariant
            a@.len() == b@.len(),
            i <= a@.len(),
            forall|k: int| 0 <= k < i ==> attr_view(a@[k]) == attr_view(b@[k]),
        decreases a@.len() - i,
    {
        if !crate::html::attr_eq(&a[i], &b[i]) {
            assert(attrs_view(a@)[i as int] != attrs_view(b@)[i as int]);
            return false;
        }
        i += 1;
    }
    proof {
        assert(attrs_view(a@) =~= attrs_view(b@));
    }
    true
}

impl Diff {
    /// Whether this patch describes no change at all.
    pub fn is_unchanged(&self) -> (r: bool)
        ensures
            r == (self@ == DiffV::Unchanged),
    {
        match self {
            Diff::Unchanged => true,
            _ => false,
        }
    }
}

/// Compare two virtual trees and describe the difference as a patch.
///
/// The result is exactly the positional diff `spec_diff` states: texts are
/// replaced when their content differs; elements of different tags are
/// replaced wholesale (carrying the event identities of the departing
/// subtree); elements of one tag get attribute and binding edits as set
/// differences plus per-index child patches, with inserts or removals past
/// the shorter child list.
pub fn diff_vdom(old: &Html, new: &Html) -> (d: Diff)
    ensures
        d@ == spec_diff(old@, new@),
    decreases *old, 1int,
{
    match (old, new) {
        (Html::Text(t1), Html::Text(t2)) => {
            if *t1 == *t2 {
                Diff::Unchanged
            } else {
                Diff::Replace { with: clone_html(new), events_to_rm: Vec::new() }
            }
        },
        (Html::Text(_), Html::Element(_)) => {
            Diff::Replace { with: clone_html(new), events_to_rm: Vec::new() }
        },
        (Html::Element(_), Html::Text(_)) => {
            Diff::Replace { with: clone_html(new), events_to_rm: old.get_nested_event_ids() }
        },
        (Html::Element(e1), Html::Element(e2)) => {
            if !(e1.tag == e2.tag) {
                return Diff::Replace {
                    with: clone_html(new),
                    events_to_rm: old.get_nested_event_ids(),
                };
            }
            let attrs: Vec<Delta<Attribute>> = if attrs_eq(&e1.attrs, &e2.attrs) {
                proof {
                    assert(forall|k: int|
                        0 <= k < attrs_view(e1.attrs@).len() ==> attrs_view(e2.attrs@).contains(
                            #[trigger] attrs_view(e1.attrs@)[k],
                        ));
                    lemma_seq_minus_contained(attrs_view(e1.attrs@), attrs_view(e2.attrs@));
                    lemma_seq_minus_contained(attrs_view(e2.attrs@), attrs_view(e1.attrs@));
                    assert(seq_deltas(attrs_view(e1.attrs@), attrs_view(e2.attrs@))
                        =~= Seq::<Delta<AttrV>>::empty());
                }
                Vec::new()
            } else {
                attr_deltas(&e1.attrs, &e2.attrs)
            };
            let events: Vec<Delta<Event>> = if events_eq(&e1.events, &e2.events) {
                proof {
                    assert(forall|k: int|
                        0 <= k < e1.events@.len() ==> e2.events@.contains(
                            #[trigger] e1.events@[k],
                        ));
                    lemma_seq_minus_contained(e1.events@, e2.events@);
                    lemma_seq_minus_contained(e2.events@, e1.events@);
                    assert(seq_deltas(e1.events@, e2.events@) =~= Seq::<Delta<Event>>::empty());
                }
                Vec::new()
            } else {
                event_deltas(&e1.events, &e2.events)
            };
            let children = diff_child_lists(old, new, e1, e2);
            proof {
                assert(deltas_view(Seq::<Delta<Attribute>>::empty())
                    =~= Seq::<Delta<AttrV>>::empty());
                lemma_diffs_view(children@);
            }
            if attrs.len() == 0 && events.len() == 0 && children.len() == 0 {
                Diff::Unchanged
            } else {
                Diff::Update { attrs, events, children }
            }
        },
    }
}

#[verifier::rlimit(50)]
fn diff_child_lists(old: &Html, new: &Html, e1: &crate::vdom::Element, e2: &crate::vdom::Element)
    -> (r: Vec<(usize, Diff)>)
    requires
        *old == Html::Element(*e1),
        *new == Html::Element(*e2),
    ensures
        diffs_view(r@) == diff_children(children_view(e1.children@), children_view(e2.children@)),
    decreases *old, 0int,
{
    let ghost ocv = children_view(e1.children@);
    let ghost ncv = children_view(e2.children@);
    proof {
        lemma_children_view(e1.children@);
        lemma_children_view(e2.children@);
    }
    let min: usize = if e1.children.len() < e2.children.len() {
        e1.children.len()
    } else {
        e2.children.len()
    };
    let mut out: Vec<(usize, Diff)> = Vec::new();
    let mut i: usize = 0;
    proof {
        assert(ocv.skip(0) =~= ocv);
        assert(ncv.skip(0) =~= ncv);
        assert(diffs_view(out@) =~= Seq::<(int, DiffV)>::empty());
    }
    while i < min
        invariant
            *old == Html::Element(*e1),
            *new == Html::Element(*e2),
            i <= min,
            min == vstd::math::min(e1.children@.len() as int, e2.children@.len() as int),
            ocv == children_view(e1.children@),
            ncv == children_view(e2.children@),
            ocv.len() == e1.children@.len(),
            ncv.len() == e2.children@.len(),
            forall|k: int| 0 <= k < ocv.len() ==> ocv[k] == html_view(e1.children@[k]),
            forall|k: int| 0 <= k < ncv.len() ==> ncv[k] == html_view(e2.children@[k]),
            diff_pairs(ocv, ncv, 0) == diffs_view(out@) + diff_pairs(
                ocv.skip(i as int),
                ncv.skip(i as int),
                i as int,
            ),
        decreases min - i,
    {
        proof {
            assert(decreases_to!(*old => old->Element_0));
            assert(decreases_to!(*e1 => e1.children@[i as int]));
        }
        let cd = diff_vdom(&e1.children[i], &e2.children[i]);
        let ghost orest = ocv.skip(i as int);
        let ghost nrest = ncv.skip(i as int);
        proof {
            assert(orest[0] == ocv[i as int]);
            assert(nrest[0] == ncv[i as int]);
            assert(orest.drop_first() =~= ocv.skip(i + 1 as int));
            assert(nrest.drop_first() =~= ncv.skip(i + 1 as int));
        }
        let ghost before = out@;
        let unchanged = cd.is_unchanged();
        if !unchanged {
            out.push((i, cd));
            proof {
                assert(out@.drop_last() =~= before);
                lemma_diffs_view_push(before, (i, cd));
                assert(diffs_view(before) + seq![(i as int, diff_view(cd))] + diff_pairs(
                    ocv.skip(i + 1 as int),
                    ncv.skip(i + 1 as int),
                    i + 1 as int,
                ) =~= diffs_view(before) + (seq![(i as int, diff_view(cd))] + diff_pairs(
                    ocv.skip(i + 1 as int),
                    ncv.skip(i + 1 as int),
                    i + 1 as int,
                )));
            }
        } else {
            proof {
                assert(Seq::<(int, DiffV)>::empty() + diff_pairs(
                    orest.drop_first(),
                    nrest.drop_first(),
                    i + 1 as int,
                ) =~= diff_pairs(orest.drop_first(), nrest.drop_first(), i + 1 as int));
            }
        }
        i += 1;
    }
    proof {
        if ocv.len() <= ncv.len() {
            assert(ocv.skip(min as int).len() == 0);
        } else {
            assert(ncv.skip(min as int).len() == 0);
        }
        assert(diff_pairs(ocv.skip(min as int), ncv.skip(min as int), min as int)
            == Seq::<(int, DiffV)>::empty());
        assert(diff_pairs(ocv, ncv, 0) =~= diffs_view(out@));
    }
    let ghost pairs = diffs_view(out@);
    proof {
        lemma_diffs_view(out@);
        assert(diffs_view(out@).subrange(0, pairs.len() as int) =~= pairs);
        assert(diffs_view(out@).skip(pairs.len() as int) =~= Seq::<(int, DiffV)>::empty());
    }
    if e2.children.len() > e1.children.len() {
        proof {
            assert(Seq::<(int, DiffV)>::empty() + tail_inserts(ncv, ocv.len() as int)
                =~= tail_inserts(ncv, ocv.len() as int));
        }
        let mut j: usize = e1.children.len();
        while j < e2.children.len()
            invariant
                *new == Html::Element(*e2),
                e1.children@.len() <= j <= e2.children@.len(),
                ncv == children_view(e2.children@),
                ncv.len() == e2.children@.len(),
                forall|k: int| 0 <= k < ncv.len() ==> ncv[k] == html_view(e2.children@[k]),
                pairs == diff_pairs(ocv, ncv, 0),
                ocv.len() == e1.children@.len(),
                tail_inserts(ncv, ocv.len() as int) == diffs_view(out@).skip(pairs.len() as int)
                    + tail_inserts(ncv, j as int),
                diffs_view(out@).subrange(0, pairs.len() as int) == pairs,
                diffs_view(out@).len() >= pairs.len(),
                out@.len() == diffs_view(out@).len(),
            decreases e2.children@.len() - j,
        {
            let ghost before = out@;
            let c = clone_html(&e2.children[j]);
            out.push((j, Diff::Insert(c)));
            proof {
                lemma_diffs_view_push(before, (j, Diff::Insert(c)));
                lemma_diffs_view(before);
                lemma_diffs_view(out@);
                assert(diffs_view(out@).subrange(0, pairs.len() as int) =~= diffs_view(
                    before,
                ).subrange(0, pairs.len() as int));
                assert(diffs_view(out@).skip(pairs.len() as int) =~= diffs_view(before).skip(
                    pairs.len() as int,
                ).push((j as int, DiffV::Insert(html_view(e2.children@[j as int])))));
                assert(diffs_view(before).skip(pairs.len() as int).push(
                    (j as int, DiffV::Insert(ncv[j as int])),
                ) + tail_inserts(ncv, j + 1 as int) =~= diffs_view(before).skip(
                    pairs.len() as int,
                ) + (seq![(j as int, DiffV::Insert(ncv[j as int]))] + tail_inserts(
                    ncv,
                    j + 1 as int,
                )));
            }
            j += 1;
        }
        proof {
            assert(tail_inserts(ncv, ncv.len() as int) == Seq::<(int, DiffV)>::empty());
            assert(diffs_view(out@).skip(pairs.len() as int) + Seq::<(int, DiffV)>::empty()
                =~= diffs_view(out@).skip(pairs.len() as int));
            assert(diffs_view(out@) =~= pairs + diffs_view(out@).skip(pairs.len() as int));
            assert(diff_children(ocv, ncv) == diff_pairs(ocv, ncv, 0) + tail_inserts(
                ncv,
                ocv.len() as int,
            ));
        }
    } else {
        proof {
            assert(Seq::<(int, DiffV)>::empty() + tail_removes(ocv, ncv.len() as int)
                =~= tail_removes(ocv, ncv.len() as int));
        }
        let mut j: usize = e2.children.len();
        while j < e1.children.len()
            invariant
                *old == Html::Element(*e1),
                e2.children@.len() <= j <= e1.children@.len(),
                ocv == children_view(e1.children@),
                ocv.len() == e1.children@.len(),
                forall|k: int| 0 <= k < ocv.len() ==> ocv[k] == html_view(e1.children@[k]),
                pairs == diff_pairs(ocv, ncv, 0),
                ncv.len() == e2.children@.len(),
                tail_removes(ocv, ncv.len() as int) == diffs_view(out@).skip(pairs.len() as int)
                    + tail_removes(ocv, j as int),
                diffs_view(out@).subrange(0, pairs.len() as int) == pairs,
                diffs_view(out@).len() >= pairs.len(),
                out@.len() == diffs_view(out@).len(),
            decreases e1.children@.len() - j,
        {
            let ghost before = out@;
            let rm = e1.children[j].get_nested_event_ids();
            out.push((j, Diff::Remove { events_to_rm: rm }));
            proof {
                lemma_diffs_view_push(before, (j, Diff::Remove { events_to_rm: rm }));
                lemma_diffs_view(before);
                lemma_diffs_view(out@);
                assert(diffs_view(out@).subrange(0, pairs.len() as int) =~= diffs_view(
                    before,
                ).subrange(0, pairs.len() as int));
                assert(diffs_view(out@).skip(pairs.len() as int) =~= diffs_view(before).skip(
                    pairs.len() as int,
                ).push((j as int, DiffV::Remove { events_to_rm: ids_of(ocv[j as int]) })));
                assert(diffs_view(before).skip(pairs.len() as int).push(
                    (j as int, DiffV::Remove { events_to_rm: ids_of(ocv[j as int]) }),
                ) + tail_removes(ocv, j + 1 as int) =~= diffs_view(before).skip(
                    pairs.len() as int,
                ) + (seq![(j as int, DiffV::Remove { events_to_rm: ids_of(ocv[j as int]) })]
                    + tail_removes(ocv, j + 1 as int)));
            }
            j += 1;
        }
        proof {
            assert(tail_removes(ocv, ocv.len() as int) == Seq::<(int, DiffV)>::empty());
            assert(diffs_view(out@).skip(pairs.len() as int) + Seq::<(int, DiffV)>::empty()
                =~= diffs_view(out@).skip(pairs.len() as int));
            assert(diffs_view(out@) =~= pairs + diffs_view(out@).skip(pairs.len() as int));
            assert(diff_children(ocv, ncv) == diff_pairs(ocv, ncv, 0) + tail_removes(
                ocv,
                ncv.len() as int,
            ));
        }
    }
    out
}

proof fn lemma_diffs_view_push(s: Seq<(usize, Diff)>, e: (usize, Diff))
    ensures
        diffs_view(s.push(e)) == diffs_view(s).push((e.0 as int, diff_view(e.1))),
    decreases s,
{
    if s.len() == 0 {
        assert(s.push(e).drop_first() =~= Seq::<(usize, Diff)>::empty());
        assert(s.push(e)[0] == e);
        assert(diffs_view(Seq::<(usize, Diff)>::empty()) =~= Seq::<(int, DiffV)>::empty());
        assert(diffs_view(s.push(e)) =~= diffs_view(s).push((e.0 as int, diff_view(e.1))));
    } else {
        assert(s.push(e).drop_first() =~= s.drop_first().push(e));
        assert(s.push(e)[0] == s[0]);
        lemma_diffs_view_push(s.drop_first(), e);
        assert(diffs_view(s.push(e)) == seq![(s[0].0 as int, diff_view(s[0].1))] + diffs_view(
            s.drop_first().push(e),
        ));
        assert(diffs_view(s.push(e)) =~= diffs_view(s).push((e.0 as int, diff_view(e.1))));
    }
}

} // verus!
