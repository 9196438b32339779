//! The patch applier: consumes a patch against a live tree and the
//! listener registry, and produces the edited live tree. Child entries are
//! processed in ascending index order with a running removal offset, so
//! indices always address the current children list. Listener release is
//! always decrement-then-maybe-free: an identity shared by several
//! bindings is only freed when its last occurrence goes.
use vstd::prelude::*;

use vstd::multiset::Multiset;

use crate::diff::{diffs_view, deltas_view, Delta, Diff, DiffV};
use crate::html::{attr_key_of, attr_view, AttrKey, AttrV, Attribute};
use crate::registry::{release_one, Registry};
use crate::vdom::{
    children_view, clone_html, html_view, ids_of, lemma_children_view, attrs_view, ElemV, Element,
    Event, EventId, Html, HtmlV,
};

verus! {

broadcast use vstd::seq_lib::group_to_multiset_ensures, vstd::multiset::group_multiset_axioms;

/// Remove the first attribute stored under the given key, as a document
/// API's attribute removal does.
pub open spec fn remove_key(attrs: Seq<AttrV>, k: AttrKey) -> Seq<AttrV>
    decreases attrs,
{
    if attrs.len() == 0 {
        attrs
    } else if attr_key_of(attrs[0]) == k {
        attrs.drop_first()
    } else {
        seq![attrs[0]] + remove_key(attrs.drop_first(), k)
    }
}

/// Set an attribute: replace the first attribute under the same key in
/// place, or append if the key is new.
pub open spec fn set_attr(attrs: Seq<AttrV>, a: AttrV) -> Seq<AttrV>
    decreases attrs,
{
    if attrs.len() == 0 {
        seq![a]
    } else if attr_key_of(attrs[0]) == attr_key_of(a) {
        seq![a] + attrs.drop_first()
    } else {
        seq![attrs[0]] + set_attr(attrs.drop_first(), a)
    }
}

pub open spec fn apply_attr_delta(attrs: Seq<AttrV>, d: Delta<AttrV>) -> Seq<AttrV> {
    match d {
        Delta::Remove(a) => remove_key(attrs, attr_key_of(a)),
        Delta::Add(a) => set_attr(attrs, a),
    }
}

pub open spec fn apply_attr_deltas(attrs: Seq<AttrV>, ds: Seq<Delta<AttrV>>) -> Seq<AttrV>
    decreases ds,
{
    if ds.len() == 0 {
        attrs
    } else {
        apply_attr_deltas(apply_attr_delta(attrs, ds[0]), ds.drop_first())
    }
}

/// Remove the first binding with the given identity.
pub open spec fn remove_event(events: Seq<Event>, id: EventId) -> Seq<Event>
    decreases events,
{
    if events.len() == 0 {
        events
    } else if events[0].id == id {
        events.drop_first()
    } else {
        seq![events[0]] + remove_event(events.drop_first(), id)
    }
}

pub open spec fn apply_event_delta(events: Seq<Event>, d: Delta<Event>) -> Seq<Event> {
    match d {
        Delta::Remove(e) => remove_event(events, e.id),
        Delta::Add(e) => events.push(e),
    }
}

pub open spec fn apply_event_deltas(events: Seq<Event>, ds: Seq<Delta<Event>>) -> Seq<Event>
    decreases ds,
{
    if ds.len() == 0 {
        events
    } else {
        apply_event_deltas(apply_event_delta(events, ds[0]), ds.drop_first())
    }
}

/// Register every identity in the list, one occurrence each.
pub open spec fn stash_all(m: Multiset<EventId>, s: Seq<EventId>) -> Multiset<EventId>
    decreases s,
{
    if s.len() == 0 {
        m
    } else {
        stash_all(m.insert(s[0]), s.drop_first())
    }
}

/// Release every identity in the list, one occurrence each.
pub open spec fn release_all(m: Multiset<EventId>, s: Seq<EventId>) -> Multiset<EventId>
    decreases s,
{
    if s.len() == 0 {
        m
    } else {
        release_all(release_one(m, s[0]), s.drop_first())
    }
}

/// Registry effect of a run of binding edits: additions register, removals
/// release.
pub open spec fn commit_events(m: Multiset<EventId>, ds: Seq<Delta<Event>>) -> Multiset<EventId>
    decreases ds,
{
    if ds.len() == 0 {
        m
    } else {
        let m1 = match ds[0] {
            Delta::Add(e) => m.insert(e.id),
            Delta::Remove(e) => release_one(m, e.id),
        };
        commit_events(m1, ds.drop_first())
    }
}

/// The live tree that results from applying a patch at one node. An entry
/// whose index falls outside the current children list edits nothing: a
/// patch is only meaningful against the pair of trees it was computed for.
pub open spec fn apply_node(live: HtmlV, d: DiffV) -> HtmlV
    decreases d, 1int,
{
    match d {
        DiffV::Unchanged => live,
        DiffV::Insert(n) => n,
        DiffV::Replace { with, .. } => with,
        DiffV::Remove { .. } => live,
        DiffV::Update { attrs, events, children } => match live {
            HtmlV::Text(_) => live,
            HtmlV::Element(e) => HtmlV::Element(
                ElemV {
                    tag: e.tag,
                    attrs: apply_attr_deltas(e.attrs, attrs),
                    events: apply_event_deltas(e.events, events),
                    children: apply_kids(e.children, children, 0),
                },
            ),
        },
    }
}

/// Apply an ordered child-patch list: ascending indices, each adjusted
/// down by the removals already applied in this pass.
pub open spec fn apply_kids(cs: Seq<HtmlV>, ds: Seq<(int, DiffV)>, rm: int) -> Seq<HtmlV>
    decreases ds, 0int,
{
    if ds.len() == 0 {
        cs
    } else {
        let j = ds[0].0 - rm;
        match ds[0].1 {
            DiffV::Unchanged => apply_kids(cs, ds.drop_first(), rm),
            DiffV::Insert(n) => apply_kids(cs.push(n), ds.drop_first(), rm),
            DiffV::Remove { .. } => {
                if 0 <= j < cs.len() {
                    apply_kids(cs.remove(j), ds.drop_first(), rm + 1)
                } else {
                    apply_kids(cs, ds.drop_first(), rm)
                }
            },
            _ => {
                if 0 <= j < cs.len() {
                    apply_kids(cs.update(j, apply_node(cs[j], ds[0].1)), ds.drop_first(), rm)
                } else {
                    apply_kids(cs, ds.drop_first(), rm)
                }
            },
        }
    }
}

/// Registry effect of applying a patch at one node: inserted subtrees
/// register their identities, departing subtrees release theirs.
pub open spec fn commit_node(live: HtmlV, d: DiffV, m: Multiset<EventId>) -> Multiset<EventId>
    decreases d, 1int,
{
    match d {
        DiffV::Unchanged => m,
        DiffV::Insert(n) => stash_all(m, ids_of(n)),
        DiffV::Replace { with, events_to_rm } => stash_all(release_all(m, events_to_rm), ids_of(with)),
        DiffV::Remove { events_to_rm } => release_all(m, events_to_rm),
        DiffV::Update { attrs, events, children } => match live {
            HtmlV::Text(_) => m,
            HtmlV::Element(e) => commit_kids(e.children, children, 0, commit_events(m, events)),
        },
    }
}

/// Registry effect of an ordered child-patch list, tracking the same walk
/// as `apply_kids`.
pub open spec fn commit_kids(
    cs: Seq<HtmlV>,
    ds: Seq<(int, DiffV)>,
    rm: int,
    m: Multiset<EventId>,
) -> Multiset<EventId>
    decreases ds, 0int,
{
    if ds.len() == 0 {
        m
    } else {
        let j = ds[0].0 - rm;
        match ds[0].1 {
            DiffV::Unchanged => commit_kids(cs, ds.drop_first(), rm, m),
            DiffV::Insert(n) => commit_kids(
                cs.push(n),
                ds.drop_first(),
                rm,
                stash_all(m, ids_of(n)),
            ),
            DiffV::Remove { events_to_rm } => {
                if 0 <= j < cs.len() {
                    commit_kids(cs.remove(j), ds.drop_first(), rm + 1, release_all(m, events_to_rm))
                } else {
                    commit_kids(cs, ds.drop_first(), rm, m)
                }
            },
            _ => {
                if 0 <= j < cs.len() {
                    commit_kids(
                        cs.update(j, apply_node(cs[j], ds[0].1)),
                        ds.drop_first(),
                        rm,
                        commit_node(cs[j], ds[0].1, m),
                    )
                } else {
                    commit_kids(cs, ds.drop_first(), rm, m)
                }
            },
        }
    }
}

pub proof fn lemma_remove_key_at(s: Seq<AttrV>, k: AttrKey, i: int)
    requires
        0 <= i < s.len(),
        attr_key_of(s[i]) == k,
        forall|n: int| 0 <= n < i ==> attr_key_of(s[n]) != k,
    ensures
        remove_key(s, k) == s.remove(i),
    decreases s,
{
    if i == 0 {
        assert(remove_key(s, k) =~= s.remove(0));
    } else {
        assert(forall|n: int|
            0 <= n < i - 1 ==> attr_key_of(s.drop_first()[n]) == attr_key_of(s[n + 1]));
        lemma_remove_key_at(s.drop_first(), k, i - 1);
        assert(remove_key(s, k) == seq![s[0]] + s.drop_first().remove(i - 1));
        assert(remove_key(s, k) =~= s.remove(i));
    }
}

pub proof fn lemma_remove_key_none(s: Seq<AttrV>, k: AttrKey)
    requires
        forall|n: int| 0 <= n < s.len() ==> attr_key_of(s[n]) != k,
    ensures
        remove_key(s, k) == s,
    decreases s,
{
    if s.len() > 0 {
        assert(forall|n: int|
            0 <= n < s.drop_first().len() ==> attr_key_of(s.drop_first()[n]) == attr_key_of(
                s[n + 1],
            ));
        lemma_remove_key_none(s.drop_first(), k);
        assert(remove_key(s, k) =~= s);
    }
}

pub proof fn lemma_set_attr_at(s: Seq<AttrV>, a: AttrV, i: int)
    requires
        0 <= i < s.len(),
        attr_key_of(s[i]) == attr_key_of(a),
        forall|n: int| 0 <= n < i ==> attr_key_of(s[n]) != attr_key_of(a),
    ensures
        set_attr(s, a) == s.update(i, a),
    decreases s,
{
    if i == 0 {
        assert(set_attr(s, a) =~= s.update(0, a));
    } else {
        assert(forall|n: int|
            0 <= n < i - 1 ==> attr_key_of(s.drop_first()[n]) == attr_key_of(s[n + 1]));
        lemma_set_attr_at(s.drop_first(), a, i - 1);
        assert(set_attr(s, a) == seq![s[0]] + s.drop_first().update(i - 1, a));
        assert(set_attr(s, a) =~= s.update(i, a));
    }
}

pub proof fn lemma_set_attr_none(s: Seq<AttrV>, a: AttrV)
    requires
        forall|n: int| 0 <= n < s.len() ==> attr_key_of(s[n]) != attr_key_of(a),
    ensures
        set_attr(s, a) == s.push(a),
    decreases s,
{
    if s.len() == 0 {
        assert(set_attr(s, a) =~= s.push(a));
    } else {
        assert(forall|n: int|
            0 <= n < s.drop_first().len() ==> attr_key_of(s.drop_first()[n]) == attr_key_of(
                s[n + 1],
            ));
        lemma_set_attr_none(s.drop_first(), a);
        assert(set_attr(s, a) =~= s.push(a));
    }
}

pub proof fn lemma_remove_event_at(s: Seq<Event>, id: EventId, i: int)
    requires
        0 <= i < s.len(),
        s[i].id == id,
        forall|n: int| 0 <= n < i ==> s[n].id != id,
    ensures
        remove_event(s, id) == s.remove(i),
    decreases s,
{
    if i == 0 {
        assert(remove_event(s, id) =~= s.remove(0));
    } else {
        assert(forall|n: int| 0 <= n < i - 1 ==> s.drop_first()[n] == s[n + 1]);
        lemma_remove_event_at(s.drop_first(), id, i - 1);
        assert(remove_event(s, id) == seq![s[0]] + s.drop_first().remove(i - 1));
        assert(remove_event(s, id) =~= s.remove(i));
    }
}

pub proof fn lemma_remove_event_none(s: Seq<Event>, id: EventId)
    requires
        forall|n: int| 0 <= n < s.len() ==> s[n].id != id,
    ensures
        remove_event(s, id) == s,
    decreases s,
{
    if s.len() > 0 {
        assert(forall|n: int| 0 <= n < s.drop_first().len() ==> s.drop_first()[n] == s[n + 1]);
        lemma_remove_event_none(s.drop_first(), id);
        assert(remove_event(s, id) =~= s);
    }
}

fn remove_key_exec(attrs: &mut Vec<Attribute>, k: AttrKey)
    ensures
        attrs_view(final(attrs)@) == remove_key(attrs_view(old(attrs)@), k),
{
    let ghost s0 = attrs_view(attrs@);
    let mut i: usize = 0;
    while i < attrs.len()
        invariant
            *attrs == *old(attrs),
            s0 == attrs_view(attrs@),
            s0.len() == attrs@.len(),
            i <= attrs@.len(),
            forall|n: int| 0 <= n < i ==> attr_key_of(attrs_view(attrs@)[n]) != k,
        decreases attrs@.len() - i,
    {
        let ak = attrs[i].key();
        proof {
            assert(attrs_view(attrs@)[i as int] == attr_view(attrs@[i as int]));
        }
        if ak == k {
            proof {
                lemma_remove_key_at(s0, k, i as int);
            }
            attrs.remove(i);
            proof {
                assert(attrs_view(attrs@) =~= s0.remove(i as int));
            }
            return ;
        }
        i += 1;
    }
    proof {
        lemma_remove_key_none(s0, k);
    }
}

fn set_attr_exec(attrs: &mut Vec<Attribute>, a: Attribute)
    ensures
        attrs_view(final(attrs)@) == set_attr(attrs_view(old(attrs)@), a@),
{
    let ghost s0 = attrs_view(attrs@);
    let mut i: usize = 0;
    while i < attrs.len()
        invariant
            *attrs == *old(attrs),
            s0 == attrs_view(attrs@),
            s0.len() == attrs@.len(),
            i <= attrs@.len(),
            forall|n: int| 0 <= n < i ==> attr_key_of(attrs_view(attrs@)[n]) != attr_key_of(a@),
        decreases attrs@.len() - i,
    {
        let ak = attrs[i].key();
        let nk = a.key();
        proof {
            assert(attrs_view(attrs@)[i as int] == attr_view(attrs@[i as int]));
        }
        if ak == nk {
            proof {
                lemma_set_attr_at(s0, a@, i as int);
            }
            attrs.set(i, a);
            proof {
                assert(attrs_view(attrs@) =~= s0.update(i as int, attr_view(a)));
            }
            return ;
        }
        i += 1;
    }
    proof {
        lemma_set_attr_none(s0, a@);
    }
    attrs.push(a);
    proof {
        assert(attrs_view(attrs@) =~= s0.push(attr_view(a)));
    }
}

fn remove_event_exec(events: &mut Vec<Event>, id: EventId)
    ensures
        final(events)@ == remove_event(old(events)@, id),
{
    let ghost s0 = events@;
    let mut i: usize = 0;
    while i < events.len()
        invariant
            *events == *old(events),
            s0 == events@,
            i <= events@.len(),
            forall|n: int| 0 <= n < i ==> events@[n].id != id,
        decreases events@.len() - i,
    {
        if events[i].id == id {
            proof {
                lemma_remove_event_at(s0, id, i as int);
            }
            events.remove(i);
            return ;
        }
        i += 1;
    }
    proof {
        lemma_remove_event_none(s0, id);
    }
}

fn apply_attr_deltas_exec(attrs: &mut Vec<Attribute>, ds: &Vec<Delta<Attribute>>)
    ensures
        attrs_view(final(attrs)@) == apply_attr_deltas(attrs_view(old(attrs)@), deltas_view(ds@)),
{
    let ghost s0 = attrs_view(attrs@);
    let ghost dsv = deltas_view(ds@);
    let mut k: usize = 0;
    proof {
        assert(dsv.skip(0) =~= dsv);
    }
    while k < ds.len()
        invariant
            k <= ds@.len(),
            dsv == deltas_view(ds@),
            dsv.len() == ds@.len(),
            apply_attr_deltas(s0, dsv) == apply_attr_deltas(
                attrs_view(attrs@),
                dsv.skip(k as int),
            ),
        decreases ds@.len() - k,
    {
        let ghost rest = dsv.skip(k as int);
        proof {
            assert(rest[0] == dsv[k as int]);
            assert(dsv[k as int] == deltas_view(ds@)[k as int]);
            assert(rest.drop_first() =~= dsv.skip(k + 1 as int));
        }
        match &ds[k] {
            Delta::Remove(a) => {
                let key = a.key();
                remove_key_exec(attrs, key);
            },
            Delta::Add(a) => {
                let c = crate::html::clone_attr(a);
                set_attr_exec(attrs, c);
            },
        }
        k += 1;
    }
    proof {
        assert(dsv.skip(dsv.len() as int) =~= Seq::<Delta<AttrV>>::empty());
    }
}

fn apply_event_deltas_exec(events: &mut Vec<Event>, ds: &Vec<Delta<Event>>, reg: &mut Registry)
    ensures
        final(events)@ == apply_event_deltas(old(events)@, ds@),
        final(reg)@ == commit_events(old(reg)@, ds@),
{
    let ghost s0 = events@;
    let ghost m0 = reg@;
    let mut k: usize = 0;
    proof {
        assert(ds@.skip(0) =~= ds@);
    }
    while k < ds.len()
        invariant
            k <= ds@.len(),
            apply_event_deltas(s0, ds@) == apply_event_deltas(events@, ds@.skip(k as int)),
            commit_events(m0, ds@) == commit_events(reg@, ds@.skip(k as int)),
        decreases ds@.len() - k,
    {
        let ghost rest = ds@.skip(k as int);
        proof {
            assert(rest[0] == ds@[k as int]);
            assert(rest.drop_first() =~= ds@.skip(k + 1 as int));
        }
        match &ds[k] {
            Delta::Remove(e) => {
                remove_event_exec(events, e.id);
                reg.release(e.id);
            },
            Delta::Add(e) => {
                events.push(*e);
                reg.stash(e.id);
            },
        }
        k += 1;
    }
    proof {
        assert(ds@.skip(ds@.len() as int) =~= Seq::<Delta<Event>>::empty());
    }
}

fn stash_ids(reg: &mut Registry, node: &Html)
    ensures
        final(reg)@ == stash_all(old(reg)@, ids_of(node@)),
{
    let ids = node.get_nested_event_ids();
    let ghost m0 = reg@;
    let mut i: usize = 0;
    proof {
        assert(ids@.skip(0) =~= ids@);
    }
    while i < ids.len()
        invariant
            i <= ids@.len(),
            stash_all(m0, ids@) == stash_all(reg@, ids@.skip(i as int)),
        decreases ids@.len() - i,
    {
        let ghost rest = ids@.skip(i as int);
        proof {
            assert(rest[0] == ids@[i as int]);
            assert(rest.drop_first() =~= ids@.skip(i + 1 as int));
        }
        reg.stash(ids[i]);
        i += 1;
    }
    proof {
        assert(ids@.skip(ids@.len() as int) =~= Seq::<EventId>::empty());
    }
}

fn release_ids(reg: &mut Registry, ids: &Vec<EventId>)
    ensures
        final(reg)@ == release_all(old(reg)@, ids@),
{
    let ghost m0 = reg@;
    let mut i: usize = 0;
    proof {
        assert(ids@.skip(0) =~= ids@);
    }
    while i < ids.len()
        invariant
            i <= ids@.len(),
            release_all(m0, ids@) == release_all(reg@, ids@.skip(i as int)),
        decreases ids@.len() - i,
    {
        let ghost rest = ids@.skip(i as int);
        proof {
            assert(rest[0] == ids@[i as int]);
            assert(rest.drop_first() =~= ids@.skip(i + 1 as int));
        }
        reg.release(ids[i]);
        i += 1;
    }
    proof {
        assert(ids@.skip(ids@.len() as int) =~= Seq::<EventId>::empty());
    }
}

/// Apply a patch to a live tree, keeping the listener registry in step:
/// inserted and replacing subtrees register each contained binding,
/// departing subtrees and removed bindings release theirs. The returned
/// tree is exactly `apply_node` of the inputs, and the registry moves to
/// exactly `commit_node`.
pub fn apply_diff(live: Html, d: &Diff, reg: &mut Registry) -> (r: Html)
    ensures
        r@ == apply_node(live@, d@),
        final(reg)@ == commit_node(live@, d@, old(reg)@),
    decreases *d, 1int,
{
    match d {
        Diff::Unchanged => live,
        Diff::Insert(n) => {
            let c = clone_html(n);
            stash_ids(reg, &c);
            c
        },
        Diff::Replace { with, events_to_rm } => {
            release_ids(reg, events_to_rm);
            let c = clone_html(with);
            stash_ids(reg, &c);
            c
        },
        Diff::Remove { events_to_rm } => {
            release_ids(reg, events_to_rm);
            live
        },
        Diff::Update { attrs, events, children } => {
            match live {
                Html::Text(t) => Html::Text(t),
                Html::Element(el) => {
                    let Element { tag, attrs: mut eattrs, events: mut eevents, children: ekids } =
                        el;
                    apply_attr_deltas_exec(&mut eattrs, attrs);
                    apply_event_deltas_exec(&mut eevents, events, reg);
                    proof {
                        assert(decreases_to!(*d => d->Update_children));
                    }
                    let new_kids = apply_kids_exec(ekids, children, reg);
                    Html::Element(
                        Element { tag, attrs: eattrs, events: eevents, children: new_kids },
                    )
                },
            }
        },
    }
}

fn apply_kids_exec(cs: Vec<Html>, ds: &Vec<(usize, Diff)>, reg: &mut Registry) -> (r: Vec<Html>)
    ensures
        children_view(r@) == apply_kids(children_view(cs@), diffs_view(ds@), 0),
        final(reg)@ == commit_kids(children_view(cs@), diffs_view(ds@), 0, old(reg)@),
    decreases ds@, 0int,
{
    let ghost cs0 = children_view(cs@);
    let ghost dsv = diffs_view(ds@);
    let ghost m0 = reg@;
    let mut cs = cs;
    let mut rmct: usize = 0;
    let mut k: usize = 0;
    proof {
        crate::diff::lemma_diffs_view(ds@);
        assert(dsv.skip(0) =~= dsv);
    }
    while k < ds.len()
        invariant
            k <= ds@.len(),
            rmct <= k,
            dsv == diffs_view(ds@),
            dsv.len() == ds@.len(),
            forall|n: int|
                0 <= n < ds@.len() ==> dsv[n] == (ds@[n].0 as int, crate::diff::diff_view(
                    ds@[n].1,
                )),
            apply_kids(cs0, dsv, 0) == apply_kids(
                children_view(cs@),
                dsv.skip(k as int),
                rmct as int,
            ),
            commit_kids(cs0, dsv, 0, m0) == commit_kids(
                children_view(cs@),
                dsv.skip(k as int),
                rmct as int,
                reg@,
            ),
        decreases ds@.len() - k,
    {
        let ghost rest = dsv.skip(k as int);
        let ghost curv = children_view(cs@);
        proof {
            assert(rest[0] == dsv[k as int]);
            assert(rest.drop_first() =~= dsv.skip(k + 1 as int));
            lemma_children_view(cs@);
        }
        let ix = ds[k].0;
        match &ds[k].1 {
            Diff::Unchanged => {},
            Diff::Insert(n) => {
                let c = clone_html(n);
                stash_ids(reg, &c);
                cs.push(c);
                proof {
                    lemma_children_view(cs@);
                    assert(children_view(cs@) =~= curv.push(html_view(c)));
                }
            },
            Diff::Remove { events_to_rm } => {
                if ix >= rmct && ix - rmct < cs.len() {
                    let j = ix - rmct;
                    release_ids(reg, events_to_rm);
                    cs.remove(j);
                    rmct += 1;
                    proof {
                        lemma_children_view(cs@);
                        assert(children_view(cs@) =~= curv.remove(j as int));
                    }
                } else {
                    proof {
                        let j = rest[0].0 - rmct as int;
                        assert(!(0 <= j < curv.len()));
                    }
                }
            },
            _ => {
                if ix >= rmct && ix - rmct < cs.len() {
                    let j = ix - rmct;
                    let child = cs.remove(j);
                    proof {
                        assert(decreases_to!(ds@ => ds@[k as int]));
                        assert(decreases_to!(ds@[k as int] => ds@[k as int].1));
                    }
                    let newc = apply_diff(child, &ds[k].1, reg);
                    cs.insert(j, newc);
                    proof {
                        lemma_children_view(cs@);
                        assert(children_view(cs@) =~= curv.update(
                            j as int,
                            apply_node(curv[j as int], rest[0].1),
                        ));
                    }
                } else {
                    proof {
                        let j = rest[0].0 - rmct as int;
                        assert(!(0 <= j < curv.len()));
                    }
                }
            },
        }
        k += 1;
    }
    proof {
        assert(dsv.skip(dsv.len() as int) =~= Seq::<(int, DiffV)>::empty());
    }
    cs
}

} // verus!
