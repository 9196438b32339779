//! The virtual tree: an immutable value produced by each render pass.
//! A node is either a text leaf or an element with a tag, attributes,
//! event bindings and an ordered list of children.
use vstd::prelude::*;

use crate::html::{attr_key_of, attr_view, AttrV, Attribute, Tag};

verus! {

/// Identity token of an event binding. Two bindings with the same id are
/// the same logical listener, wherever in the tree they appear.
pub type EventId = u64;

/// The kind of document event a binding listens for.
#[derive(Clone, Copy, Debug, PartialEq, Eq, Structural)]
pub enum EventKind {
    Click,
    Input,
}

/// An event binding: a kind plus the identity token that ties the binding
/// to its handler. The handler itself lives with the host; the tree only
/// carries the identity.
#[derive(Clone, Copy, Debug, PartialEq, Eq, Structural)]
pub struct Event {
    pub kind: EventKind,
    pub id: EventId,
}

/// A click binding under the given identity token.
pub fn on_click(id: EventId) -> (e: Event)
    ensures
        e == (Event { kind: EventKind::Click, id }),
{
    Event { kind: EventKind::Click, id }
}

/// An input binding under the given identity token.
pub fn on_input(id: EventId) -> (e: Event)
    ensures
        e == (Event { kind: EventKind::Input, id }),
{
    Event { kind: EventKind::Input, id }
}

/// A virtual node: a text leaf or an element.
#[derive(Debug, PartialEq)]
pub enum Html {
    Text(String),
    Element(Element),
}

/// A virtual element.
#[derive(Debug, PartialEq)]
pub struct Element {
    pub tag: Tag,
    pub attrs: Vec<Attribute>,
    pub events: Vec<Event>,
    pub children: Vec<Html>,
}

/// Mathematical model of a virtual node.
#[verifier::ext_equal]
pub enum HtmlV {
    Text(Seq<char>),
    Element(ElemV),
}

/// Mathematical model of a virtual element.
#[verifier::ext_equal]
pub struct ElemV {
    pub tag: Tag,
    pub attrs: Seq<AttrV>,
    pub events: Seq<Event>,
    pub children: Seq<HtmlV>,
}

pub open spec fn attrs_view(s: Seq<Attribute>) -> Seq<AttrV> {
    s.map_values(|a: Attribute| attr_view(a))
}

pub open spec fn html_view(h: Html) -> HtmlV
    decreases h,
{
    match h {
        Html::Text(t) => HtmlV::Text(t@),
        Html::Element(e) => HtmlV::Element(
            ElemV {
                tag: e.tag,
                attrs: attrs_view(e.attrs@),
                events: e.events@,
                children: children_view(e.children@),
            },
        ),
    }
}

pub open spec fn children_view(cs: Seq<Html>) -> Seq<HtmlV>
    decreases cs,
{
    if cs.len() == 0 {
        Seq::empty()
    } else {
        seq![html_view(cs[0])] + children_view(cs.drop_first())
    }
}

impl View for Html {
    type V = HtmlV;

    open spec fn view(&self) -> HtmlV {
        html_view(*self)
    }
}

impl View for Element {
    type V = ElemV;

    open spec fn view(&self) -> ElemV {
        ElemV {
            tag: self.tag,
            attrs: attrs_view(self.attrs@),
            events: self.events@,
            children: children_view(self.children@),
        }
    }
}

/// The model of a children list is the list of the children's models.
pub proof fn lemma_children_view(cs: Seq<Html>)
    ensures
        children_view(cs).len() == cs.len(),
        forall|k: int| 0 <= k < cs.len() ==> children_view(cs)[k] == html_view(cs[k]),
    decreases cs,
{
    if cs.len() > 0 {
        lemma_children_view(cs.drop_first());
    }
}

impl Element {
    /// A new element from its parts.
    pub fn new(tag: Tag, attrs: Vec<Attribute>, events: Vec<Event>, children: Vec<Html>) -> (e:
        Element)
        ensures
            e@ == (ElemV {
                tag,
                attrs: attrs_view(attrs@),
                events: events@,
                children: children_view(children@),
            }),
    {
        Element { tag, attrs, events, children }
    }

    /// An empty element with the given tag.
    pub fn tag(tag: Tag) -> (e: Element)
        ensures
            e@ == (ElemV {
                tag,
                attrs: Seq::<AttrV>::empty(),
                events: Seq::<Event>::empty(),
                children: Seq::<HtmlV>::empty(),
            }),
    {
        let e = Element { tag, attrs: Vec::new(), events: Vec::new(), children: Vec::new() };
        proof {
            assert(attrs_view(e.attrs@) =~= Seq::<AttrV>::empty());
            assert(e.events@ =~= Seq::<Event>::empty());
            assert(children_view(e.children@) =~= Seq::<HtmlV>::empty());
        }
        e
    }
}

/// Event identities of a node and everything below it, in preorder: a
/// node's own bindings first, then its children's, left to right. One
/// entry per binding occurrence.
pub open spec fn ids_of(h: HtmlV) -> Seq<EventId>
    decreases h,
{
    match h {
        HtmlV::Text(_) => Seq::empty(),
        HtmlV::Element(e) => e.events.map_values(|ev: Event| ev.id) + ids_kids(e.children),
    }
}

pub open spec fn ids_kids(cs: Seq<HtmlV>) -> Seq<EventId>
    decreases cs,
{
    if cs.len() == 0 {
        Seq::empty()
    } else {
        ids_of(cs[0]) + ids_kids(cs.drop_first())
    }
}

pub proof fn lemma_ids_kids_push(cs: Seq<HtmlV>, h: HtmlV)
    ensures
        ids_kids(cs.push(h)) == ids_kids(cs) + ids_of(h),
    decreases cs,
{
    if cs.len() == 0 {
        assert(cs.push(h).drop_first() =~= Seq::<HtmlV>::empty());
        assert(cs.push(h)[0] == h);
        assert(ids_kids(Seq::<HtmlV>::empty()) =~= Seq::<EventId>::empty());
        assert(ids_kids(cs.push(h)) =~= ids_kids(cs) + ids_of(h));
    } else {
        assert(cs.push(h).drop_first() =~= cs.drop_first().push(h));
        assert(cs.push(h)[0] == cs[0]);
        lemma_ids_kids_push(cs.drop_first(), h);
        assert(ids_kids(cs.push(h)) == ids_of(cs[0]) + ids_kids(cs.drop_first().push(h)));
        assert(ids_kids(cs.push(h)) =~= ids_kids(cs) + ids_of(h));
    }
}

impl Html {
    /// Gather the event identities of this node and all nodes below it.
    /// These are the listeners to release when the node leaves the tree.
    pub fn get_nested_event_ids(&self) -> (r: Vec<EventId>)
        ensures
            r@ == ids_of(self@),
    {
        let mut out: Vec<EventId> = Vec::new();
        self.recursively_gather_event_ids(&mut out);
        out
    }

    fn recursively_gather_event_ids(&self, out: &mut Vec<EventId>)
        ensures
            final(out)@ == old(out)@ + ids_of(self@),
        decreases *self,
    {
        match self {
            Html::Text(_) => {
                assert(out@ =~= out@ + ids_of(self@));
            },
            Html::Element(e) => {
                let ghost base = out@;
                let ghost evids = e.events@.map_values(|ev: Event| ev.id);
                let mut i: usize = 0;
                while i < e.events.len()
                    invariant
                        i <= e.events@.len(),
                        evids == e.events@.map_values(|ev: Event| ev.id),
                        out@ == base + evids.subrange(0, i as int),
                    decreases e.events@.len() - i,
                {
                    let ev = e.events[i];
                    out.push(ev.id);
                    assert(out@ =~= base + evids.subrange(0, i + 1 as int));
                    i += 1;
                }
                assert(evids.subrange(0, evids.len() as int) =~= evids);
                let ghost cv = children_view(e.children@);
                proof {
                    lemma_children_view(e.children@);
                }
                let mut j: usize = 0;
                while j < e.children.len()
                    invariant
                        *self == Html::Element(*e),
                        j <= e.children@.len(),
                        cv == children_view(e.children@),
                        cv.len() == e.children@.len(),
                        forall|k: int| 0 <= k < cv.len() ==> cv[k] == html_view(e.children@[k]),
                        evids == e.events@.map_values(|ev: Event| ev.id),
                        out@ == base + evids + ids_kids(cv.subrange(0, j as int)),
                    decreases e.children@.len() - j,
                {
                    proof {
                        lemma_ids_kids_push(cv.subrange(0, j as int), cv[j as int]);
                        assert(cv.subrange(0, j as int).push(cv[j as int]) =~= cv.subrange(
                            0,
                            j + 1 as int,
                        ));
                        assert(decreases_to!(*self => self->Element_0));
                        assert(decreases_to!(*e => e.children@[j as int]));
                    }
                    e.children[j].recursively_gather_event_ids(out);
                    j += 1;
                }
                proof {
                    assert(cv.subrange(0, cv.len() as int) =~= cv);
                }
            },
        }
    }
}

/// Distinct attribute keys: what makes attribute lists behave as sets
/// keyed by name.
pub open spec fn distinct_keys(attrs: Seq<AttrV>) -> bool {
    forall|i: int, j: int|
        0 <= i < j < attrs.len() ==> attr_key_of(attrs[i]) != attr_key_of(attrs[j])
}

/// Distinct event identities within one element's binding list.
pub open spec fn distinct_ids(events: Seq<Event>) -> bool {
    forall|i: int, j: int| 0 <= i < j < events.len() ==> events[i].id != events[j].id
}

/// A well-formed node: every element's attributes form a set keyed by
/// name and its bindings a set keyed by identity. The same identity may
/// still appear in any number of distinct elements.
pub open spec fn wf_html(h: HtmlV) -> bool
    decreases h,
{
    match h {
        HtmlV::Text(_) => true,
        HtmlV::Element(e) => distinct_keys(e.attrs) && distinct_ids(e.events) && wf_kids(
            e.children,
        ),
    }
}

pub open spec fn wf_kids(cs: Seq<HtmlV>) -> bool
    decreases cs,
{
    cs.len() == 0 || (wf_html(cs[0]) && wf_kids(cs.drop_first()))
}


fn clone_attrs(v: &Vec<Attribute>) -> (r: Vec<Attribute>)
    ensures
        attrs_view(r@) == attrs_view(v@),
{
    let mut r: Vec<Attribute> = Vec::new();
    let mut i: usize = 0;
    while i < v.len()
        invariant
            i <= v@.len(),
            r@.len() == i,
            forall|k: int| 0 <= k < i ==> attr_view(r@[k]) == attr_view(v@[k]),
        decreases v@.len() - i,
    {
        r.push(crate::html::clone_attr(&v[i]));
        i += 1;
    }
    proof {
        assert(attrs_view(r@) =~= attrs_view(v@));
    }
    r
}

fn clone_events(v: &Vec<Event>) -> (r: Vec<Event>)
    ensures
        r@ == v@,
{
    let mut r: Vec<Event> = Vec::new();
    let mut i: usize = 0;
    while i < v.len()
        invariant
            i <= v@.len(),
            r@ == v@.subrange(0, i as int),
        decreases v@.len() - i,
    {
        r.push(v[i]);
        assert(r@ =~= v@.subrange(0, i + 1 as int));
        i += 1;
    }
    proof {
        assert(v@.subrange(0, v@.len() as int) =~= v@);
    }
    r
}

/// A copy of a node with the same model.
pub fn clone_html(h: &Html) -> (r: Html)
    ensures
        r@ == h@,
    decreases *h,
{
    match h {
        Html::Text(t) => Html::Text(t.clone()),
        Html::Element(e) => {
            let tag = e.tag;
            let attrs = clone_attrs(&e.attrs);
            let events = clone_events(&e.events);
            let mut children: Vec<Html> = Vec::new();
            let ghost cv = children_view(e.children@);
            proof {
                lemma_children_view(e.children@);
            }
            let mut j: usize = 0;
            while j < e.children.len()
                invariant
                    *h == Html::Element(*e),
                    j <= e.children@.len(),
                    cv == children_view(e.children@),
                    cv.len() == e.children@.len(),
                    forall|k: int| 0 <= k < cv.len() ==> cv[k] == html_view(e.children@[k]),
                    children@.len() == j,
                    forall|k: int| 0 <= k < j ==> html_view(children@[k]) == cv[k],
                decreases e.children@.len() - j,
            {
                proof {
                    assert(decreases_to!(*h => h->Element_0));
                    assert(decreases_to!(*e => e.children@[j as int]));
                }
                let c = clone_html(&e.children[j]);
                children.push(c);
                j += 1;
            }
            proof {
                lemma_children_view(children@);
                assert(children_view(children@) =~= cv);
            }
            Html::Element(Element { tag, attrs, events, children })
        },
    }
}

/// Observational equality of two trees: what a reader of the live document
/// can tell apart. Text must match exactly; an element must have the same
/// tag, the same attributes and bindings as multisets (a document API
/// keeps no order on them), and pointwise observationally equal children.
pub open spec fn obs_eq(a: HtmlV, b: HtmlV) -> bool
    decreases a, 1int,
{
    match (a, b) {
        (HtmlV::Text(s), HtmlV::Text(t)) => s == t,
        (HtmlV::Element(x), HtmlV::Element(y)) => {
            &&& x.tag == y.tag
            &&& x.attrs.to_multiset() == y.attrs.to_multiset()
            &&& x.events.to_multiset() == y.events.to_multiset()
            &&& x.children.len() == y.children.len()
            &&& obs_kids(x.children, y.children)
        },
        _ => false,
    }
}

pub open spec fn obs_kids(xs: Seq<HtmlV>, ys: Seq<HtmlV>) -> bool
    decreases xs, 0int,
{
    xs.len() == ys.len() && (xs.len() == 0 || (obs_eq(xs[0], ys[0]) && obs_kids(
        xs.drop_first(),
        ys.drop_first(),
    )))
}

/// Child lists are observationally equal exactly when they have one
/// length and pointwise observationally equal entries.
pub proof fn lemma_obs_kids(xs: Seq<HtmlV>, ys: Seq<HtmlV>)
    ensures
        obs_kids(xs, ys) <==> (xs.len() == ys.len() && (forall|k: int|
            0 <= k < xs.len() ==> obs_eq(xs[k], ys[k]))),
    decreases xs,
{
    if xs.len() > 0 && ys.len() == xs.len() {
        lemma_obs_kids(xs.drop_first(), ys.drop_first());
        assert(forall|k: int| 1 <= k < xs.len() ==> xs.drop_first()[k - 1] == xs[k]);
        assert(forall|k: int| 1 <= k < ys.len() ==> ys.drop_first()[k - 1] == ys[k]);
        if obs_eq(xs[0], ys[0]) && (forall|k: int|
            0 <= k < xs.drop_first().len() ==> obs_eq(xs.drop_first()[k], ys.drop_first()[k])) {
            assert(forall|k: int| 0 <= k < xs.len() ==> obs_eq(xs[k], ys[k]));
        }
    }
}

/// Every tree is observationally equal to itself.
pub proof fn lemma_obs_refl(a: HtmlV)
    ensures
        obs_eq(a, a),
    decreases a, 1int,
{
    match a {
        HtmlV::Text(_) => {},
        HtmlV::Element(e) => {
            lemma_obs_kids_refl(e.children);
        },
    }
}

pub proof fn lemma_obs_kids_refl(xs: Seq<HtmlV>)
    ensures
        obs_kids(xs, xs),
    decreases xs, 0int,
{
    if xs.len() > 0 {
        lemma_obs_refl(xs[0]);
        lemma_obs_kids_refl(xs.drop_first());
    }
}

/// Things that can extend an element under construction: attributes and
/// bindings attach to it, nodes and text become children.
pub trait ElemMod {
    spec fn modify_spec(self, e: ElemV) -> ElemV;

    fn modify_element(self, elem: &mut Element)
        ensures
            final(elem)@ == self.modify_spec(old(elem)@),
    ;
}

impl ElemMod for Attribute {
    open spec fn modify_spec(self, e: ElemV) -> ElemV {
        ElemV { attrs: e.attrs.push(attr_view(self)), ..e }
    }

    fn modify_element(self, elem: &mut Element) {
        let ghost before = attrs_view(elem.attrs@);
        elem.attrs.push(self);
        proof {
            assert(attrs_view(elem.attrs@) =~= before.push(attr_view(self)));
        }
    }
}

impl ElemMod for Event {
    open spec fn modify_spec(self, e: ElemV) -> ElemV {
        ElemV { events: e.events.push(self), ..e }
    }

    fn modify_element(self, elem: &mut Element) {
        elem.events.push(self);
    }
}

impl ElemMod for Html {
    open spec fn modify_spec(self, e: ElemV) -> ElemV {
        ElemV { children: e.children.push(html_view(self)), ..e }
    }

    fn modify_element(self, elem: &mut Element) {
        let ghost before = children_view(elem.children@);
        let ghost h = html_view(self);
        elem.children.push(self);
        proof {
            lemma_children_view(elem.children@);
            lemma_children_view(elem.children@.drop_last());
            assert(elem.children@.drop_last() =~= old(elem).children@);
            assert(children_view(elem.children@) =~= before.push(h));
        }
    }
}

impl ElemMod for &'static str {
    /// Text extends an element as a new text child.
    open spec fn modify_spec(self, e: ElemV) -> ElemV {
        ElemV { children: e.children.push(HtmlV::Text(self@)), ..e }
    }

    fn modify_element(self, elem: &mut Element) {
        let ghost before = children_view(elem.children@);
        let ghost h = HtmlV::Text(self@);
        elem.children.push(Html::Text(self.to_owned()));
        proof {
            lemma_children_view(elem.children@);
            lemma_children_view(elem.children@.drop_last());
            assert(elem.children@.drop_last() =~= old(elem).children@);
            assert(children_view(elem.children@) =~= before.push(h));
        }
    }
}

/// One modifier after another, in list order.
pub open spec fn fold_mods<E: ElemMod>(es: Seq<E>, e: ElemV) -> ElemV
    decreases es,
{
    if es.len() == 0 {
        e
    } else {
        fold_mods(es.drop_first(), es[0].modify_spec(e))
    }
}

impl<E: ElemMod> ElemMod for Vec<E> {
    /// A list of modifiers applies each in turn.
    open spec fn modify_spec(self, e: ElemV) -> ElemV {
        fold_mods(self@, e)
    }

    fn modify_element(self, elem: &mut Element) {
        let ghost s0 = self@;
        let mut items = self;
        while items.len() > 0
            invariant
                fold_mods(s0, old(elem)@) == fold_mods(items@, elem@),
            decreases items@.len(),
        {
            let ghost pre = items@;
            let m = items.remove(0);
            proof {
                assert(m == pre[0]);
                assert(items@ =~= pre.drop_first());
            }
            m.modify_element(elem);
        }
    }
}

impl ElemMod for String {
    /// Text extends an element as a new text child.
    open spec fn modify_spec(self, e: ElemV) -> ElemV {
        ElemV { children: e.children.push(HtmlV::Text(self@)), ..e }
    }

    fn modify_element(self, elem: &mut Element) {
        let ghost before = children_view(elem.children@);
        let ghost h = HtmlV::Text(self@);
        elem.children.push(Html::Text(self));
        proof {
            lemma_children_view(elem.children@);
            lemma_children_view(elem.children@.drop_last());
            assert(elem.children@.drop_last() =~= old(elem).children@);
            assert(children_view(elem.children@) =~= before.push(h));
        }
    }
}

} // verus!
