//! The diff engine and patch applier on concrete trees: determinism,
//! positional edge cases, round trips, and listener refcounts.
use arbor::html::{value, Attribute};
use arbor::vdom::{on_click, on_input, ElemMod, Element, Event, EventKind, Html};
use arbor::{apply_diff, diff_vdom, clone_html, Delta, Diff, Registry, Tag};

fn t(s: &str) -> Html {
    Html::Text(s.to_string())
}

fn list(children: Vec<Html>) -> Html {
    Html::Element(Element::new(Tag::Ul, vec![], vec![], children))
}

fn div(attrs: Vec<Attribute>, events: Vec<Event>, children: Vec<Html>) -> Html {
    Html::Element(Element::new(Tag::Div, attrs, events, children))
}

#[test]
fn diff_is_deterministic() {
    let a = div(vec![value("x".to_string())], vec![on_click(1)], vec![t("hello")]);
    let b = div(vec![value("y".to_string())], vec![on_click(2)], vec![t("world"), t("!")]);
    let d1 = diff_vdom(&a, &b);
    let d2 = diff_vdom(&a, &b);
    assert_eq!(d1, d2);
}

#[test]
fn diff_of_equal_trees_is_unchanged() {
    let a = div(vec![value("x".to_string())], vec![on_input(4)], vec![t("hi"), list(vec![])]);
    let same = div(vec![value("x".to_string())], vec![on_input(4)], vec![t("hi"), list(vec![])]);
    assert!(diff_vdom(&a, &a).is_unchanged());
    assert!(diff_vdom(&a, &same).is_unchanged());
}

#[test]
fn diff_text_change_is_replace() {
    let d = diff_vdom(&t("0"), &t("1"));
    match d {
        Diff::Replace { with, events_to_rm } => {
            assert_eq!(with, t("1"));
            assert!(events_to_rm.is_empty());
        },
        _ => panic!("expected a replacement"),
    }
}

#[test]
fn diff_tag_change_carries_old_event_ids() {
    let a = Html::Element(Element::new(Tag::Div, vec![], vec![on_click(7)], vec![
        Html::Element(Element::new(Tag::Span, vec![], vec![on_click(8)], vec![])),
    ]));
    let b = Html::Element(Element::tag(Tag::Span));
    match diff_vdom(&a, &b) {
        Diff::Replace { events_to_rm, .. } => {
            assert_eq!(events_to_rm, vec![7, 8]);
        },
        _ => panic!("expected a replacement"),
    }
}

#[test]
fn diff_appended_child_is_single_insert_at_tail() {
    let old = list(vec![t("a"), t("b"), t("c")]);
    let new = list(vec![t("a"), t("b"), t("c"), t("d")]);
    match diff_vdom(&old, &new) {
        Diff::Update { attrs, events, children } => {
            assert!(attrs.is_empty());
            assert!(events.is_empty());
            assert_eq!(children.len(), 1);
            assert_eq!(children[0].0, 3);
            assert!(matches!(&children[0].1, Diff::Insert(n) if *n == t("d")));
        },
        _ => panic!("expected an update"),
    }
}

#[test]
fn diff_truncated_child_is_single_remove_at_tail() {
    let old = list(vec![t("a"), t("b"), t("c")]);
    let new = list(vec![t("a"), t("b")]);
    match diff_vdom(&old, &new) {
        Diff::Update { attrs, events, children } => {
            assert!(attrs.is_empty());
            assert!(events.is_empty());
            assert_eq!(children.len(), 1);
            assert_eq!(children[0].0, 2);
            assert!(matches!(&children[0].1, Diff::Remove { events_to_rm } if events_to_rm.is_empty()));
        },
        _ => panic!("expected an update"),
    }
}

#[test]
fn diff_swapped_children_patch_both_positions() {
    let old = list(vec![t("a"), t("b")]);
    let new = list(vec![t("b"), t("a")]);
    match diff_vdom(&old, &new) {
        Diff::Update { children, .. } => {
            assert_eq!(children.len(), 2);
            assert_eq!(children[0].0, 0);
            assert_eq!(children[1].0, 1);
            assert!(matches!(&children[0].1, Diff::Replace { with, .. } if *with == t("b")));
            assert!(matches!(&children[1].1, Diff::Replace { with, .. } if *with == t("a")));
        },
        _ => panic!("expected an update"),
    }
}

#[test]
fn diff_attr_delta_lists_removals_then_additions() {
    let old = div(vec![value("a".to_string())], vec![], vec![]);
    let new = div(vec![value("b".to_string())], vec![], vec![]);
    match diff_vdom(&old, &new) {
        Diff::Update { attrs, .. } => {
            assert_eq!(attrs.len(), 2);
            assert_eq!(attrs[0], Delta::Remove(value("a".to_string())));
            assert_eq!(attrs[1], Delta::Add(value("b".to_string())));
        },
        _ => panic!("expected an update"),
    }
}

/// Mount a tree into an empty division, as the bootstrap does, so the
/// registry holds exactly the tree's binding occurrences.
fn mount(a: &Html, reg: &mut Registry) -> Html {
    let empty = Html::Element(Element::tag(Tag::Div));
    let d = diff_vdom(&empty, a);
    apply_diff(empty, &d, reg)
}

#[test]
fn patch_round_trips_live_tree() {
    let a = div(
        vec![value("before".to_string())],
        vec![on_click(1)],
        vec![t("x"), div(vec![], vec![on_input(2)], vec![])],
    );
    let b = div(
        vec![value("after".to_string())],
        vec![on_click(1)],
        vec![t("y"), div(vec![], vec![on_input(2)], vec![]), t("z")],
    );
    let mut reg = Registry::new();
    let live = mount(&a, &mut reg);
    assert_eq!(live, a);
    assert_eq!(reg.refcount(1), 1);
    assert_eq!(reg.refcount(2), 1);
    let d = diff_vdom(&a, &b);
    let live2 = apply_diff(live, &d, &mut reg);
    assert_eq!(live2, b);
    assert_eq!(reg.refcount(1), 1);
    assert_eq!(reg.refcount(2), 1);
    assert_eq!(reg.len(), 2);
}

#[test]
fn refcounts_track_occurrences_and_unmount_empties_registry() {
    // Two buttons share one logical listener: identity 5 twice.
    let shared = div(vec![], vec![], vec![
        Html::Element(Element::new(Tag::Button, vec![], vec![on_click(5)], vec![])),
        Html::Element(Element::new(Tag::Button, vec![], vec![on_click(5)], vec![])),
    ]);
    let mut reg = Registry::new();
    let live = mount(&shared, &mut reg);
    assert_eq!(reg.refcount(5), 2);
    assert_eq!(reg.len(), 2);
    // Drop one button: the shared listener must stay registered.
    let one = div(vec![], vec![], vec![
        Html::Element(Element::new(Tag::Button, vec![], vec![on_click(5)], vec![])),
    ]);
    let d = diff_vdom(&live, &one);
    let live = apply_diff(live, &d, &mut reg);
    assert_eq!(reg.refcount(5), 1);
    // Replace everything with an empty tree: nothing stays registered.
    let blank = Html::Element(Element::tag(Tag::Span));
    let d = diff_vdom(&live, &blank);
    let live = apply_diff(live, &d, &mut reg);
    assert_eq!(live, blank);
    assert!(reg.is_empty());
    assert_eq!(reg.len(), 0);
}

#[test]
fn registry_release_signals_only_on_last_occurrence() {
    let mut reg = Registry::new();
    reg.stash(9);
    reg.stash(9);
    assert_eq!(reg.refcount(9), 2);
    assert!(!reg.release(9));
    assert_eq!(reg.refcount(9), 1);
    assert!(reg.release(9));
    assert_eq!(reg.refcount(9), 0);
    // Releasing an absent identity is a no-op.
    assert!(!reg.release(9));
    assert!(!reg.release(1234));
    assert!(reg.is_empty());
}

#[test]
fn event_delta_attaches_and_releases_by_identity() {
    let old = div(vec![], vec![on_click(1), on_input(2)], vec![]);
    let new = div(vec![], vec![on_click(1), on_input(3)], vec![]);
    let mut reg = Registry::new();
    let live = mount(&old, &mut reg);
    let d = diff_vdom(&old, &new);
    match &d {
        Diff::Update { events, .. } => {
            assert_eq!(events.len(), 2);
            assert_eq!(events[0], Delta::Remove(on_input(2)));
            assert_eq!(events[1], Delta::Add(on_input(3)));
        },
        _ => panic!("expected an update"),
    }
    let live2 = apply_diff(live, &d, &mut reg);
    assert_eq!(live2, new);
    assert_eq!(reg.refcount(1), 1);
    assert_eq!(reg.refcount(2), 0);
    assert_eq!(reg.refcount(3), 1);
}

#[test]
fn clone_preserves_structure() {
    let a = div(vec![value("v".to_string())], vec![on_click(3)], vec![t("x"), list(vec![t("y")])]);
    let c = clone_html(&a);
    assert_eq!(c, a);
}

#[test]
fn gather_ids_is_preorder_with_multiplicity() {
    let a = div(vec![], vec![on_click(1)], vec![
        div(vec![], vec![on_click(2)], vec![]),
        div(vec![], vec![on_click(1)], vec![]),
    ]);
    assert_eq!(a.get_nested_event_ids(), vec![1, 2, 1]);
}

#[test]
fn elem_mod_extends_an_element() {
    let mut e = Element::tag(Tag::Div);
    value("v".to_string()).modify_element(&mut e);
    on_click(3).modify_element(&mut e);
    t("text").modify_element(&mut e);
    "more".to_string().modify_element(&mut e);
    assert_eq!(
        Html::Element(e),
        div(
            vec![value("v".to_string())],
            vec![on_click(3)],
            vec![t("text"), t("more")],
        )
    );
}

#[test]
fn elem_mod_list_applies_each_in_turn() {
    let mut e = Element::tag(Tag::Ul);
    vec![t("a"), t("b")].modify_element(&mut e);
    "c".modify_element(&mut e);
    assert_eq!(Html::Element(e), list(vec![t("a"), t("b"), t("c")]));
}

#[test]
fn event_builders_carry_kind_and_identity() {
    let c = on_click(10);
    assert_eq!(c.kind, EventKind::Click);
    assert_eq!(c.id, 10);
    let i = on_input(11);
    assert_eq!(i.kind, EventKind::Input);
    assert_eq!(i.id, 11);
}
