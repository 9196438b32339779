//! The command processor end to end: quiescence, the loop guard, and the
//! counter scenario.
use arbor::html::{class, id, placeholder, value, AttrKey, Attribute, Classify, Style, Tag};
use arbor::sample::{render_u64, Counter, CounterMsg, Relay};
use arbor::vdom::Html;
use arbor::{classify_link, App, Blank, Cmd, Diff, Fatal, HostOp, RunExit, Sub, UrlRequest};

fn patches<T>(ops: &[HostOp<T>]) -> usize {
    ops.iter().filter(|op| matches!(op, HostOp::Patch(_))).count()
}

#[test]
fn none_on_quiescent_app_touches_nothing() {
    let mut app: App<Blank> = App::new(Blank);
    let mut ops = Vec::new();
    // The first run brings the live tree in step with the model.
    let r = app.loop_update(Cmd::none(), &mut ops);
    assert_eq!(r, Ok(RunExit::Rendered));
    let after_mount = ops.len();
    // A do-nothing effect on a quiescent handle must not patch anything.
    let r = app.loop_update(Cmd::none(), &mut ops);
    assert_eq!(r, Ok(RunExit::Rendered));
    assert_eq!(ops.len(), after_mount);
    let r = app.loop_update(Cmd::none(), &mut ops);
    assert_eq!(r, Ok(RunExit::Rendered));
    assert_eq!(ops.len(), after_mount);
}

#[test]
fn loop_guard_aborts_self_feeding_update() {
    let mut app: App<Relay> = App::new(Relay);
    let mut ops = Vec::new();
    let r = app.loop_update(Cmd::msg(()), &mut ops);
    assert_eq!(r, Err(Fatal::InfiniteLoop));
    // No render happened on the aborted run.
    assert_eq!(patches(&ops), 0);
}

#[test]
fn counter_scenario_one_replace_per_change() {
    let mut app: App<Counter> = App::new(Counter { count: 0 });
    let mut ops = Vec::new();
    let r = app.loop_update(Cmd::none(), &mut ops);
    assert_eq!(r, Ok(RunExit::Rendered));
    assert_eq!(patches(&ops), 1);
    // Dispatch one increment: the text "0" is replaced by "1", exactly once.
    let before = ops.len();
    let r = app.loop_update(Cmd::msg(CounterMsg::Increment), &mut ops);
    assert_eq!(r, Ok(RunExit::Rendered));
    assert_eq!(ops.len(), before + 1);
    match &ops[before] {
        HostOp::Patch(Diff::Replace { with, events_to_rm }) => {
            assert_eq!(*with, Html::Text("1".to_string()));
            assert!(events_to_rm.is_empty());
        },
        _ => panic!("expected exactly one replacement patch"),
    }
    // A further run with no message changes nothing.
    let before = ops.len();
    let r = app.loop_update(Cmd::none(), &mut ops);
    assert_eq!(r, Ok(RunExit::Rendered));
    assert_eq!(ops.len(), before);
}

#[test]
fn counter_decrement_saturates_at_zero() {
    let mut app: App<Counter> = App::new(Counter { count: 0 });
    let mut ops = Vec::new();
    app.loop_update(Cmd::none(), &mut ops).unwrap();
    let before = ops.len();
    // Decrementing zero leaves the model and the page alone.
    let r = app.loop_update(Cmd::msg(CounterMsg::Decrement), &mut ops);
    assert_eq!(r, Ok(RunExit::Rendered));
    assert_eq!(ops.len(), before);
}

#[test]
fn multiple_runs_children_in_order() {
    let mut app: App<Counter> = App::new(Counter { count: 0 });
    let mut ops = Vec::new();
    app.loop_update(Cmd::none(), &mut ops).unwrap();
    let before = ops.len();
    let cmd = Cmd::multiple(vec![
        Cmd::msg(CounterMsg::Increment),
        Cmd::msg(CounterMsg::Increment),
    ]);
    let r = app.loop_update(cmd, &mut ops);
    assert_eq!(r, Ok(RunExit::Rendered));
    // Each child performed its own render: "0" -> "1", then "1" -> "2".
    assert_eq!(ops.len(), before + 2);
    match (&ops[before], &ops[before + 1]) {
        (HostOp::Patch(Diff::Replace { with: w1, .. }), HostOp::Patch(Diff::Replace {
            with: w2,
            ..
        })) => {
            assert_eq!(*w1, Html::Text("1".to_string()));
            assert_eq!(*w2, Html::Text("2".to_string()));
        },
        _ => panic!("expected two replacement patches"),
    }
}

#[test]
fn load_url_returns_without_render() {
    let mut app: App<Blank> = App::new(Blank);
    let mut ops = Vec::new();
    let r = app.loop_update(Cmd::load_url("https://example.test/away".to_string()), &mut ops);
    assert_eq!(r, Ok(RunExit::Skipped));
    assert_eq!(ops.len(), 1);
    assert!(matches!(&ops[0], HostOp::LoadUrl(u) if u == "https://example.test/away"));
}

#[test]
fn push_url_records_state_then_routes() {
    let mut app: App<Blank> = App::new(Blank);
    let mut ops = Vec::new();
    let r = app.loop_update(Cmd::push_url("/inbox".to_string()), &mut ops);
    // Blank routes every location to the do-nothing effect, so the run
    // records the state and then renders.
    assert_eq!(r, Ok(RunExit::Rendered));
    assert!(matches!(&ops[0], HostOp::PushState(u) if u == "/inbox"));
}

#[test]
fn spawn_hands_task_to_host_without_render() {
    let mut app: App<Blank> = App::new(Blank);
    let mut ops = Vec::new();
    let r = app.loop_update(Cmd::spawn(()), &mut ops);
    assert_eq!(r, Ok(RunExit::Skipped));
    assert_eq!(ops.len(), 1);
    assert!(matches!(&ops[0], HostOp::Spawn(())));
}

#[test]
fn listener_accounts_visible_to_host() {
    let app: App<Blank> = App::new(Blank);
    assert_eq!(app.listener_total(), 0);
    assert_eq!(app.listener_refcount(1), 0);
}

#[test]
fn classify_link_ignores_non_anchors() {
    let r = classify_link(
        &"DIV".to_string(),
        "https://example.test/x".to_string(),
        &"example.test".to_string(),
        &"example.test".to_string(),
    );
    assert_eq!(r, None);
}

#[test]
fn classify_link_same_host_is_internal() {
    let r = classify_link(
        &"A".to_string(),
        "https://example.test/x".to_string(),
        &"example.test".to_string(),
        &"example.test".to_string(),
    );
    assert_eq!(r, Some(UrlRequest::Internal("https://example.test/x".to_string())));
}

#[test]
fn classify_link_other_host_is_external() {
    let r = classify_link(
        &"A".to_string(),
        "https://elsewhere.test/x".to_string(),
        &"elsewhere.test".to_string(),
        &"example.test".to_string(),
    );
    assert_eq!(r, Some(UrlRequest::External("https://elsewhere.test/x".to_string())));
}

#[test]
fn render_u64_gives_decimal_digits() {
    assert_eq!(render_u64(0), "0");
    assert_eq!(render_u64(7), "7");
    assert_eq!(render_u64(10), "10");
    assert_eq!(render_u64(90210), "90210");
    assert_eq!(render_u64(u64::MAX), "18446744073709551615");
}

#[test]
fn attribute_builders_key_by_name() {
    assert_eq!(value("v".to_string()).key(), AttrKey::Value);
    assert_eq!(id("i".to_string()).key(), AttrKey::Id);
    assert_eq!(placeholder("p".to_string()).key(), AttrKey::Placeholder);
    assert_eq!(class("wide".to_string()).key(), AttrKey::Class);
    assert_eq!(Attribute::Style(Style).key(), AttrKey::Style);
    assert_eq!(class("wide".to_string()), Attribute::Class(vec!["wide".to_string()]));
}

#[test]
fn classify_splits_one_class() {
    assert_eq!("a b".to_string().classify(), vec!["a b".to_string()]);
}

#[test]
fn tag_names_match_document_names() {
    assert_eq!(Tag::Div.name(), "div");
    assert_eq!(Tag::A.name(), "a");
    assert_eq!(Tag::H2.name(), "h2");
}

#[test]
fn sub_carries_subscriptions() {
    let s: Sub<u32> = Sub::none();
    assert_eq!(s.subs.len(), 0);
    let s = Sub::new(vec![1u32, 2u32]);
    assert_eq!(s.subs, vec![1u32, 2u32]);
}
