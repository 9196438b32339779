//! The command processor: owns the model, drives `update` to quiescence,
//! interprets effect values, and performs at most one render-and-patch
//! cycle per run. Everything the host must do outside the model — spawn a
//! task, move the location, mirror a patch onto the real document — comes
//! back as plain data in the order it must happen.
use vstd::prelude::*;

use crate::diff::{diff_vdom, spec_diff, Diff};
use crate::html::Tag;
use crate::laws::{lemma_obs_eq_diff_unchanged, lemma_obs_eq_ids, lemma_obs_eq_wf,
    lemma_patch_round_trip};
use crate::patch::apply_diff;
use crate::registry::Registry;
use crate::vdom::{ids_of, obs_eq, wf_html, Element, Html, HtmlV};

verus! {

broadcast use vstd::seq_lib::group_to_multiset_ensures, vstd::multiset::group_multiset_axioms;

/// How many chained messages one run may process before the processor
/// aborts: a defense against an `update` that dispatches to itself
/// forever, not a normal control structure.
pub const LOOP_LIMIT: u32 = 100;

/// The shapes an effect can take. Effects are inert values: only the
/// command processor interprets them.
pub enum CmdInner<Msg, T> {
    /// Do nothing; the run proceeds to its render step.
    Nothing,
    /// Do nothing and skip the render step too.
    NoOp,
    /// Feed one message to `update` and continue with its effect.
    Msg(Msg),
    /// Run each effect to completion, in order.
    Multiple(Vec<Cmd<Msg, T>>),
    /// Hand a unit of asynchronous work to the host; its resolution
    /// re-enters the processor as a fresh run.
    Spawn(T),
    /// Leave the page for the given location; the current document is
    /// about to be discarded, so no render follows.
    LoadUrl(String),
    /// Record a new navigation state, then continue with the effect the
    /// route-from-location hook derives from it.
    PushUrl(String),
}

/// An event-loop command: an inert description of work, interpreted only
/// by the command processor.
pub struct Cmd<Msg, T>(CmdInner<Msg, T>);

impl<Msg, T> View for Cmd<Msg, T> {
    type V = CmdInner<Msg, T>;

    closed spec fn view(&self) -> CmdInner<Msg, T> {
        self.0
    }
}

impl<Msg, T> Cmd<Msg, T> {
    /// Do nothing.
    pub fn none() -> (c: Cmd<Msg, T>)
        ensures
            c@ is Nothing,
    {
        Cmd(CmdInner::Nothing)
    }

    /// Send a message to the `update` function. The page is rendered
    /// after all messages in a chain have been run.
    pub fn msg(msg: Msg) -> (c: Cmd<Msg, T>)
        ensures
            c@ == CmdInner::<Msg, T>::Msg(msg),
    {
        Cmd(CmdInner::Msg(msg))
    }

    /// Run several commands in turn; each performs its own render step.
    pub fn multiple(cmds: Vec<Cmd<Msg, T>>) -> (c: Cmd<Msg, T>)
        ensures
            c@ == CmdInner::<Msg, T>::Multiple(cmds),
    {
        Cmd(CmdInner::Multiple(cmds))
    }

    /// Hand a unit of asynchronous work to the host. When it resolves,
    /// the host re-enters the processor with the resulting command.
    pub fn spawn(task: T) -> (c: Cmd<Msg, T>)
        ensures
            c@ == CmdInner::<Msg, T>::Spawn(task),
    {
        Cmd(CmdInner::Spawn(task))
    }

    /// Change the page location to the supplied path, keeping the
    /// application alive.
    pub fn push_url(url: String) -> (c: Cmd<Msg, T>)
        ensures
            c@ == CmdInner::<Msg, T>::PushUrl(url),
    {
        Cmd(CmdInner::PushUrl(url))
    }

    /// Load the supplied location outright. This forces a page load,
    /// destroying the running application.
    pub fn load_url(url: String) -> (c: Cmd<Msg, T>)
        ensures
            c@ == CmdInner::<Msg, T>::LoadUrl(url),
    {
        Cmd(CmdInner::LoadUrl(url))
    }
}

/// A token granting access to subscription machinery; handed out by the
/// bootstrap and never constructible by application code by accident.
pub struct Key(());

impl Key {
    /// Mint the capability token. Meant for the host's bootstrap path.
    pub fn new() -> Key {
        Key(())
    }
}

/// A request to navigate, classified against the current origin.
#[derive(Debug, Clone, PartialEq, Eq, Hash)]
pub enum UrlRequest {
    Internal(String),
    External(String),
}

/// A set of subscriptions, as handed back by the application's subscribe
/// hook. The processor only carries them; registration mechanics live
/// with the host.
pub struct Sub<S> {
    pub subs: Vec<S>,
}

impl<S> Sub<S> {
    /// No subscriptions.
    pub fn none() -> (s: Sub<S>)
        ensures
            s.subs@.len() == 0,
    {
        Sub { subs: Vec::new() }
    }

    /// The given subscriptions.
    pub fn new(subs: Vec<S>) -> (s: Sub<S>)
        ensures
            s.subs == subs,
    {
        Sub { subs }
    }
}

/// A fatal, programmer-logic error: the processor aborts the run loudly
/// rather than hang or corrupt state.
#[derive(Debug, Clone, Copy, PartialEq, Eq, Structural)]
pub enum Fatal {
    /// More than `LOOP_LIMIT` chained messages in one run.
    InfiniteLoop,
}

/// How a run ended: with a render step, or deliberately without one.
#[derive(Debug, Clone, Copy, PartialEq, Eq, Structural)]
pub enum RunExit {
    Rendered,
    Skipped,
}

/// One outward action the host must perform, in order.
pub enum HostOp<T> {
    /// Start this asynchronous work; feed its resulting command back in.
    Spawn(T),
    /// Record this location as new navigation state.
    PushState(String),
    /// Leave the page for this location.
    LoadUrl(String),
    /// Mirror this patch onto the real document. The model tree and the
    /// registry have already moved; identities whose refcount reached
    /// zero may have their platform handlers detached.
    Patch(Diff),
}

/// The synchronous part of one processor run, as a function: fold the
/// model's transition over each message in the order emitted, and the
/// route hook over each recorded navigation, until a command remains that
/// does not chain. `None` means the chain outlived the budget and the
/// processor aborts. The trace lists the navigation records the chain
/// emits on the way, in order.
pub open spec fn run_chain<M: Model>(m: M, c: CmdInner<M::Msg, M::Task>, gas: nat) -> Option<
    (M, CmdInner<M::Msg, M::Task>, Seq<HostOp<M::Task>>),
>
    decreases gas,
{
    match c {
        CmdInner::Msg(msg) => {
            let (m2, c2) = m.update_spec(msg);
            if gas == 0 {
                None
            } else {
                run_chain(m2, c2, (gas - 1) as nat)
            }
        },
        CmdInner::PushUrl(u) => {
            if gas == 0 {
                None
            } else {
                match run_chain(m, M::on_url_change_spec(u@), (gas - 1) as nat) {
                    None => None,
                    Some((m3, c3, tr)) => Some((m3, c3, seq![HostOp::PushState(u)] + tr)),
                }
            }
        },
        _ => Some((m, c, Seq::empty())),
    }
}

/// Put already-emitted host work in front of a chain's trace.
pub open spec fn chain_prepend<M: Model>(
    p: Seq<HostOp<M::Task>>,
    o: Option<(M, CmdInner<M::Msg, M::Task>, Seq<HostOp<M::Task>>)>,
) -> Option<(M, CmdInner<M::Msg, M::Task>, Seq<HostOp<M::Task>>)> {
    match o {
        None => None,
        Some((m, c, tr)) => Some((m, c, p + tr)),
    }
}

/// The application model: the single owner of page state. `update` and
/// `view` are the pure functions of the architecture; `view_spec` is the
/// mathematical statement of what `view` renders, and `view` must produce
/// exactly that, well-formed.
pub trait Model: Sized {
    type Msg;

    type Task;

    spec fn view_spec(&self) -> HtmlV;

    /// The mathematical statement of one update step: the transition
    /// function of the architecture, which `update` must compute exactly.
    spec fn update_spec(self, msg: Self::Msg) -> (Self, CmdInner<Self::Msg, Self::Task>);

    /// The mathematical statement of the route-from-location hook.
    spec fn on_url_change_spec(url: Seq<char>) -> CmdInner<Self::Msg, Self::Task>;

    /// Fold one message into the model, yielding the next model and a
    /// follow-up effect.
    fn update(self, msg: Self::Msg) -> (r: (Self, Cmd<Self::Msg, Self::Task>))
        ensures
            r.0 == self.update_spec(msg).0,
            r.1@ == self.update_spec(msg).1,
    ;

    /// Render the model as a virtual tree.
    fn view(&self) -> (h: Html)
        ensures
            h@ == self.view_spec(),
            wf_html(self.view_spec()),
    ;

    /// Map a changed location to an effect.
    fn on_url_change(url: &String) -> (c: Cmd<Self::Msg, Self::Task>)
        ensures
            c@ == Self::on_url_change_spec(url@),
    ;

    /// This model with no effect.
    fn no_cmd(self) -> (r: (Self, Cmd<Self::Msg, Self::Task>))
        ensures
            r.0 == self,
            r.1@ is Nothing,
    {
        (self, Cmd::none())
    }

    /// This model with the given effect.
    fn with_cmd(self, cmd: Cmd<Self::Msg, Self::Task>) -> (r: (Self, Cmd<Self::Msg, Self::Task>))
        ensures
            r.0 == self,
            r.1 == cmd,
    {
        (self, cmd)
    }
}

/// The trivial application: no state, a blank page. Handy for quick
/// layout experiments and as the simplest inhabitant of `Model`.
pub struct Blank;

impl Model for Blank {
    type Msg = ();

    type Task = ();

    open spec fn view_spec(&self) -> HtmlV {
        HtmlV::Text(Seq::empty())
    }

    open spec fn update_spec(self, msg: ()) -> (Blank, CmdInner<(), ()>) {
        (Blank, CmdInner::Nothing)
    }

    open spec fn on_url_change_spec(url: Seq<char>) -> CmdInner<(), ()> {
        CmdInner::Nothing
    }

    fn update(self, msg: ()) -> (r: (Blank, Cmd<(), ()>)) {
        (Blank, Cmd::none())
    }

    fn view(&self) -> (h: Html)
        ensures
            h@ == self.view_spec(),
            wf_html(self.view_spec()),
    {
        Html::Text(String::new())
    }

    fn on_url_change(url: &String) -> Cmd<(), ()> {
        Cmd::none()
    }
}

/// Decide what a click on a document element means for navigation.
/// Anything but an anchor is ignored; an anchor pointing at the current
/// host is an in-application move, any other a departure.
pub fn classify_link(
    tag_name: &String,
    href: String,
    anchor_host: &String,
    page_host: &String,
) -> (r: Option<UrlRequest>)
    ensures
        tag_name@ != "A"@ ==> r is None,
        tag_name@ == "A"@ && anchor_host@ == page_host@ ==> r == Some(
            UrlRequest::Internal(href),
        ),
        tag_name@ == "A"@ && anchor_host@ != page_host@ ==> r == Some(
            UrlRequest::External(href),
        ),
{
    let anchor_tag: String = "A".to_owned();
    if !(*tag_name == anchor_tag) {
        None
    } else if *anchor_host == *page_host {
        Some(UrlRequest::Internal(href))
    } else {
        Some(UrlRequest::External(href))
    }
}

/// The application handle: the model, the last-rendered tree (the model
/// of the live document), and the listener registry. One instance drives
/// one page for the page's whole life.
pub struct App<M: Model> {
    model: Option<M>,
    current_vdom: Html,
    listeners: Registry,
}

impl<M: Model> App<M> {
    /// The handle's invariant: a model is present except during the
    /// synchronous extent of one `update` call, the live tree is
    /// well-formed, and the registry holds exactly one occurrence per
    /// event binding in the live tree.
    pub closed spec fn inv(&self) -> bool {
        &&& self.model is Some
        &&& wf_html(self.current_vdom@)
        &&& self.listeners@ == ids_of(self.current_vdom@).to_multiset()
    }

    /// Quiescent agreement: the live tree shows exactly what the current
    /// model renders.
    pub closed spec fn synced(&self) -> bool {
        &&& self.model is Some
        &&& obs_eq(self.current_vdom@, self.model->Some_0.view_spec())
    }

    /// A fresh handle around an initial model. The live document starts
    /// as an empty division, in step with `current_vdom`; the first run
    /// renders the model over it.
    pub fn new(model: M) -> (app: App<M>)
        ensures
            app.inv(),
    {
        let tree = Html::Element(Element::tag(Tag::Div));
        let app = App { model: Some(model), current_vdom: tree, listeners: Registry::new() };
        proof {
            assert(wf_html(app.current_vdom@));
            assert(ids_of(app.current_vdom@) =~= Seq::<crate::vdom::EventId>::empty());
            assert(ids_of(app.current_vdom@).to_multiset().len() == 0);
            assert(app.listeners@ =~= ids_of(app.current_vdom@).to_multiset());
        }
        app
    }

    /// The registry's model: the multiset of live binding identities.
    pub closed spec fn registry_view(&self) -> vstd::multiset::Multiset<crate::vdom::EventId> {
        self.listeners@
    }

    /// The stored model, if not mid-update.
    pub closed spec fn model_of(&self) -> Option<M> {
        self.model
    }

    /// The model of the last-rendered (live) tree.
    pub closed spec fn tree_view(&self) -> HtmlV {
        self.current_vdom@
    }

    /// The refcount the registry holds for one identity. The host uses
    /// this after a patch to decide which platform handlers to detach.
    pub fn listener_refcount(&self, id: crate::vdom::EventId) -> (n: usize)
        ensures
            n == self.registry_view().count(id),
    {
        self.listeners.refcount(id)
    }

    /// The number of live binding occurrences across the whole tree.
    pub fn listener_total(&self) -> (n: usize)
        ensures
            n == self.registry_view().len(),
    {
        self.listeners.len()
    }

    /// Process one effect to exhaustion, then perform at most one
    /// render-and-patch cycle. Outward work is appended to `ops` in the
    /// order the host must perform it.
    ///
    /// The synchronous chain is exactly `run_chain`: `update` folded over
    /// each message in emission order, the route hook over each recorded
    /// navigation. Where the chain ends in a command other than `Multiple`,
    /// the contract fixes the result completely: the final model is the
    /// chain's fold, the op list grows by exactly the chain's navigation
    /// records plus the closing op of the terminal command — for the
    /// do-nothing terminal, the patch of the old tree against the new
    /// model's rendering, and nothing at all when they already agree — and
    /// the run aborts with the fatal error exactly when the chain outlives
    /// `LOOP_LIMIT`. A run that ends `Rendered` leaves the live tree
    /// showing exactly what the model renders; a run over the do-nothing
    /// effect on a quiescent handle changes nothing and emits nothing —
    /// the patch applier is never invoked.
    pub fn loop_update(&mut self, cmd: Cmd<M::Msg, M::Task>, ops: &mut Vec<HostOp<M::Task>>) -> (r:
        Result<RunExit, Fatal>)
        requires
            old(self).inv(),
        ensures
            final(self).inv(),
            r == Ok::<RunExit, Fatal>(RunExit::Rendered) ==> final(self).synced(),
            old(self).synced() && cmd@ is Nothing ==> r == Ok::<RunExit, Fatal>(
                RunExit::Rendered,
            ) && *final(self) == *old(self) && final(ops)@ == old(ops)@,
            cmd@ is Nothing ==> r == Ok::<RunExit, Fatal>(RunExit::Rendered),
            cmd@ is NoOp ==> r == Ok::<RunExit, Fatal>(RunExit::Skipped) && *final(self)
                == *old(self) && final(ops)@ == old(ops)@,
            cmd@ matches CmdInner::Spawn(t) ==> r == Ok::<RunExit, Fatal>(RunExit::Skipped)
                && *final(self) == *old(self) && final(ops)@ == old(ops)@.push(HostOp::Spawn(t)),
            cmd@ matches CmdInner::LoadUrl(u) ==> r == Ok::<RunExit, Fatal>(RunExit::Skipped)
                && *final(self) == *old(self) && final(ops)@ == old(ops)@.push(HostOp::LoadUrl(u)),
            old(ops)@.is_prefix_of(final(ops)@),
            ({
                let end = run_chain::<M>(old(self).model_of()->Some_0, cmd@, LOOP_LIMIT as nat);
                &&& (end is None ==> r == Err::<RunExit, Fatal>(Fatal::InfiniteLoop))
                &&& (end matches Some((m2, c2, tr)) ==> {
                    &&& (c2 is Nothing ==> ({
                        &&& r == Ok::<RunExit, Fatal>(RunExit::Rendered)
                        &&& final(self).model_of() == Some(m2)
                        &&& final(self).synced()
                        &&& (obs_eq(old(self).tree_view(), m2.view_spec()) ==> final(ops)@
                            == old(ops)@ + tr && final(self).tree_view() == old(self).tree_view())
                        &&& (!obs_eq(old(self).tree_view(), m2.view_spec())
                            ==> final(ops)@.drop_last() == old(ops)@ + tr
                            && (final(ops)@.last() matches HostOp::Patch(d) && d@ == spec_diff(
                            old(self).tree_view(),
                            m2.view_spec(),
                        )))
                    }))
                    &&& (c2 is NoOp ==> ({
                        &&& r == Ok::<RunExit, Fatal>(RunExit::Skipped)
                        &&& final(self).model_of() == Some(m2)
                        &&& final(ops)@ == old(ops)@ + tr
                        &&& final(self).tree_view() == old(self).tree_view()
                    }))
                    &&& (c2 matches CmdInner::Spawn(t) ==> ({
                        &&& r == Ok::<RunExit, Fatal>(RunExit::Skipped)
                        &&& final(self).model_of() == Some(m2)
                        &&& final(ops)@ == (old(ops)@ + tr).push(HostOp::Spawn(t))
                        &&& final(self).tree_view() == old(self).tree_view()
                    }))
                    &&& (c2 matches CmdInner::LoadUrl(u) ==> ({
                        &&& r == Ok::<RunExit, Fatal>(RunExit::Skipped)
                        &&& final(self).model_of() == Some(m2)
                        &&& final(ops)@ == (old(ops)@ + tr).push(HostOp::LoadUrl(u))
                        &&& final(self).tree_view() == old(self).tree_view()
                    }))
                })
            }),
    {
        let r = self.loop_update_fuel(cmd, LOOP_LIMIT, ops);
        match r {
            Ok((e, _)) => Ok(e),
            Err(f) => Err(f),
        }
    }

    proof fn lemma_prefix_trans<A>(a: Seq<A>, b: Seq<A>, c: Seq<A>)
        requires
            a.is_prefix_of(b),
            b.is_prefix_of(c),
        ensures
            a.is_prefix_of(c),
    {
        assert forall|i: int| 0 <= i < a.len() implies a[i] == c.subrange(
            0,
            a.len() as int,
        )[i] by {
            assert(a[i] == b.subrange(0, a.len() as int)[i]);
            assert(b[i] == c.subrange(0, b.len() as int)[i]);
        }
        assert(a =~= c.subrange(0, a.len() as int));
    }

    fn loop_update_fuel(
        &mut self,
        cmd: Cmd<M::Msg, M::Task>,
        fuel: u32,
        ops: &mut Vec<HostOp<M::Task>>,
    ) -> (r: Result<(RunExit, u32), Fatal>)
        requires
            old(self).inv(),
        ensures
            final(self).inv(),
            (r matches Ok(e) && e.0 == RunExit::Rendered) ==> final(self).synced(),
            r matches Ok(e) ==> e.1 <= fuel,
            old(ops)@.is_prefix_of(final(ops)@),
            old(self).synced() && cmd@ is Nothing ==> r == Ok::<(RunExit, u32), Fatal>(
                (RunExit::Rendered, fuel),
            ) && *final(self) == *old(self) && final(ops)@ == old(ops)@,
            cmd@ is Nothing ==> r == Ok::<(RunExit, u32), Fatal>((RunExit::Rendered, fuel)),
            cmd@ is NoOp ==> r == Ok::<(RunExit, u32), Fatal>((RunExit::Skipped, fuel))
                && *final(self) == *old(self) && final(ops)@ == old(ops)@,
            cmd@ matches CmdInner::Spawn(t) ==> r == Ok::<(RunExit, u32), Fatal>(
                (RunExit::Skipped, fuel),
            ) && *final(self) == *old(self) && final(ops)@ == old(ops)@.push(HostOp::Spawn(t)),
            cmd@ matches CmdInner::LoadUrl(u) ==> r == Ok::<(RunExit, u32), Fatal>(
                (RunExit::Skipped, fuel),
            ) && *final(self) == *old(self) && final(ops)@ == old(ops)@.push(HostOp::LoadUrl(u)),
            ({
                let end = run_chain::<M>(old(self).model->Some_0, cmd@, fuel as nat);
                &&& (end is None ==> r == Err::<(RunExit, u32), Fatal>(Fatal::InfiniteLoop))
                &&& (end matches Some((m2, c2, tr)) ==> {
                    &&& (c2 is Nothing ==> ({
                        &&& (r matches Ok(e) && e.0 == RunExit::Rendered)
                        &&& final(self).model == Some(m2)
                        &&& final(self).synced()
                        &&& (obs_eq(old(self).current_vdom@, m2.view_spec()) ==> final(ops)@
                            == old(ops)@ + tr && final(self).current_vdom
                            == old(self).current_vdom)
                        &&& (!obs_eq(old(self).current_vdom@, m2.view_spec())
                            ==> final(ops)@.drop_last() == old(ops)@ + tr
                            && (final(ops)@.last() matches HostOp::Patch(d) && d@ == spec_diff(
                            old(self).current_vdom@,
                            m2.view_spec(),
                        )))
                    }))
                    &&& (c2 is NoOp ==> ({
                        &&& (r matches Ok(e) && e.0 == RunExit::Skipped)
                        &&& final(self).model == Some(m2)
                        &&& final(ops)@ == old(ops)@ + tr
                        &&& final(self).current_vdom == old(self).current_vdom
                    }))
                    &&& (c2 matches CmdInner::Spawn(t) ==> ({
                        &&& (r matches Ok(e) && e.0 == RunExit::Skipped)
                        &&& final(self).model == Some(m2)
                        &&& final(ops)@ == (old(ops)@ + tr).push(HostOp::Spawn(t))
                        &&& final(self).current_vdom == old(self).current_vdom
                    }))
                    &&& (c2 matches CmdInner::LoadUrl(u) ==> ({
                        &&& (r matches Ok(e) && e.0 == RunExit::Skipped)
                        &&& final(self).model == Some(m2)
                        &&& final(ops)@ == (old(ops)@ + tr).push(HostOp::LoadUrl(u))
                        &&& final(self).current_vdom == old(self).current_vdom
                    }))
                })
            }),
        decreases fuel, cmd,
    {
        let ghost cmd0 = cmd;
        let ghost m0 = old(self).model->Some_0;
        let ghost mut pushed: Seq<HostOp<M::Task>> = Seq::empty();
        let mut cur = cmd;
        let mut gas = fuel;
        proof {
            assert(old(ops)@ + pushed =~= ops@);
            match run_chain::<M>(m0, cmd0@, fuel as nat) {
                Some((mm, cc, tt)) => {
                    assert(pushed + tt =~= tt);
                },
                None => {},
            }
        }
        loop
            invariant
                cmd0 == cmd,
                m0 == old(self).model->Some_0,
                self.inv(),
                self.current_vdom == old(self).current_vdom,
                gas <= fuel,
                gas == fuel ==> (cur == cmd0 && *self == *old(self) && ops@ == old(ops)@),
                (cmd0@ is Nothing || cmd0@ is NoOp || cmd0@ is Spawn || cmd0@ is LoadUrl)
                    ==> gas == fuel,
                ops@ == old(ops)@ + pushed,
                run_chain::<M>(m0, cmd0@, fuel as nat) == chain_prepend::<M>(
                    pushed,
                    run_chain::<M>(self.model->Some_0, cur@, gas as nat),
                ),
            decreases gas,
        {
            let ghost cur0 = cur;
            let ghost m_now = self.model->Some_0;
            let Cmd(inner) = cur;
            proof {
                assert(cur0.0 == inner);
                assert(cur0@ == inner);
            }
            match inner {
                CmdInner::Nothing => {
                    proof {
                        assert(run_chain::<M>(m_now, cur0@, gas as nat) == Some(
                            (m_now, cur0@, Seq::<HostOp<M::Task>>::empty()),
                        ));
                        assert(pushed + Seq::<HostOp<M::Task>>::empty() =~= pushed);
                        assert(old(ops)@.is_prefix_of(ops@)) by {
                            assert(old(ops)@ =~= ops@.subrange(0, old(ops)@.len() as int));
                        }
                    }
                    let ghost ops_pre = ops@;
                    self.render_dom(ops);
                    proof {
                        Self::lemma_prefix_trans(old(ops)@, ops_pre, ops@);
                    }
                    return Ok((RunExit::Rendered, gas));
                },
                CmdInner::NoOp => {
                    proof {
                        assert(run_chain::<M>(m_now, cur0@, gas as nat) == Some(
                            (m_now, cur0@, Seq::<HostOp<M::Task>>::empty()),
                        ));
                        assert(pushed + Seq::<HostOp<M::Task>>::empty() =~= pushed);
                        assert(old(ops)@.is_prefix_of(ops@)) by {
                            assert(old(ops)@ =~= ops@.subrange(0, old(ops)@.len() as int));
                        }
                    }
                    return Ok((RunExit::Skipped, gas));
                },
                CmdInner::Msg(msg) => {
                    let mut taken: Option<M> = None;
                    core::mem::swap(&mut taken, &mut self.model);
                    let model = match taken {
                        Some(m) => m,
                        None => {
                            proof {
                                assert(false);
                            }
                            return Err(Fatal::InfiniteLoop);
                        },
                    };
                    let (model2, next) = M::update(model, msg);
                    self.model = Some(model2);
                    proof {
                        assert(run_chain::<M>(m_now, cur0@, gas as nat) == (if gas == 0 {
                            None
                        } else {
                            run_chain::<M>(model2, next@, (gas - 1) as nat)
                        }));
                    }
                    if gas == 0 {
                        proof {
                            assert(old(ops)@.is_prefix_of(ops@)) by {
                                assert(old(ops)@ =~= ops@.subrange(0, old(ops)@.len() as int));
                            }
                        }
                        return Err(Fatal::InfiniteLoop);
                    }
                    gas = gas - 1;
                    cur = next;
                },
                CmdInner::Multiple(cmds) => {
                    let ghost v0 = cmds;
                    let mut cmds = cmds;
                    let ghost cs0 = cmds@;
                    let ghost end0 = run_chain::<M>(m0, cmd0@, fuel as nat);
                    let mut exit = RunExit::Skipped;
                    proof {
                        assert(cur0 == Cmd::<M::Msg, M::Task>(CmdInner::Multiple(v0)));
                        assert(run_chain::<M>(m_now, cur0@, gas as nat) == Some(
                            (m_now, cur0@, Seq::<HostOp<M::Task>>::empty()),
                        ));
                        assert(end0 matches Some((em, ec, et)) && ec is Multiple);
                        assert(old(ops)@.is_prefix_of(ops@)) by {
                            assert(old(ops)@ =~= ops@.subrange(0, old(ops)@.len() as int));
                        }
                    }
                    while cmds.len() > 0
                        invariant
                            cmd0 == cmd,
                            m0 == old(self).model->Some_0,
                            !(cmd0@ is Nothing || cmd0@ is NoOp || cmd0@ is Spawn || cmd0@
                                is LoadUrl),
                            end0 == run_chain::<M>(m0, cmd0@, fuel as nat),
                            (end0 matches Some((em, ec, et)) && ec is Multiple),
                            old(ops)@.is_prefix_of(ops@),
                            self.inv(),
                            gas <= fuel,
                            v0@ == cs0,
                            gas == fuel ==> cmd0 == Cmd::<M::Msg, M::Task>(
                                CmdInner::Multiple(v0),
                            ),
                            cmds@.len() <= cs0.len(),
                            forall|k: int|
                                0 <= k < cmds@.len() ==> cmds@[k] == cs0[k + (cs0.len()
                                    - cmds@.len())],
                            exit == RunExit::Rendered ==> self.synced(),
                        decreases cmds@.len(),
                    {
                        let ghost at = cs0.len() - cmds@.len();
                        let ghost ops_pre = ops@;
                        let c = cmds.remove(0);
                        proof {
                            assert(c == cs0[0 + at]);
                            assert(forall|k: int|
                                0 <= k < cmds@.len() ==> cmds@[k] == cs0[k + (at + 1)]);
                            if gas == fuel {
                                assert(decreases_to!(cmd0 => cmd0.0));
                                assert(cmd0.0 == CmdInner::Multiple(v0));
                                assert(decreases_to!(cmd0.0 => cmd0.0->Multiple_0));
                                assert(cmd0.0->Multiple_0 == v0);
                                assert(decreases_to!(v0 => v0@[at]));
                                assert(decreases_to!(cmd0 => v0@[at]));
                                assert(decreases_to!(cmd0 => c));
                            }
                        }
                        let rr = self.loop_update_fuel(c, gas, ops);
                        proof {
                            Self::lemma_prefix_trans(old(ops)@, ops_pre, ops@);
                        }
                        match rr {
                            Err(f) => {
                                return Err(f);
                            },
                            Ok((e, g2)) => {
                                exit = e;
                                gas = g2;
                            },
                        }
                    }
                    return Ok((exit, gas));
                },
                CmdInner::Spawn(task) => {
                    proof {
                        assert(run_chain::<M>(m_now, cur0@, gas as nat) == Some(
                            (m_now, cur0@, Seq::<HostOp<M::Task>>::empty()),
                        ));
                        assert(pushed + Seq::<HostOp<M::Task>>::empty() =~= pushed);
                    }
                    ops.push(HostOp::Spawn(task));
                    proof {
                        assert(ops@ =~= (old(ops)@ + pushed).push(HostOp::Spawn(cur0@->Spawn_0)));
                        assert(old(ops)@.is_prefix_of(ops@)) by {
                            assert(old(ops)@ =~= ops@.subrange(0, old(ops)@.len() as int));
                        }
                    }
                    return Ok((RunExit::Skipped, gas));
                },
                CmdInner::LoadUrl(url) => {
                    proof {
                        assert(run_chain::<M>(m_now, cur0@, gas as nat) == Some(
                            (m_now, cur0@, Seq::<HostOp<M::Task>>::empty()),
                        ));
                        assert(pushed + Seq::<HostOp<M::Task>>::empty() =~= pushed);
                    }
                    ops.push(HostOp::LoadUrl(url));
                    proof {
                        assert(ops@ =~= (old(ops)@ + pushed).push(HostOp::LoadUrl(cur0@->LoadUrl_0)));
                        assert(old(ops)@.is_prefix_of(ops@)) by {
                            assert(old(ops)@ =~= ops@.subrange(0, old(ops)@.len() as int));
                        }
                    }
                    return Ok((RunExit::Skipped, gas));
                },
                CmdInner::PushUrl(url) => {
                    let ghost pushed0 = pushed;
                    ops.push(HostOp::PushState(url.clone()));
                    proof {
                        pushed = pushed.push(HostOp::PushState(url));
                        assert(ops@ =~= old(ops)@ + pushed);
                    }
                    let next = M::on_url_change(&url);
                    proof {
                        assert(run_chain::<M>(m_now, cur0@, gas as nat) == (if gas == 0 {
                            None
                        } else {
                            match run_chain::<M>(
                                m_now,
                                M::on_url_change_spec(url@),
                                (gas - 1) as nat,
                            ) {
                                None => None,
                                Some((m3, c3, tr)) => Some(
                                    (m3, c3, seq![HostOp::PushState(url)] + tr),
                                ),
                            }
                        }));
                    }
                    if gas == 0 {
                        proof {
                            assert(old(ops)@.is_prefix_of(ops@)) by {
                                assert(old(ops)@ =~= ops@.subrange(0, old(ops)@.len() as int));
                            }
                        }
                        return Err(Fatal::InfiniteLoop);
                    }
                    gas = gas - 1;
                    cur = next;
                    proof {
                        match run_chain::<M>(m_now, next@, gas as nat) {
                            Some((m3, c3, tr)) => {
                                assert(pushed0 + (seq![HostOp::PushState(url)] + tr) =~= pushed
                                    + tr);
                            },
                            None => {},
                        }
                    }
                },
            }
        }
    }

    /// The render step: view the model, diff against the live tree, and
    /// if anything changed, apply the patch to the live tree and registry
    /// and tell the host to mirror it. A quiescent handle renders to an
    /// unchanged diff and nothing happens at all.
    fn render_dom(&mut self, ops: &mut Vec<HostOp<M::Task>>)
        requires
            old(self).inv(),
        ensures
            final(self).inv(),
            final(self).synced(),
            final(self).model == old(self).model,
            old(ops)@.is_prefix_of(final(ops)@),
            obs_eq(old(self).current_vdom@, old(self).model->Some_0.view_spec()) ==> *final(self)
                == *old(self) && final(ops)@ == old(ops)@,
            !obs_eq(old(self).current_vdom@, old(self).model->Some_0.view_spec()) ==> ({
                &&& final(ops)@.len() == old(ops)@.len() + 1
                &&& final(ops)@.drop_last() == old(ops)@
                &&& (final(ops)@.last() matches HostOp::Patch(d) && d@ == spec_diff(
                    old(self).current_vdom@,
                    old(self).model->Some_0.view_spec(),
                ))
            }),
    {
        let new_vdom = match &self.model {
            Some(m) => m.view(),
            None => {
                proof {
                    assert(false);
                }
                Html::Text(String::new())
            },
        };
        let d = diff_vdom(&self.current_vdom, &new_vdom);
        let ghost a = self.current_vdom@;
        let ghost b = new_vdom@;
        proof {
            if obs_eq(a, b) {
                lemma_obs_eq_diff_unchanged(a, b);
            }
        }
        if d.is_unchanged() {
            proof {
                lemma_patch_round_trip(a, b, self.listeners@);
                assert(old(ops)@.is_prefix_of(ops@)) by {
                    assert(ops@.subrange(0, ops@.len() as int) =~= ops@);
                }
            }
        } else {
            let mut tree: Html = Html::Text(String::new());
            core::mem::swap(&mut tree, &mut self.current_vdom);
            proof {
                lemma_patch_round_trip(a, b, self.listeners@);
            }
            let next = apply_diff(tree, &d, &mut self.listeners);
            self.current_vdom = next;
            let ghost before = ops@;
            ops.push(HostOp::Patch(d));
            proof {
                lemma_obs_eq_wf(self.current_vdom@, b);
                lemma_obs_eq_ids(self.current_vdom@, b);
                assert(ops@.drop_last() =~= before);
                assert(before.is_prefix_of(ops@)) by {
                    assert(before =~= ops@.subrange(0, before.len() as int));
                }
            }
        }
    }
}

} // verus!
