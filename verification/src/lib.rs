//! A model–update–view runtime core: a virtual document tree, a positional
//! diff engine, a refcounted listener registry, a patch applier, and the
//! command processor that drives update cycles to quiescence.
//!
//! The host (a browser binding, or a test harness) supplies the model, the
//! pure `update` and `view` functions, and performs the real document edits
//! and asynchronous work that the processor describes as plain data.
use vstd::prelude::*;

pub mod html;
pub mod vdom;
pub mod diff;
pub mod registry;
pub mod patch;
pub mod laws;
pub mod program;
pub mod sample;

pub use diff::{diff_vdom, Delta, Diff, DiffV};
pub use html::{class, id, placeholder, value, Attribute, AttrKey, AttrV, Classify, Style, Tag};
pub use patch::apply_diff;
pub use program::{
    classify_link, App, Blank, Cmd, CmdInner, Fatal, HostOp, Key, Model, RunExit, Sub, UrlRequest,
    LOOP_LIMIT,
};
pub use registry::Registry;
pub use vdom::{clone_html, on_click, on_input, ElemMod, Element, Event, EventId, EventKind, Html, HtmlV};
