//! Small complete applications of the runtime: a counter whose page is
//! its count, and a model that dispatches to itself forever. They give
//! the test suite concrete programs to drive and show what implementing
//! `Model` looks like.
use vstd::prelude::*;

use vstd::string::StringExecFns;

use crate::program::{Cmd, CmdInner, Model};
use crate::vdom::{wf_html, Html, HtmlV};

verus! {

/// The decimal digits of a number, most significant first.
pub open spec fn digits(n: u64) -> Seq<char>
    decreases n,
{
    if n < 10 {
        digit_seq(n)
    } else {
        digits(n / 10) + digit_seq(n % 10)
    }
}

pub open spec fn digit_seq(d: u64) -> Seq<char> {
    if d == 0 {
        "0"@
    } else if d == 1 {
        "1"@
    } else if d == 2 {
        "2"@
    } else if d == 3 {
        "3"@
    } else if d == 4 {
        "4"@
    } else if d == 5 {
        "5"@
    } else if d == 6 {
        "6"@
    } else if d == 7 {
        "7"@
    } else if d == 8 {
        "8"@
    } else {
        "9"@
    }
}

fn append_digit(s: &mut String, d: u64)
    requires
        d < 10,
    ensures
        final(s)@ == old(s)@ + digit_seq(d),
{
    if d == 0 {
        s.append("0");
    } else if d == 1 {
        s.append("1");
    } else if d == 2 {
        s.append("2");
    } else if d == 3 {
        s.append("3");
    } else if d == 4 {
        s.append("4");
    } else if d == 5 {
        s.append("5");
    } else if d == 6 {
        s.append("6");
    } else if d == 7 {
        s.append("7");
    } else if d == 8 {
        s.append("8");
    } else {
        s.append("9");
    }
}

/// Render a number as its decimal digits.
pub fn render_u64(n: u64) -> (s: String)
    ensures
        s@ == digits(n),
    decreases n,
{
    if n < 10 {
        let mut s = String::new();
        append_digit(&mut s, n);
        proof {
            assert(Seq::<char>::empty() + digit_seq(n) =~= digit_seq(n));
        }
        s
    } else {
        let mut s = render_u64(n / 10);
        append_digit(&mut s, n % 10);
        s
    }
}

/// Messages a counter understands.
#[derive(Clone, Copy, Debug, PartialEq, Eq, Structural)]
pub enum CounterMsg {
    Increment,
    Decrement,
}

/// A counter application: the model is a number, the page is its decimal
/// rendering. Increment and decrement saturate at the type's bounds.
pub struct Counter {
    pub count: u64,
}

impl Model for Counter {
    type Msg = CounterMsg;

    type Task = ();

    open spec fn view_spec(&self) -> HtmlV {
        HtmlV::Text(digits(self.count))
    }

    open spec fn update_spec(self, msg: CounterMsg) -> (Counter, CmdInner<CounterMsg, ()>) {
        let next = match msg {
            CounterMsg::Increment => if self.count < u64::MAX {
                (self.count + 1) as u64
            } else {
                self.count
            },
            CounterMsg::Decrement => if self.count > 0 {
                (self.count - 1) as u64
            } else {
                self.count
            },
        };
        (Counter { count: next }, CmdInner::Nothing)
    }

    open spec fn on_url_change_spec(url: Seq<char>) -> CmdInner<CounterMsg, ()> {
        CmdInner::Nothing
    }

    fn update(self, msg: CounterMsg) -> (r: (Counter, Cmd<CounterMsg, ()>)) {
        let next = match msg {
            CounterMsg::Increment => {
                if self.count < u64::MAX {
                    self.count + 1
                } else {
                    self.count
                }
            },
            CounterMsg::Decrement => {
                if self.count > 0 {
                    self.count - 1
                } else {
                    self.count
                }
            },
        };
        (Counter { count: next }, Cmd::none())
    }

    fn view(&self) -> (h: Html)
        ensures
            h@ == self.view_spec(),
            wf_html(self.view_spec()),
    {
        Html::Text(render_u64(self.count))
    }

    fn on_url_change(url: &String) -> Cmd<CounterMsg, ()> {
        Cmd::none()
    }
}

/// A model whose update always dispatches the same message again: the
/// pathological self-feeding application the processor's loop guard
/// exists to stop.
pub struct Relay;

impl Model for Relay {
    type Msg = ();

    type Task = ();

    open spec fn view_spec(&self) -> HtmlV {
        HtmlV::Text(Seq::empty())
    }

    open spec fn update_spec(self, msg: ()) -> (Relay, CmdInner<(), ()>) {
        (Relay, CmdInner::Msg(()))
    }

    open spec fn on_url_change_spec(url: Seq<char>) -> CmdInner<(), ()> {
        CmdInner::Nothing
    }

    fn update(self, msg: ()) -> (r: (Relay, Cmd<(), ()>)) {
        (Relay, Cmd::msg(()))
    }

    fn view(&self) -> (h: Html)
        ensures
            h@ == self.view_spec(),
            wf_html(self.view_spec()),
    {
        Html::Text(String::new())
    }

    fn on_url_change(url: &String) -> Cmd<(), ()> {
        Cmd::none()
    }
}

} // verus!
