//! Virtual-tree attributes: plain data describing what the patch applier
//! sets on a live element. Attributes are keyed by name (one key per
//! variant); the diff engine compares whole attributes and the applier
//! removes or sets them by key, as a document API does.
use vstd::prelude::*;

verus! {

/// The tag of a virtual element.
#[derive(Clone, Copy, Debug, PartialEq, Eq, Structural)]
pub enum Tag {
    Div,
    Span,
    P,
    Button,
    Input,
    A,
    Ul,
    Li,
    H1,
    H2,
    H3,
}

impl Tag {
    /// The tag name a document API expects.
    pub fn name(&self) -> (r: &'static str)
        ensures
            r@ == tag_name(*self),
    {
        match self {
            Tag::Div => "div",
            Tag::Span => "span",
            Tag::P => "p",
            Tag::Button => "button",
            Tag::Input => "input",
            Tag::A => "a",
            Tag::Ul => "ul",
            Tag::Li => "li",
            Tag::H1 => "h1",
            Tag::H2 => "h2",
            Tag::H3 => "h3",
        }
    }
}

pub open spec fn tag_name(t: Tag) -> Seq<char> {
    match t {
        Tag::Div => "div"@,
        Tag::Span => "span"@,
        Tag::P => "p"@,
        Tag::Button => "button"@,
        Tag::Input => "input"@,
        Tag::A => "a"@,
        Tag::Ul => "ul"@,
        Tag::Li => "li"@,
        Tag::H1 => "h1"@,
        Tag::H2 => "h2"@,
        Tag::H3 => "h3"@,
    }
}

/// Inline style payload. A placeholder in the attribute set: styles carry no
/// structure of their own here.
#[derive(Clone, Copy, Debug, PartialEq, Eq, Structural)]
pub struct Style;

/// An attribute of a virtual element. Each variant is one attribute name;
/// the payload is its value.
#[derive(Debug, PartialEq)]
pub enum Attribute {
    Value(String),
    Placeholder(String),
    Class(Vec<String>),
    Id(String),
    Style(Style),
}

/// Mathematical model of an attribute: the same shape over sequences of
/// characters.
#[verifier::ext_equal]
pub enum AttrV {
    Value(Seq<char>),
    Placeholder(Seq<char>),
    Class(Seq<Seq<char>>),
    Id(Seq<char>),
    Style,
}

/// The name an attribute is keyed by: one key per variant.
#[derive(Clone, Copy, Debug, PartialEq, Eq, Structural)]
pub enum AttrKey {
    Value,
    Placeholder,
    Class,
    Id,
    Style,
}

pub open spec fn classes_view(v: Seq<String>) -> Seq<Seq<char>> {
    v.map_values(|s: String| s@)
}

pub open spec fn attr_view(a: Attribute) -> AttrV {
    match a {
        Attribute::Value(s) => AttrV::Value(s@),
        Attribute::Placeholder(s) => AttrV::Placeholder(s@),
        Attribute::Class(v) => AttrV::Class(classes_view(v@)),
        Attribute::Id(s) => AttrV::Id(s@),
        Attribute::Style(_) => AttrV::Style,
    }
}

impl View for Attribute {
    type V = AttrV;

    open spec fn view(&self) -> AttrV {
        attr_view(*self)
    }
}

pub open spec fn attr_key_of(a: AttrV) -> AttrKey {
    match a {
        AttrV::Value(_) => AttrKey::Value,
        AttrV::Placeholder(_) => AttrKey::Placeholder,
        AttrV::Class(_) => AttrKey::Class,
        AttrV::Id(_) => AttrKey::Id,
        AttrV::Style => AttrKey::Style,
    }
}

impl Attribute {
    /// The key this attribute is stored and removed under.
    pub fn key(&self) -> (k: AttrKey)
        ensures
            k == attr_key_of(self@),
    {
        match self {
            Attribute::Value(_) => AttrKey::Value,
            Attribute::Placeholder(_) => AttrKey::Placeholder,
            Attribute::Class(_) => AttrKey::Class,
            Attribute::Id(_) => AttrKey::Id,
            Attribute::Style(_) => AttrKey::Style,
        }
    }
}

fn clone_classes(v: &Vec<String>) -> (r: Vec<String>)
    ensures
        classes_view(r@) == classes_view(v@),
{
    let mut r: Vec<String> = Vec::new();
    let mut i: usize = 0;
    while i < v.len()
        invariant
            i <= v@.len(),
            r@.len() == i,
            forall|k: int| 0 <= k < i ==> r@[k]@ == v@[k]@,
        decreases v@.len() - i,
    {
        r.push(v[i].clone());
        i += 1;
    }
    proof {
        assert(classes_view(r@) =~= classes_view(v@));
    }
    r
}

/// A copy of an attribute with the same model.
pub fn clone_attr(a: &Attribute) -> (r: Attribute)
    ensures
        r@ == a@,
{
    match a {
        Attribute::Value(s) => Attribute::Value(s.clone()),
        Attribute::Placeholder(s) => Attribute::Placeholder(s.clone()),
        Attribute::Class(v) => Attribute::Class(clone_classes(v)),
        Attribute::Id(s) => Attribute::Id(s.clone()),
        Attribute::Style(st) => Attribute::Style(*st),
    }
}

fn classes_eq(a: &Vec<String>, b: &Vec<String>) -> (r: bool)
    ensures
        r == (classes_view(a@) == classes_view(b@)),
{
    if a.len() != b.len() {
        assert(classes_view(a@).len() != classes_view(b@).len());
        return false;
    }
    let mut i: usize = 0;
    while i < a.len()
        invariant
            a@.len() == b@.len(),
            i <= a@.len(),
            forall|k: int| 0 <= k < i ==> a@[k]@ == b@[k]@,
        decreases a@.len() - i,
    {
        let same = a[i] == b[i];
        if !same {
            assert(classes_view(a@)[i as int] != classes_view(b@)[i as int]);
            return false;
        }
        i += 1;
    }
    proof {
        assert(classes_view(a@) =~= classes_view(b@));
    }
    true
}

/// Whether two attributes have the same model (same key and same value).
pub fn attr_eq(a: &Attribute, b: &Attribute) -> (r: bool)
    ensures
        r == (a@ == b@),
{
    match (a, b) {
        (Attribute::Value(x), Attribute::Value(y)) => *x == *y,
        (Attribute::Placeholder(x), Attribute::Placeholder(y)) => *x == *y,
        (Attribute::Class(x), Attribute::Class(y)) => classes_eq(x, y),
        (Attribute::Id(x), Attribute::Id(y)) => *x == *y,
        (Attribute::Style(_), Attribute::Style(_)) => true,
        _ => false,
    }
}

/// Set the element's value attribute.
pub fn value(val: String) -> (a: Attribute)
    ensures
        a@ == AttrV::Value(val@),
{
    Attribute::Value(val)
}

/// Set the element's placeholder attribute.
pub fn placeholder(val: String) -> (a: Attribute)
    ensures
        a@ == AttrV::Placeholder(val@),
{
    Attribute::Placeholder(val)
}

/// Set the element's id attribute.
pub fn id(val: String) -> (a: Attribute)
    ensures
        a@ == AttrV::Id(val@),
{
    Attribute::Id(val)
}

/// Things that can stand for a list of CSS classes.
pub trait Classify {
    spec fn classify_spec(&self) -> Seq<Seq<char>>;

    fn classify(self) -> (r: Vec<String>)
        ensures
            classes_view(r@) == self.classify_spec(),
    ;
}

impl Classify for String {
    open spec fn classify_spec(&self) -> Seq<Seq<char>> {
        seq![self@]
    }

    fn classify(self) -> (r: Vec<String>)
        ensures
            classes_view(r@) == self.classify_spec(),
    {
        let ghost sv = self@;
        let mut r: Vec<String> = Vec::new();
        r.push(self);
        proof {
            assert(classes_view(r@) =~= seq![sv]);
        }
        r
    }
}

/// Set the element's class list.
pub fn class<C: Classify>(c: C) -> (a: Attribute)
    ensures
        a@ == AttrV::Class(c.classify_spec()),
{
    Attribute::Class(c.classify())
}

} // verus!
