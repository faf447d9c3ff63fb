//! Markup elements.
//!
//! The elements are those of the `domrs` crate.  What one holds is described
//! here by a mathematical value, `Markup`, and the few operations that the
//! emblem needs are given contracts over it.  These contracts are taken on
//! trust from the source of `domrs`; nothing in this crate proves them.

use domrs::{HtmlElement, ToText};
use vstd::prelude::*;

verus! {

#[verifier::external_type_specification]
#[verifier::external_body]
pub struct ExHtmlElement(HtmlElement);

/// One attribute of an element: its name and its value.
pub type Attribute = (Seq<char>, Seq<char>);

/// What an element holds: its tag name, its attributes in the order in which
/// they were set, its text, its children in the order in which they were
/// added, and the three switches that steer how it is written out.
#[verifier::ext_equal]
pub struct Markup {
    pub name: Seq<char>,
    pub attributes: Seq<Attribute>,
    pub content: Option<Seq<char>>,
    pub children: Seq<Markup>,
    pub hide_closing_tag: bool,
    pub no_indent: bool,
    pub always_expand: bool,
}

impl Markup {
    /// An element with a name and nothing else, all switches off.
    pub open spec fn bare(name: Seq<char>) -> Markup {
        Markup {
            name,
            attributes: Seq::empty(),
            content: None,
            children: Seq::empty(),
            hide_closing_tag: false,
            no_indent: false,
            always_expand: false,
        }
    }

    /// An element with a name and attributes, and nothing else.
    pub open spec fn leaf(name: Seq<char>, attributes: Seq<Attribute>) -> Markup {
        Markup { attributes, ..Markup::bare(name) }
    }

    /// This element with one more attribute, set after the others.
    pub open spec fn with_attribute(self, name: Seq<char>, value: Seq<char>) -> Markup {
        Markup { attributes: self.attributes.push((name, value)), ..self }
    }

    /// This element with its text replaced.
    pub open spec fn with_content(self, content: Seq<char>) -> Markup {
        Markup { content: Some(content), ..self }
    }

    /// This element with one more child, added after the others.
    pub open spec fn with_child(self, child: Markup) -> Markup {
        Markup { children: self.children.push(child), ..self }
    }
}

/// What the element `e` holds.
pub uninterp spec fn markup_of(e: HtmlElement) -> Markup;

/// The text that an element holding `m` is written out as, indented by
/// `offset` spaces, each level of children by `indent` more.
pub uninterp spec fn markup_text(m: Markup, offset: usize, indent: usize) -> Seq<char>;

/// `HtmlElement::new`: the new element has the given name, no attributes, no
/// text, no children, and all three switches off.
#[verifier::external_body]
pub(crate) fn new_element(name: &str) -> (e: HtmlElement)
    ensures
        markup_of(e) == Markup::bare(name@),
{
    HtmlElement::new(name)
}

/// `HtmlElement::set_attribute`: the attribute is put behind those already
/// set, whether or not one of them has the same name; nothing else changes.
#[verifier::external_body]
pub(crate) fn set_attribute(e: &mut HtmlElement, name: &str, value: &str)
    ensures
        markup_of(*final(e)) == markup_of(*old(e)).with_attribute(name@, value@),
{
    e.set_attribute(name, value);
}

/// `HtmlElement::set_content`: the text of the element is replaced; nothing
/// else changes.
#[verifier::external_body]
pub(crate) fn set_content(e: &mut HtmlElement, content: &str)
    ensures
        markup_of(*final(e)) == markup_of(*old(e)).with_content(content@),
{
    e.set_content(content);
}

/// `HtmlElement::add_child`: the child is put behind those already added;
/// nothing else changes.
#[verifier::external_body]
pub(crate) fn add_child(e: &mut HtmlElement, child: HtmlElement)
    ensures
        markup_of(*final(e)) == markup_of(*old(e)).with_child(markup_of(child)),
{
    e.add_child(child);
}

/// `ToText::to_text` of `HtmlElement`: the text depends on what the element
/// holds and on the two widths, and on nothing else.  The widths are kept
/// small, so that the indentation of no element that fits in memory is too
/// wide to count.
#[verifier::external_body]
pub(crate) fn element_text(e: &HtmlElement, offset: usize, indent: usize) -> (text: String)
    requires
        offset <= 64,
        indent <= 8,
    ensures
        text@ == markup_text(markup_of(*e), offset, indent),
{
    e.to_text(offset, indent)
}

} // verus!
