//! The elements of a document and the changes made to them.
//!
//! Reading the markup and writing it back is the `lol_html` crate's work.
//! What passes between it and the rules of this library is plain data: the
//! elements that were found, and one change for each of them.

use vstd::prelude::*;
use lol_html::html_content::ContentType;
use lol_html::{rewrite_str, ElementContentHandlers, HandlerResult, Selector, Settings};
use std::borrow::Cow;

verus! {

/// One attribute of an element. The name is in lower case.
#[derive(Debug, PartialEq, Eq)]
pub struct Attribute {
    pub name: String,
    pub value: String,
}

/// The start tag of an element. The tag name is in lower case.
#[derive(Debug, PartialEq, Eq)]
pub struct Element {
    pub tag: String,
    pub attributes: Vec<Attribute>,
}

/// What is done to one element.
#[derive(Debug, PartialEq, Eq)]
pub enum Edit {
    /// Nothing.
    Keep,
    /// One attribute gets a new value.
    SetAttribute { name: String, value: String },
    /// The element, with all that is in it, gives way to other markup.
    Replace { html: String },
}

/// An [`Element`], with its texts as sequences of characters.
pub struct Tag {
    pub tag: Seq<char>,
    pub attributes: Seq<(Seq<char>, Seq<char>)>,
}

/// An [`Edit`], with its texts as sequences of characters.
pub enum Change {
    Keep,
    SetAttribute { name: Seq<char>, value: Seq<char> },
    Replace { html: Seq<char> },
}

impl DeepView for Attribute {
    type V = (Seq<char>, Seq<char>);

    open spec fn deep_view(&self) -> (Seq<char>, Seq<char>) {
        (self.name@, self.value@)
    }
}

impl DeepView for Element {
    type V = Tag;

    open spec fn deep_view(&self) -> Tag {
        Tag { tag: self.tag@, attributes: self.attributes.deep_view() }
    }
}

impl DeepView for Edit {
    type V = Change;

    open spec fn deep_view(&self) -> Change {
        match self {
            Edit::Keep => Change::Keep,
            Edit::SetAttribute { name, value } => Change::SetAttribute {
                name: name@,
                value: value@,
            },
            Edit::Replace { html } => Change::Replace { html: html@ },
        }
    }
}

/// The value of the first attribute called `name` at or after position
/// `from`.
pub open spec fn attribute_from(
    attributes: Seq<(Seq<char>, Seq<char>)>,
    name: Seq<char>,
    from: int,
) -> Option<Seq<char>>
    decreases attributes.len() - from,
{
    if from < 0 || from >= attributes.len() {
        None
    } else if attributes[from].0 == name {
        Some(attributes[from].1)
    } else {
        attribute_from(attributes, name, from + 1)
    }
}

impl Tag {
    /// The value of the first attribute called `name`.
    pub open spec fn attribute(self, name: Seq<char>) -> Option<Seq<char>> {
        attribute_from(self.attributes, name, 0)
    }
}

impl Element {
    /// The value of the first attribute called `name`.
    pub fn get_attribute(&self, name: &str) -> (r: Option<&String>)
        ensures
            r.deep_view() == self.deep_view().attribute(name@),
    {
        let mut i: usize = 0;
        while i < self.attributes.len()
            invariant
                i <= self.attributes.len(),
                attribute_from(self.attributes.deep_view(), name@, 0) == attribute_from(
                    self.attributes.deep_view(),
                    name@,
                    i as int,
                ),
            decreases self.attributes.len() - i,
        {
            if crate::text::same(self.attributes[i].name.as_str(), name) {
                return Some(&self.attributes[i].value);
            }
            i += 1;
        }
        None
    }
}

/// Whether a reference points away from the local files: it begins with
/// `http` or with `data:`.
pub open spec fn remote(reference: Seq<char>) -> bool {
    "http"@.is_prefix_of(reference) || "data:"@.is_prefix_of(reference)
}

/// Whether a reference points away from the local files.
pub fn is_remote(reference: &str) -> (b: bool)
    ensures
        b == remote(reference@),
{
    crate::text::starts_with(reference, "http") || crate::text::starts_with(reference, "data:")
}

/// The elements of `html` that `selector` matches, in the order of the
/// document, as far as the document could be read; and whether all of it
/// could. No element, and `false`, where the crate does not accept
/// `selector`.
pub uninterp spec fn selected(selector: Seq<char>, html: Seq<char>) -> (Seq<Tag>, bool);

/// `html` with the elements that `selector` matches changed, the first as
/// the first of `changes` says, and so on; an element for which no change
/// is left stays as it is. `None` where the document cannot be rewritten.
pub uninterp spec fn rewritten(selector: Seq<char>, html: Seq<char>, changes: Seq<Change>)
    -> Option<Seq<char>>;

/// `lol_html::rewrite_str` with one handler, for the elements that
/// `selector` matches. The handler copies out each element's `tag_name` and
/// `attributes` and changes nothing. The flag says whether the selector was
/// accepted and the rewriter came to the end of the document.
#[verifier::external_body]
pub(crate) fn select(selector: &str, html: &str) -> (r: (Vec<Element>, bool))
    ensures
        r.deep_view() == selected(selector@, html@),
{
    let mut found: Vec<Element> = Vec::new();
    let Ok(selector) = selector.parse::<Selector>() else { return (found, false); };
    let copy = |el: &mut lol_html::html_content::Element| -> HandlerResult {
        let attributes = el.attributes().iter().map(|a| Attribute { name: a.name(), value: a.value() });
        found.push(Element { tag: el.tag_name(), attributes: attributes.collect() });
        Ok(())
    };
    let handlers = (Cow::Owned(selector), ElementContentHandlers::default().element(copy));
    let complete = rewrite_str(html, Settings::new().append_element_content_handler(handlers)).is_ok();
    (found, complete)
}

/// `lol_html::rewrite_str` with one handler, for the elements that
/// `selector` matches. The handler takes the next of `edits` for each
/// element and calls `set_attribute` or `replace` (as HTML) as it says.
#[verifier::external_body]
pub(crate) fn apply(selector: &str, html: &str, edits: &Vec<Edit>) -> (r: Option<String>)
    ensures
        r.deep_view() == rewritten(selector@, html@, edits.deep_view()),
{
    let selector = selector.parse::<Selector>().ok()?;
    let mut edits = edits.iter();
    let change = |el: &mut lol_html::html_content::Element| -> HandlerResult {
        match edits.next() {
            Some(Edit::SetAttribute { name, value }) => el.set_attribute(name, value)?,
            Some(Edit::Replace { html }) => el.replace(html, ContentType::Html),
            _ => {},
        }
        Ok(())
    };
    let handlers = (Cow::Owned(selector), ElementContentHandlers::default().element(change));
    rewrite_str(html, Settings::new().append_element_content_handler(handlers)).ok()
}

} // verus!
