//! Parsed HTML documents and CSS selection, through `scraper`.
//!
//! An element is known by its address: the steps `(selector, position)` that
//! lead to it from the document, where a step picks the element at that
//! position among those that the selector matches inside the current scope
//! (the whole document for the first step). What `scraper` answers about an
//! element is a function of the document's source and the element's address,
//! and is named below.
use vstd::prelude::*;
use scraper::{ElementRef, Html, Selector};

use crate::text::normalized;

verus! {

#[verifier::external_type_specification]
#[verifier::external_body]
pub struct ExHtml(Html);

#[verifier::external_type_specification]
#[verifier::external_body]
pub struct ExSelector(Selector);

#[verifier::external_type_specification]
#[verifier::external_body]
pub struct ExElementRef<'a>(ElementRef<'a>);

/// Whether `Selector::parse` accepts `css`.
pub uninterp spec fn selector_parses(css: Seq<char>) -> bool;

/// How many elements `Html::select` yields for `css` in the document parsed from `html`;
/// it visits the tree's nodes in the order the parser created them.
pub uninterp spec fn document_match_count(html: Seq<char>, css: Seq<char>) -> nat;

/// How many elements `ElementRef::select` yields for `css` below the element at `at`
/// in the document parsed from `html`.
pub uninterp spec fn element_match_count(
    html: Seq<char>,
    at: Seq<(Seq<char>, usize)>,
    css: Seq<char>,
) -> nat;

/// What `ElementRef::attr` gives for the attribute `name` of the element at `at`.
pub uninterp spec fn element_attr(
    html: Seq<char>,
    at: Seq<(Seq<char>, usize)>,
    name: Seq<char>,
) -> Option<Seq<char>>;

/// The text nodes below the element at `at`, in the order of a depth-first walk of
/// its subtree (`ElementRef::text`).
pub uninterp spec fn element_texts(html: Seq<char>, at: Seq<(Seq<char>, usize)>) -> Seq<Seq<char>>;

/// A parsed HTML document together with the source it was parsed from.
pub struct Document {
    tree: Html,
    source: String,
}

impl View for Document {
    type V = Seq<char>;

    closed spec fn view(&self) -> Seq<char> {
        self.source@
    }
}

/// A CSS selector together with its text.
pub struct Css {
    selector: Selector,
    text: String,
}

impl View for Css {
    type V = Seq<char>;

    closed spec fn view(&self) -> Seq<char> {
        self.text@
    }
}

/// An element of a document, with its address. Values of this type are made
/// only by the two `select` methods below, which pair each element with the
/// address it was reached by; the claims of `attr` and `texts` rest on that.
pub struct Element<'a> {
    doc: &'a Document,
    node: ElementRef<'a>,
    at: Vec<(String, usize)>,
}

impl<'a> Element<'a> {
    /// The source of the document that holds this element.
    pub closed spec fn source(&self) -> Seq<char> {
        self.doc@
    }

    /// The address of this element.
    pub closed spec fn address(&self) -> Seq<(Seq<char>, usize)> {
        self.at@.map_values(|p: (String, usize)| (p.0@, p.1))
    }
}

impl Document {
    /// Parses `source` as a whole HTML document (`Html::parse_document`, which
    /// accepts every input).
    #[verifier::external_body]
    pub(crate) fn parse(source: &str) -> (d: Document)
        ensures
            d@ == source@,
    {
        Document { tree: Html::parse_document(source), source: source.to_string() }
    }

    /// The elements of the document that `css` matches (`Html::select`), in
    /// the order in which the parser created the tree's nodes, leaving out
    /// elements without a parent (on malformed HTML this order can differ
    /// from the order of the source); the element at position `i` gets the
    /// address `[(css, i)]`.
    #[verifier::external_body]
    pub(crate) fn select<'a>(&'a self, css: &Css) -> (r: Vec<Element<'a>>)
        ensures
            r.len() == document_match_count(self@, css@),
            r.len() <= isize::MAX,
            forall|i: int|
                0 <= i < r.len() ==> (#[trigger] r[i]).source() == self@ && r[i].address()
                    == seq![(css@, i as usize)],
    {
        let mut out = Vec::new();
        for (i, node) in self.tree.select(&css.selector).enumerate() {
            out.push(Element { doc: self, node, at: vec![(css.text.clone(), i)] });
        }
        out
    }
}

impl Css {
    /// Parses a CSS selector (`Selector::parse`); `None` where it is refused.
    #[verifier::external_body]
    pub(crate) fn parse(text: &str) -> (r: Option<Css>)
        ensures
            r is Some <==> selector_parses(text@),
            r matches Some(c) ==> c@ == text@,
    {
        Selector::parse(text).ok().map(|selector| Css { selector, text: text.to_string() })
    }
}

impl<'a> Element<'a> {
    /// The elements below this one that `css` matches, in the order of a
    /// depth-first walk of this element's subtree (`ElementRef::select`); the one at position `i` gets this element's
    /// address followed by `(css, i)`.
    #[verifier::external_body]
    pub(crate) fn select(&self, css: &Css) -> (r: Vec<Element<'a>>)
        ensures
            r.len() == element_match_count(self.source(), self.address(), css@),
            r.len() <= isize::MAX,
            forall|i: int|
                0 <= i < r.len() ==> (#[trigger] r[i]).source() == self.source() && r[i].address()
                    == self.address().push((css@, i as usize)),
    {
        let mut out = Vec::new();
        for (i, node) in self.node.select(&css.selector).enumerate() {
            let mut at = self.at.clone();
            at.push((css.text.clone(), i));
            out.push(Element { doc: self.doc, node, at });
        }
        out
    }

    /// The value of the attribute `name` (`ElementRef::attr`).
    #[verifier::external_body]
    pub(crate) fn attr(&self, name: &str) -> (r: Option<String>)
        ensures
            r is Some <==> element_attr(self.source(), self.address(), name@) is Some,
            r matches Some(v) ==> element_attr(self.source(), self.address(), name@) == Some(v@),
    {
        self.node.attr(name).map(|v| v.to_string())
    }

    /// The text nodes below this element, in the order of a depth-first walk of its
    /// subtree (`ElementRef::text`).
    #[verifier::external_body]
    pub(crate) fn texts(&self) -> (r: Vec<String>)
        ensures
            r.deep_view() == element_texts(self.source(), self.address()),
    {
        self.node.text().map(|t| t.to_string()).collect()
    }
}

/// The text of the first element that `css` matches below the element at
/// `at`, with whitespace collapsed; `None` where the selector is refused,
/// nothing matches, or the text is empty.
pub open spec fn first_text(html: Seq<char>, at: Seq<(Seq<char>, usize)>, css: Seq<char>) -> Option<
    Seq<char>,
> {
    if selector_parses(css) && element_match_count(html, at, css) > 0 {
        let t = normalized(element_texts(html, at.push((css, 0usize))));
        if t.len() > 0 {
            Some(t)
        } else {
            None
        }
    } else {
        None
    }
}

/// The attribute `name` of the first element that `css` matches below the
/// element at `at`; `None` where the selector is refused, nothing matches, or
/// that element lacks the attribute.
pub open spec fn first_attr(
    html: Seq<char>,
    at: Seq<(Seq<char>, usize)>,
    css: Seq<char>,
    name: Seq<char>,
) -> Option<Seq<char>> {
    if selector_parses(css) && element_match_count(html, at, css) > 0 {
        element_attr(html, at.push((css, 0usize)), name)
    } else {
        None
    }
}

/// The attribute `name` of the first element that `css` matches below `root`.
pub(crate) fn attr_of_first(root: &Element, css: &str, name: &str) -> (r: Option<String>)
    ensures
        r.deep_view() == first_attr(root.source(), root.address(), css@, name@),
{
    let sel = match Css::parse(css) {
        Some(sel) => sel,
        None => return None,
    };
    let found = root.select(&sel);
    if found.len() == 0 {
        return None;
    }
    found[0].attr(name)
}

} // verus!
