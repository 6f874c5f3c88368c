//! What the shop's HTML pages hold, as the `select` crate reads them.
//!
//! Parsing HTML is left to `select`; the two private functions at the end
//! are believed, not proved. Each names what the parser hands back, so that
//! the functions built on them can say exactly what they compute from it.

use select::document::Document;
use select::predicate::Name;
use vstd::prelude::*;
use vstd::utf8::encode_utf8;

use crate::text::texts;

verus! {

/// What one request for a page brought.
#[derive(Debug, PartialEq, Eq)]
pub enum Fetched {
    /// The server answered with a success status and this document.
    Page(String),
    /// The server answered with another status.
    Refused,
}

/// The longest document, in bytes of UTF-8, that is handed to the parser.
/// The parser keeps its text in buffers whose lengths are 32-bit numbers and
/// stops the program when one overflows; a document of this length cannot
/// make it do so, even where every byte of it is read as a character three
/// bytes long.
pub const MAX_DOCUMENT_BYTES: usize = 0x2000_0000;

/// The document is short enough to be parsed.
pub open spec fn parsable(html: Seq<char>) -> bool {
    encode_utf8(html).len() <= MAX_DOCUMENT_BYTES
}

/// The response holds a document that is too long to be parsed.
pub open spec fn oversized(fetched: Fetched) -> bool {
    fetched matches Fetched::Page(html) && !parsable(html@)
}

/// What the `href` attribute of each `a` element of the HTML document `html`
/// holds, in document order; `None` for an anchor without one.
pub uninterp spec fn html_anchor_hrefs(html: Seq<char>) -> Seq<Option<Seq<char>>>;

/// The text content of each `script` element of the HTML document `html`, in
/// document order.
pub uninterp spec fn html_script_texts(html: Seq<char>) -> Seq<Seq<char>>;

/// What a sequence of optional strings holds.
pub open spec fn optional_texts(v: Seq<Option<String>>) -> Seq<Option<Seq<char>>> {
    v.map_values(
        |o: Option<String>|
            match o {
                Some(s) => Some(s@),
                None => None,
            },
    )
}

/// The links among the anchors: the `href` of each anchor that has one, in
/// order.
pub open spec fn present(hrefs: Seq<Option<Seq<char>>>) -> Seq<Seq<char>> {
    hrefs.filter_map(|h: Option<Seq<char>>| h)
}

/// The links that a response contributes: those of the anchors of its
/// document, and none at all where the page was refused.
pub open spec fn anchors_of(fetched: Fetched) -> Option<Seq<Seq<char>>> {
    match fetched {
        Fetched::Page(html) => Some(present(html_anchor_hrefs(html@))),
        Fetched::Refused => None,
    }
}

/// Whether the document is short enough to be parsed.
pub fn is_parsable(html: &str) -> (b: bool)
    ensures
        b == parsable(html@),
{
    html.as_bytes().len() <= MAX_DOCUMENT_BYTES
}

/// The links among `anchors`: the `href` of each anchor that has one.
pub fn present_hrefs(anchors: &Vec<Option<String>>) -> (hrefs: Vec<String>)
    ensures
        texts(hrefs@) == present(optional_texts(anchors@)),
{
    let ghost all = optional_texts(anchors@);
    let mut hrefs: Vec<String> = Vec::new();
    let mut i: usize = 0;
    while i < anchors.len()
        invariant
            i <= anchors.len(),
            all == optional_texts(anchors@),
            texts(hrefs@) == present(all.take(i as int)),
        decreases anchors.len() - i,
    {
        proof {
            all.lemma_filter_map_take_succ(|h: Option<Seq<char>>| h, i as int);
        }
        if let Some(href) = &anchors[i] {
            hrefs.push(href.clone());
        }
        i += 1;
    }
    assert(all.take(i as int) =~= all);
    hrefs
}

/// The links of the document `html`: the `href` of each of its anchors that
/// has one, in document order.
pub fn page_hrefs(html: &str) -> (hrefs: Vec<String>)
    requires
        parsable(html@),
    ensures
        texts(hrefs@) == present(html_anchor_hrefs(html@)),
{
    let anchors = anchor_hrefs(html);
    present_hrefs(&anchors)
}

/// Parses `html` with `select::document::Document::from`, walks
/// `Document::find(Name("a"))` and takes `Node::attr("href")` of each node.
/// The contract only gives the outcome its name: the parse depends on
/// nothing but the text. Longer documents are kept away because the parser
/// panics when a text buffer outgrows 32 bits.
#[verifier::external_body]
pub(crate) fn anchor_hrefs(html: &str) -> (hrefs: Vec<Option<String>>)
    requires
        parsable(html@),
    ensures
        optional_texts(hrefs@) == html_anchor_hrefs(html@),
{
    Document::from(html).find(Name("a")).map(|n| n.attr("href").map(String::from)).collect()
}

/// Parses `html` with `select::document::Document::from` and takes
/// `Node::text()` of every node of `Document::find(Name("script"))`. The
/// contract only gives the outcome its name: the parse depends on nothing but
/// the text. Longer documents are kept away because the parser panics when a
/// text buffer outgrows 32 bits.
#[verifier::external_body]
pub(crate) fn script_texts(html: &str) -> (scripts: Vec<String>)
    requires
        parsable(html@),
    ensures
        texts(scripts@) == html_script_texts(html@),
{
    Document::from(html).find(Name("script")).map(|n| n.text()).collect()
}

} // verus!
