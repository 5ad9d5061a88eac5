//! Pages as the HTML parser reads them, and the queries that the extractors
//! make of them.
//!
//! Parsing and querying are the work of the `select` crate. Nothing here looks
//! inside a document or a node: what a query returns is given a name, and the
//! extractors are specified over those names.

use select::document::Document;
use select::node::Node;
use select::predicate::{Class, Name};
use vstd::prelude::*;
use vstd::utf8::{decode_utf8, encode_utf8, valid_utf8};

verus! {

/// `select::document::Document`, a parsed HTML document. Nothing is known of
/// what is inside it.
#[verifier::external_type_specification]
#[verifier::external_body]
pub struct ExDocument(Document);

/// `select::node::Node`, one node of a document: it borrows the document and
/// holds the node's place in it. Nothing is known of what is inside it.
#[verifier::external_type_specification]
#[verifier::external_body]
pub struct ExNode<'a>(Node<'a>);

/// The text that lossy decoding makes of `bytes`.
pub uninterp spec fn lossy_text(bytes: Seq<u8>) -> Seq<char>;

/// The document that the HTML parser makes of `text`.
pub uninterp spec fn parsed(text: Seq<char>) -> Document;

/// The nodes of `document` that carry the class `class`, in document order.
pub uninterp spec fn nodes_of_class(document: &Document, class: Seq<char>) -> Seq<Node>;

/// The elements of `document` with the tag name `name`, in document order.
pub uninterp spec fn nodes_named(document: &Document, name: Seq<char>) -> Seq<Node>;

/// The elements below `node` with the tag name `name`, in document order.
pub uninterp spec fn named_below(node: Node, name: Seq<char>) -> Seq<Node>;

/// The text of `node` and of everything below it.
pub uninterp spec fn text_of(node: Node) -> Seq<char>;

/// The value of the attribute `name` of `node`, if it has one.
pub uninterp spec fn attribute_of(node: Node, name: Seq<char>) -> Option<Seq<char>>;

/// The length in bytes of the longest text that is parsed.
///
/// The parser copies the text into buffers that hold no more than `u32::MAX`
/// bytes each, and what it stores can be longer than what it read: a NUL
/// becomes a replacement character of three bytes, and pieces of text that
/// stand side by side are joined. The bound leaves room for that a
/// thousandfold, and no page of the glossary comes near it.
pub const MAX_PAGE_BYTES: usize = 0x40_0000;

/// Whether `text` is short enough to be parsed: its UTF-8 encoding has no
/// more than `MAX_PAGE_BYTES` bytes.
pub open spec fn fits_page(text: Seq<char>) -> bool {
    encode_utf8(text).len() <= MAX_PAGE_BYTES
}

/// The document that `text` gives: the text parsed, and `None` where the text
/// is too long to be parsed.
pub open spec fn document_for(text: Seq<char>) -> Option<Document> {
    if fits_page(text) {
        Some(parsed(text))
    } else {
        None
    }
}

/// The document that a response body gives: the body decoded, then parsed,
/// and `None` where the decoded text is too long to be parsed.
pub open spec fn document_of(body: Seq<u8>) -> Option<Document> {
    document_for(lossy_text(body))
}

/// `String::from_utf8_lossy`: the text that `bytes` encode, where each invalid
/// sequence gives a replacement character. On valid UTF-8 it is the text
/// encoded; otherwise the contract only names the result.
#[verifier::external_body]
pub(crate) fn decode_lossy(bytes: &[u8]) -> (text: String)
    ensures
        text@ == lossy_text(bytes@),
        valid_utf8(bytes@) ==> text@ == decode_utf8(bytes@),
{
    String::from_utf8_lossy(bytes).into_owned()
}

/// `Document::from` on a string slice: parses `text` as HTML. The call copies
/// the text into a buffer of the `tendril` crate, which panics on more than
/// `u32::MAX` bytes, and so do the buffers in which the parser joins text; the
/// `requires` keeps the text far below that. The parser accepts every text
/// that short; the contract names the document it builds.
#[verifier::external_body]
pub(crate) fn parse_html(text: &str) -> (document: Document)
    requires
        fits_page(text@),
    ensures
        document == parsed(text@),
{
    Document::from(text)
}

/// `Document::find` with the predicate `Class`, collected: every node of the
/// document whose `class` attribute lists `class`, in document order. The
/// contract names the list.
#[verifier::external_body]
pub(crate) fn find_class<'a>(document: &'a Document, class: &str) -> (nodes: Vec<Node<'a>>)
    ensures
        nodes@ == nodes_of_class(document, class@),
{
    document.find(Class(class)).collect()
}

/// `Document::find` with the predicate `Name`, collected: every element of
/// the document with the tag name `name`, in document order. The contract
/// names the list.
#[verifier::external_body]
pub(crate) fn find_named<'a>(document: &'a Document, name: &str) -> (nodes: Vec<Node<'a>>)
    ensures
        nodes@ == nodes_named(document, name@),
{
    document.find(Name(name)).collect()
}

/// `Node::find` with the predicate `Name`, collected: every element among
/// the descendants of `node` with the tag name `name`, in document order. The
/// contract names the list.
#[verifier::external_body]
pub(crate) fn find_below<'a>(node: Node<'a>, name: &str) -> (nodes: Vec<Node<'a>>)
    ensures
        nodes@ == named_below(node, name@),
{
    node.find(Name(name)).collect()
}

/// `Node::text`: the text nodes at and below `node`, joined in document
/// order. The contract names the text.
#[verifier::external_body]
pub(crate) fn node_text(node: Node) -> (text: String)
    ensures
        text@ == text_of(node),
{
    node.text()
}

/// `Node::attr`: the value of the attribute `name` of an element, `None` where
/// the element has no such attribute or the node is no element. The contract
/// names the value.
#[verifier::external_body]
pub(crate) fn node_attr(node: Node, name: &str) -> (value: Option<String>)
    ensures
        match value {
            Some(value) => attribute_of(node, name@) == Some(value@),
            None => attribute_of(node, name@) is None,
        },
{
    node.attr(name).map(str::to_owned)
}

/// A page as the parser read it. A page is made by parsing and in no other
/// way, so its nodes are linked as the parser links them.
pub struct Page {
    document: Document,
}

/// The document of the page, if there is one.
pub open spec fn document_view(page: Option<Page>) -> Option<Document> {
    match page {
        Some(page) => Some(page.document()),
        None => None,
    }
}

impl Page {
    /// The parsed document.
    pub closed spec fn document(&self) -> Document {
        self.document
    }

    /// Parses `text` as HTML. A text of no more than `MAX_PAGE_BYTES` bytes
    /// gives a page, whatever it holds; a longer one is not parsed and gives
    /// `None`.
    pub fn parse(text: &str) -> (page: Option<Page>)
        ensures
            page is Some <==> fits_page(text@),
            document_view(page) == document_for(text@),
    {
        if text.as_bytes().len() <= MAX_PAGE_BYTES {
            Some(Page { document: parse_html(text) })
        } else {
            None
        }
    }

    /// Reads a response body: decodes it as UTF-8, an invalid sequence giving a
    /// replacement character, and parses the text. No sequence of bytes makes
    /// the decoding fail; a body whose decoded text is longer than
    /// `MAX_PAGE_BYTES` bytes is not parsed and gives `None`.
    pub fn from_bytes(body: &[u8]) -> (page: Option<Page>)
        ensures
            page is Some <==> fits_page(lossy_text(body@)),
            document_view(page) == document_of(body@),
            valid_utf8(body@) ==> document_view(page) == document_for(decode_utf8(body@)),
    {
        let text = decode_lossy(body);
        Page::parse(text.as_str())
    }

    /// The nodes that carry the class `class`, in document order.
    pub(crate) fn of_class<'a>(&'a self, class: &str) -> (nodes: Vec<Node<'a>>)
        ensures
            nodes@ == nodes_of_class(&self.document(), class@),
    {
        find_class(&self.document, class)
    }

    /// The elements with the tag name `name`, in document order.
    pub(crate) fn named<'a>(&'a self, name: &str) -> (nodes: Vec<Node<'a>>)
        ensures
            nodes@ == nodes_named(&self.document(), name@),
    {
        find_named(&self.document, name)
    }
}

} // verus!
