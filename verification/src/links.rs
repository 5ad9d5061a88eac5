//! The links that a page of search results offers.

use crate::error::ProgramError;
use crate::page::{
    attribute_of, find_below, named_below, node_attr, node_text, nodes_of_class, text_of, Page,
};
use crate::text::{starts_with, text_view};
use select::document::Document;
use select::node::Node;
use vstd::prelude::*;

verus! {

/// One candidate that a search offers: the title it advertises and the address
/// of the page behind it.
#[derive(Debug, PartialEq, Eq)]
pub struct DefinitionLink {
    pub title: String,
    pub href: String,
}

impl Clone for DefinitionLink {
    fn clone(&self) -> (copy: DefinitionLink)
        ensures
            copy == *self,
    {
        DefinitionLink { title: self.title.clone(), href: self.href.clone() }
    }
}

/// A link, as the contracts speak of it.
pub struct LinkView {
    pub title: Seq<char>,
    pub href: Seq<char>,
}

impl View for DefinitionLink {
    type V = LinkView;

    open spec fn view(&self) -> LinkView {
        LinkView { title: self.title@, href: self.href@ }
    }
}

/// What the extractor reads of an anchor: its visible text, and its address
/// where it has one.
#[derive(Debug, PartialEq, Eq)]
pub struct Anchor {
    pub title: String,
    pub href: Option<String>,
}

/// An anchor, as the contracts speak of it.
pub struct AnchorView {
    pub title: Seq<char>,
    pub href: Option<Seq<char>>,
}

impl View for Anchor {
    type V = AnchorView;

    open spec fn view(&self) -> AnchorView {
        AnchorView { title: self.title@, href: text_view(self.href) }
    }
}

/// The links, each by its view.
pub open spec fn link_views(links: Seq<DefinitionLink>) -> Seq<LinkView> {
    links.map_values(|link: DefinitionLink| link@)
}

/// The anchors, each by its view.
pub open spec fn anchor_views(anchors: Seq<Anchor>) -> Seq<AnchorView> {
    anchors.map_values(|anchor: Anchor| anchor@)
}

/// The title of the prompt that closes the list of results: an anchor whose
/// text begins so is no result, and nothing after it is one.
pub open spec fn closes_results(title: Seq<char>) -> bool {
    "are we missing"@.is_prefix_of(title)
}

/// The links among `anchors`: those before the first anchor that closes the
/// results, but for the ones without an address, in their order.
pub open spec fn links_among(anchors: Seq<AnchorView>) -> Seq<LinkView>
    decreases anchors.len(),
{
    if anchors.len() == 0 || closes_results(anchors.first().title) {
        Seq::empty()
    } else {
        let rest = links_among(anchors.drop_first());
        match anchors.first().href {
            Some(href) => seq![LinkView { title: anchors.first().title, href }] + rest,
            None => rest,
        }
    }
}

/// Picks the links among `anchors`, which are the anchors of a results
/// container in document order.
pub fn collect_links(anchors: &Vec<Anchor>) -> (links: Vec<DefinitionLink>)
    ensures
        link_views(links@) == links_among(anchor_views(anchors@)),
{
    let mut links: Vec<DefinitionLink> = Vec::new();
    let mut at: usize = 0;
    assert(anchor_views(anchors@).skip(0) == anchor_views(anchors@));
    while at < anchors.len()
        invariant
            at <= anchors.len(),
            link_views(links@) + links_among(anchor_views(anchors@).skip(at as int))
                == links_among(anchor_views(anchors@)),
        decreases anchors.len() - at,
    {
        let anchor = &anchors[at];
        let ghost rest = anchor_views(anchors@).skip(at as int);
        assert(rest.first() == anchor@);
        assert(rest.drop_first() == anchor_views(anchors@).skip(at + 1));
        if starts_with(anchor.title.as_str(), "are we missing") {
            return links;
        }
        match &anchor.href {
            Some(href) => {
                let ghost before = link_views(links@);
                let link = DefinitionLink { title: anchor.title.clone(), href: href.clone() };
                links.push(link);
                assert(link_views(links@) == before + seq![link@]);
            },
            None => {},
        }
        at += 1;
    }
    links
}

/// The anchors of a results container, if there is one, by their views.
pub open spec fn results_view(results: Option<Vec<Anchor>>) -> Option<Seq<AnchorView>> {
    match results {
        Some(anchors) => Some(anchor_views(anchors@)),
        None => None,
    }
}

/// The links that a page of results gives: those among the anchors of its
/// results container, and a parse error where it has no such container.
pub open spec fn links_of(results: Option<Seq<AnchorView>>) -> Result<Seq<LinkView>, ProgramError> {
    match results {
        Some(anchors) => Ok(links_among(anchors)),
        None => Err(ProgramError::Parse),
    }
}

/// Extracts the links from what was read of a page of results: `None` stands
/// for a page without a results container, `Some` holds the container's
/// anchors in document order.
pub fn links_from(results: &Option<Vec<Anchor>>) -> (extracted: Result<
    Vec<DefinitionLink>,
    ProgramError,
>)
    ensures
        results is None <==> extracted is Err,
        match extracted {
            Ok(links) => links_of(results_view(*results)) == Ok::<Seq<LinkView>, ProgramError>(
                link_views(links@),
            ),
            Err(error) => links_of(results_view(*results)) == Err::<Seq<LinkView>, ProgramError>(
                error,
            ),
        },
{
    match results {
        Some(anchors) => Ok(collect_links(anchors)),
        None => Err(ProgramError::Parse),
    }
}

/// What the extractor reads of the anchor `node`.
pub open spec fn anchor_at(node: Node) -> AnchorView {
    AnchorView { title: text_of(node), href: attribute_of(node, "href"@) }
}

/// The anchors below `node`, in document order.
pub open spec fn anchors_below(node: Node) -> Seq<AnchorView> {
    named_below(node, "a"@).map_values(|anchor: Node| anchor_at(anchor))
}

/// The anchors of the results container of `document`: of the first node that
/// carries the class `results`. `None` where no node carries it.
pub open spec fn results_in(document: &Document) -> Option<Seq<AnchorView>> {
    let containers = nodes_of_class(document, "results"@);
    if containers.len() == 0 {
        None
    } else {
        Some(anchors_below(containers.first()))
    }
}

/// The links that `document` gives, read as a page of search results.
pub open spec fn links_in(document: &Document) -> Result<Seq<LinkView>, ProgramError> {
    links_of(results_in(document))
}

/// Reads the anchors below `container`, in document order.
fn read_anchors(container: Node) -> (anchors: Vec<Anchor>)
    ensures
        anchor_views(anchors@) == anchors_below(container),
{
    let nodes = find_below(container, "a");
    let mut anchors: Vec<Anchor> = Vec::new();
    let mut at: usize = 0;
    while at < nodes.len()
        invariant
            at <= nodes.len(),
            anchors.len() == at,
            nodes@ == named_below(container, "a"@),
            forall|i: int| 0 <= i < at ==> anchors[i]@ == anchor_at(nodes[i]),
        decreases nodes.len() - at,
    {
        let node = nodes[at];
        let title = node_text(node);
        let href = node_attr(node, "href");
        anchors.push(Anchor { title, href });
        at += 1;
    }
    assert(anchor_views(anchors@) =~= anchors_below(container));
    anchors
}

/// Reads the results container of `page`: its anchors in document order, or
/// `None` where the page has no such container.
pub fn read_results(page: &Page) -> (results: Option<Vec<Anchor>>)
    ensures
        results_view(results) == results_in(&page.document()),
{
    let containers = page.of_class("results");
    if containers.len() == 0 {
        None
    } else {
        Some(read_anchors(containers[0]))
    }
}

/// Extracts the links from a page of search results, in the order of the
/// page. A page without a results container is a parse error; a container
/// without a link gives the empty list.
pub fn extract_links(page: &Page) -> (extracted: Result<Vec<DefinitionLink>, ProgramError>)
    ensures
        results_in(&page.document()) is None <==> extracted is Err,
        match extracted {
            Ok(links) => links_in(&page.document()) == Ok::<Seq<LinkView>, ProgramError>(
                link_views(links@),
            ),
            Err(error) => links_in(&page.document()) == Err::<Seq<LinkView>, ProgramError>(
                error,
            ),
        },
{
    let results = read_results(page);
    links_from(&results)
}

/// An anchor that closes the results hides itself and every anchor after it,
/// whatever their titles: the links are those of the anchors before it.
pub proof fn lemma_nothing_after_close(anchors: Seq<AnchorView>, at: int)
    requires
        0 <= at < anchors.len(),
        closes_results(anchors[at].title),
    ensures
        links_among(anchors) == links_among(anchors.take(at)),
    decreases anchors.len(),
{
    if at > 0 && !closes_results(anchors.first().title) {
        lemma_nothing_after_close(anchors.drop_first(), at - 1);
        assert(anchors.take(at).drop_first() == anchors.drop_first().take(at - 1));
        assert(anchors.take(at).first() == anchors.first());
    } else if at > 0 {
        assert(anchors.take(at).first() == anchors.first());
    }
}

/// An anchor without an address that does not close the results is passed
/// over: the links are those of the other anchors.
pub proof fn lemma_anchor_without_address(anchors: Seq<AnchorView>, at: int)
    requires
        0 <= at < anchors.len(),
        anchors[at].href is None,
        !closes_results(anchors[at].title),
    ensures
        links_among(anchors) == links_among(anchors.remove(at)),
    decreases anchors.len(),
{
    if at == 0 {
        assert(anchors.remove(0) == anchors.drop_first());
    } else {
        assert(anchors.remove(at).first() == anchors.first());
        if !closes_results(anchors.first().title) {
            lemma_anchor_without_address(anchors.drop_first(), at - 1);
            assert(anchors.remove(at).drop_first() == anchors.drop_first().remove(at - 1));
        }
    }
}

} // verus!
