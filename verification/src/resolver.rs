//! The resolver of one term: which pages to fetch for it, in which order, and
//! what the pages that came back amount to.
//!
//! The resolver fetches nothing itself. It says which page it wants next, is
//! told what came of fetching it, and ends with the definitions of the term
//! or with the first error.

use crate::definition::{
    definition_in, definition_views, extract_definition, Definition, DefinitionView,
};
use crate::error::ProgramError;
use crate::links::{extract_links, link_views, links_in, DefinitionLink, LinkView};
use crate::page::{document_of, Page};
use crate::text::{contains, occurs_in, text_view};
use vstd::prelude::*;
use vstd::string::StringExecFns;

verus! {

/// The number of definitions that a term is given at most.
pub const MAX_DEFINITIONS: usize = 4;

/// The address of the search for `term`: the term stands in it as it is.
pub open spec fn search_address(term: Seq<char>) -> Seq<char> {
    "https://www.alleydog.com/search-results.php?q="@ + term
}

/// The address of the search for `term`.
pub fn search_url(term: &str) -> (url: String)
    ensures
        url@ == search_address(term@),
{
    String::from_str("https://www.alleydog.com/search-results.php?q=").concat(term)
}

/// Whether the title of `link` says that it leads to a glossary entry.
pub open spec fn names_glossary(link: LinkView) -> bool {
    occurs_in("Glossary"@, link.title)
}

/// The links that are followed: of those that name a glossary entry the first
/// `MAX_DEFINITIONS`, in their order.
pub open spec fn glossary_links(links: Seq<LinkView>) -> Seq<LinkView> {
    let kept = links.filter(|link: LinkView| names_glossary(link));
    if kept.len() <= MAX_DEFINITIONS {
        kept
    } else {
        kept.take(MAX_DEFINITIONS as int)
    }
}

/// Chooses the links to follow among the links of a page of results.
pub fn choose_links(links: &Vec<DefinitionLink>) -> (chosen: Vec<DefinitionLink>)
    ensures
        link_views(chosen@) == glossary_links(link_views(links@)),
{
    let ghost all = link_views(links@);
    let ghost wanted = |link: LinkView| names_glossary(link);
    let mut chosen: Vec<DefinitionLink> = Vec::new();
    let mut at: usize = 0;
    proof {
        reveal(Seq::filter);
        assert(all.take(0).filter(wanted) == Seq::<LinkView>::empty());
    }
    while at < links.len() && chosen.len() < MAX_DEFINITIONS
        invariant
            at <= links.len(),
            all == link_views(links@),
            wanted == (|link: LinkView| names_glossary(link)),
            chosen.len() <= MAX_DEFINITIONS,
            link_views(chosen@) == all.take(at as int).filter(wanted),
        decreases links.len() - at,
    {
        let link = &links[at];
        proof {
            reveal(Seq::filter);
            assert(all.take(at + 1).drop_last() == all.take(at as int));
            assert(all.take(at + 1).last() == link@);
        }
        if contains(link.title.as_str(), "Glossary") {
            let ghost before = link_views(chosen@);
            chosen.push(link.clone());
            assert(link_views(chosen@) == before.push(link@));
        }
        at += 1;
    }
    proof {
        let rest = all.skip(at as int);
        assert(all == all.take(at as int) + rest);
        Seq::filter_distributes_over_add(all.take(at as int), rest, wanted);
        if at == links.len() {
            assert(rest.filter(wanted) == Seq::<LinkView>::empty()) by {
                reveal(Seq::filter);
            }
            assert(all.filter(wanted) == link_views(chosen@));
        } else {
            assert(all.filter(wanted).take(MAX_DEFINITIONS as int) == link_views(chosen@));
        }
    }
    chosen
}

/// The links that are followed are at most `MAX_DEFINITIONS`, each names a
/// glossary entry, and each is one of the links of the page.
pub proof fn lemma_followed_links(links: Seq<LinkView>)
    ensures
        glossary_links(links).len() <= MAX_DEFINITIONS,
        forall|i: int|
            0 <= i < glossary_links(links).len() ==> names_glossary(
                #[trigger] glossary_links(links)[i],
            ) && links.contains(glossary_links(links)[i]),
{
    let wanted = |link: LinkView| names_glossary(link);
    let kept = links.filter(wanted);
    assert forall|i: int| 0 <= i < glossary_links(links).len() implies names_glossary(
        #[trigger] glossary_links(links)[i],
    ) && links.contains(glossary_links(links)[i]) by {
        assert(glossary_links(links)[i] == kept[i]);
        links.lemma_filter_pred(wanted, i);
        assert(kept.contains(kept[i]));
        links.lemma_filter_contains_rev(wanted, kept[i]);
    }
}

/// Where no link of the page names a glossary entry, none is followed.
pub proof fn lemma_no_glossary_link(links: Seq<LinkView>)
    requires
        forall|i: int| 0 <= i < links.len() ==> !names_glossary(links[i]),
    ensures
        glossary_links(links) == Seq::<LinkView>::empty(),
{
    lemma_followed_links(links);
    if glossary_links(links).len() > 0 {
        let first = glossary_links(links)[0];
        assert(links.contains(first));
    }
}

/// What came of fetching a page.
#[derive(Debug, PartialEq, Eq)]
pub enum Reply {
    /// The page was fetched: the bytes of its body.
    Body(Vec<u8>),
    /// The page could not be fetched.
    Failed,
}

/// A reply, as the contracts speak of it.
pub enum ReplyView {
    Body(Seq<u8>),
    Failed,
}

impl View for Reply {
    type V = ReplyView;

    open spec fn view(&self) -> ReplyView {
        match self {
            Reply::Body(body) => ReplyView::Body(body@),
            Reply::Failed => ReplyView::Failed,
        }
    }
}

/// The links that a reply gives, read as the answer to a search. A page that
/// could not be fetched gives `Url`; a body that is too long to be parsed
/// counts as a page that cannot be read and gives `Parse`.
pub open spec fn links_replied(reply: ReplyView) -> Result<Seq<LinkView>, ProgramError> {
    match reply {
        ReplyView::Body(body) => match document_of(body) {
            Some(document) => links_in(&document),
            None => Err(ProgramError::Parse),
        },
        ReplyView::Failed => Err(ProgramError::Url),
    }
}

/// The definition that a reply gives, read as the page of an entry. A page
/// that could not be fetched gives `Url`; a body that is too long to be parsed
/// counts as a page that cannot be read and gives `Parse`.
pub open spec fn definition_replied(reply: ReplyView) -> Result<DefinitionView, ProgramError> {
    match reply {
        ReplyView::Body(body) => match document_of(body) {
            Some(document) => definition_in(&document),
            None => Err(ProgramError::Parse),
        },
        ReplyView::Failed => Err(ProgramError::Url),
    }
}

/// Reads the body of the answer to a search: the links of the page, or the
/// error of a body that is too long to be parsed or cannot be read.
pub fn read_links(body: &Vec<u8>) -> (read: Result<Vec<DefinitionLink>, ProgramError>)
    ensures
        match read {
            Ok(links) => links_replied(ReplyView::Body(body@)) == Ok::<
                Seq<LinkView>,
                ProgramError,
            >(link_views(links@)),
            Err(error) => links_replied(ReplyView::Body(body@)) == Err::<
                Seq<LinkView>,
                ProgramError,
            >(error),
        },
{
    match Page::from_bytes(body.as_slice()) {
        Some(page) => extract_links(&page),
        None => Err(ProgramError::Parse),
    }
}

/// Reads the body of the page of an entry: its definition, or the error of a
/// body that is too long to be parsed or cannot be read.
pub fn read_definition(body: &Vec<u8>) -> (read: Result<Definition, ProgramError>)
    ensures
        match read {
            Ok(definition) => definition_replied(ReplyView::Body(body@)) == Ok::<
                DefinitionView,
                ProgramError,
            >(definition@),
            Err(error) => definition_replied(ReplyView::Body(body@)) == Err::<
                DefinitionView,
                ProgramError,
            >(error),
        },
{
    match Page::from_bytes(body.as_slice()) {
        Some(page) => extract_definition(&page),
        None => Err(ProgramError::Parse),
    }
}

/// How far the resolver has come.
enum Stage {
    /// The page of search results is awaited.
    Searching,
    /// The links to follow are chosen, and the definitions of the first of
    /// them are found: the page of the next link is awaited, or all are found.
    Collecting { links: Vec<DefinitionLink>, found: Vec<Definition> },
    /// A page could not be fetched or read.
    Failed(ProgramError),
}

/// A stage, as the contracts speak of it.
pub enum StageView {
    Searching,
    Collecting { links: Seq<LinkView>, found: Seq<DefinitionView> },
    Failed(ProgramError),
}

impl View for Stage {
    type V = StageView;

    closed spec fn view(&self) -> StageView {
        match self {
            Stage::Searching => StageView::Searching,
            Stage::Collecting { links, found } => StageView::Collecting {
                links: link_views(links@),
                found: definition_views(found@),
            },
            Stage::Failed(error) => StageView::Failed(*error),
        }
    }
}

/// The resolver of one term, between two fetches.
pub struct Resolver {
    term: String,
    stage: Stage,
}

/// A resolver, as the contracts speak of it.
pub struct ResolverView {
    pub term: Seq<char>,
    pub stage: StageView,
}

impl View for Resolver {
    type V = ResolverView;

    closed spec fn view(&self) -> ResolverView {
        ResolverView { term: self.term@, stage: self.stage@ }
    }
}

impl ResolverView {
    /// The resolver of `term` before anything is fetched.
    pub open spec fn start(term: Seq<char>) -> ResolverView {
        ResolverView { term, stage: StageView::Searching }
    }

    /// What holds of every resolver: no more than `MAX_DEFINITIONS` links are
    /// followed, each names a glossary entry, and no more definitions are
    /// found than links are followed.
    pub open spec fn well_formed(self) -> bool {
        match self.stage {
            StageView::Collecting { links, found } => {
                &&& found.len() <= links.len() <= MAX_DEFINITIONS
                &&& forall|i: int| 0 <= i < links.len() ==> names_glossary(#[trigger] links[i])
            },
            _ => true,
        }
    }

    /// The address of the page that the resolver wants next, `None` where it
    /// wants no more.
    pub open spec fn wanted(self) -> Option<Seq<char>> {
        match self.stage {
            StageView::Searching => Some(search_address(self.term)),
            StageView::Collecting { links, found } => if found.len() < links.len() {
                Some(links[found.len() as int].href)
            } else {
                None
            },
            StageView::Failed(_) => None,
        }
    }

    /// What the resolver has ended with: the definitions of the term, in the
    /// order of their links, or the first error. `None` while a page is wanted.
    pub open spec fn outcome(self) -> Option<Result<Seq<DefinitionView>, ProgramError>> {
        match self.stage {
            StageView::Searching => None,
            StageView::Collecting { links, found } => if found.len() < links.len() {
                None
            } else {
                Some(Ok(found))
            },
            StageView::Failed(error) => Some(Err(error)),
        }
    }

    /// The resolver after it was told what came of fetching the page it wanted.
    ///
    /// A page that could not be fetched ends it with `Url`, and a page that
    /// cannot be read with the extractor's error, `Parse`. A body whose text
    /// is longer than `MAX_PAGE_BYTES` bytes is not parsed: it ends the
    /// resolver with `Parse` too. The page of results gives the links to
    /// follow; the page of a link gives the next definition. A resolver that
    /// wants no page stays as it is.
    pub open spec fn after(self, reply: ReplyView) -> ResolverView {
        match self.stage {
            StageView::Searching => match links_replied(reply) {
                Ok(links) => ResolverView {
                    term: self.term,
                    stage: StageView::Collecting {
                        links: glossary_links(links),
                        found: Seq::empty(),
                    },
                },
                Err(error) => self.failed(error),
            },
            StageView::Collecting { links, found } => if found.len() < links.len() {
                match definition_replied(reply) {
                    Ok(definition) => ResolverView {
                        term: self.term,
                        stage: StageView::Collecting { links, found: found.push(definition) },
                    },
                    Err(error) => self.failed(error),
                }
            } else {
                self
            },
            StageView::Failed(_) => self,
        }
    }

    /// The resolver, ended with `error`.
    pub open spec fn failed(self, error: ProgramError) -> ResolverView {
        ResolverView { term: self.term, stage: StageView::Failed(error) }
    }

    /// The resolver after the replies, each told as it came.
    pub open spec fn after_all(self, replies: Seq<ReplyView>) -> ResolverView
        decreases replies.len(),
    {
        if replies.len() == 0 {
            self
        } else {
            self.after(replies.first()).after_all(replies.drop_first())
        }
    }

    /// The resolver after up to `fetches` fetches on `web`, which says for each
    /// address what comes of fetching it: each page that the resolver wants is
    /// fetched, and the resolver is told of it.
    pub open spec fn driven(
        self,
        web: spec_fn(Seq<char>) -> ReplyView,
        fetches: nat,
    ) -> ResolverView
        decreases fetches,
    {
        match self.wanted() {
            Some(url) if fetches > 0 => self.after(web(url)).driven(web, (fetches - 1) as nat),
            _ => self,
        }
    }
}

/// Copies the definitions.
fn copy_definitions(definitions: &Vec<Definition>) -> (copy: Vec<Definition>)
    ensures
        definition_views(copy@) == definition_views(definitions@),
{
    let mut copy: Vec<Definition> = Vec::new();
    let mut at: usize = 0;
    while at < definitions.len()
        invariant
            at <= definitions.len(),
            copy.len() == at,
            forall|i: int| 0 <= i < at ==> copy[i]@ == definitions[i]@,
        decreases definitions.len() - at,
    {
        copy.push(definitions[at].clone());
        at += 1;
    }
    assert(definition_views(copy@) =~= definition_views(definitions@));
    copy
}

impl Resolver {
    #[verifier::type_invariant]
    spec fn sound(self) -> bool {
        self@.well_formed()
    }

    /// The resolver of `term`, which wants the page of search results.
    pub fn new(term: &str) -> (resolver: Resolver)
        ensures
            resolver@ == ResolverView::start(term@),
    {
        Resolver { term: term.to_owned(), stage: Stage::Searching }
    }

    /// The address of the page to fetch next, `None` where the resolver has
    /// ended.
    pub fn wanted(&self) -> (url: Option<String>)
        ensures
            text_view(url) == self@.wanted(),
    {
        match &self.stage {
            Stage::Searching => Some(search_url(self.term.as_str())),
            Stage::Collecting { links, found } => if found.len() < links.len() {
                Some(links[found.len()].href.clone())
            } else {
                None
            },
            Stage::Failed(_) => None,
        }
    }

    /// What the resolver has ended with, `None` while it wants a page. The
    /// definitions are at most `MAX_DEFINITIONS`.
    pub fn outcome(&self) -> (outcome: Option<Result<Vec<Definition>, ProgramError>>)
        ensures
            self@.well_formed(),
            match outcome {
                None => self@.outcome() is None,
                Some(Ok(definitions)) => self@.outcome() == Some(
                    Ok::<Seq<DefinitionView>, ProgramError>(definition_views(definitions@)),
                ) && definitions.len() <= MAX_DEFINITIONS,
                Some(Err(error)) => self@.outcome() == Some(
                    Err::<Seq<DefinitionView>, ProgramError>(error),
                ),
            },
    {
        proof {
            use_type_invariant(self);
        }
        match &self.stage {
            Stage::Searching => None,
            Stage::Collecting { links, found } => if found.len() < links.len() {
                None
            } else {
                let definitions = copy_definitions(found);
                assert(definition_views(definitions@).len() == definitions.len());
                Some(Ok(definitions))
            },
            Stage::Failed(error) => Some(Err(*error)),
        }
    }

    /// Tells the resolver what came of fetching the page it wanted.
    pub fn answer(self, reply: Reply) -> (next: Resolver)
        ensures
            next@ == self@.after(reply@),
            next@.well_formed(),
    {
        proof {
            use_type_invariant(&self);
        }
        let Resolver { term, stage } = self;
        match stage {
            Stage::Searching => match reply {
                Reply::Failed => Resolver { term, stage: Stage::Failed(ProgramError::Url) },
                Reply::Body(body) => match read_links(&body) {
                    Ok(links) => {
                        let chosen = choose_links(&links);
                        proof {
                            lemma_followed_links(link_views(links@));
                        }
                        let found: Vec<Definition> = Vec::new();
                        assert(definition_views(found@) == Seq::<DefinitionView>::empty());
                        Resolver { term, stage: Stage::Collecting { links: chosen, found } }
                    },
                    Err(error) => Resolver { term, stage: Stage::Failed(error) },
                },
            },
            Stage::Collecting { links, found } => {
                if found.len() < links.len() {
                    match reply {
                        Reply::Failed => Resolver { term, stage: Stage::Failed(ProgramError::Url) },
                        Reply::Body(body) => match read_definition(&body) {
                            Ok(definition) => {
                                let ghost before = definition_views(found@);
                                let mut found = found;
                                found.push(definition);
                                assert(definition_views(found@) == before.push(definition@));
                                Resolver { term, stage: Stage::Collecting { links, found } }
                            },
                            Err(error) => Resolver { term, stage: Stage::Failed(error) },
                        },
                    }
                } else {
                    Resolver { term, stage: Stage::Collecting { links, found } }
                }
            },
            Stage::Failed(error) => Resolver { term, stage: Stage::Failed(error) },
        }
    }
}


/// The definitions behind `links` on `web`, in the order of the links. The
/// first page that cannot be fetched or read gives its error.
pub open spec fn definitions_behind(
    links: Seq<LinkView>,
    web: spec_fn(Seq<char>) -> ReplyView,
) -> Result<Seq<DefinitionView>, ProgramError>
    decreases links.len(),
{
    if links.len() == 0 {
        Ok(Seq::empty())
    } else {
        match definitions_behind(links.drop_last(), web) {
            Ok(found) => match definition_replied(web(links.last().href)) {
                Ok(definition) => Ok(found.push(definition)),
                Err(error) => Err(error),
            },
            Err(error) => Err(error),
        }
    }
}

/// The definitions of `term` on `web`: the search for the term is fetched,
/// and the definitions are those behind the links that are followed.
pub open spec fn resolved(term: Seq<char>, web: spec_fn(Seq<char>) -> ReplyView) -> Result<
    Seq<DefinitionView>,
    ProgramError,
> {
    match links_replied(web(search_address(term))) {
        Ok(links) => definitions_behind(glossary_links(links), web),
        Err(error) => Err(error),
    }
}

/// A reply leaves a well-formed resolver well-formed.
pub proof fn lemma_reply_keeps_well_formed(state: ResolverView, reply: ReplyView)
    requires
        state.well_formed(),
    ensures
        state.after(reply).well_formed(),
{
    if let StageView::Searching = state.stage {
        if let Ok(links) = links_replied(reply) {
            lemma_followed_links(links);
        }
    }
}

/// Whatever the term and whatever comes of the fetches, the resolver is
/// well-formed: it follows at most `MAX_DEFINITIONS` links, each of which
/// names a glossary entry, and finds at most one definition for each. So it
/// never ends with more than `MAX_DEFINITIONS` definitions.
pub proof fn lemma_always_well_formed(state: ResolverView, replies: Seq<ReplyView>)
    requires
        state.well_formed(),
    ensures
        state.after_all(replies).well_formed(),
        ResolverView::start(state.term).well_formed(),
        match state.after_all(replies).outcome() {
            Some(Ok(definitions)) => definitions.len() <= MAX_DEFINITIONS,
            _ => true,
        },
    decreases replies.len(),
{
    if replies.len() > 0 {
        lemma_reply_keeps_well_formed(state, replies.first());
        lemma_always_well_formed(state.after(replies.first()), replies.drop_first());
    }
}

/// A term whose page of results holds no link that names a glossary entry
/// has no definitions, and that is no error: the resolver ends with the empty
/// list as soon as it has read that page.
pub proof fn lemma_nothing_to_follow(term: Seq<char>, body: Seq<u8>, links: Seq<LinkView>)
    requires
        links_replied(ReplyView::Body(body)) == Ok::<Seq<LinkView>, ProgramError>(links),
        forall|i: int| 0 <= i < links.len() ==> !names_glossary(links[i]),
    ensures
        ResolverView::start(term).after(ReplyView::Body(body)).outcome() == Some(
            Ok::<Seq<DefinitionView>, ProgramError>(Seq::empty()),
        ),
        ResolverView::start(term).after(ReplyView::Body(body)).wanted() is None,
{
    lemma_no_glossary_link(links);
}

/// A page that could not be fetched ends the resolver at once, whichever page
/// it was: the outcome is `Url`, no page is wanted any more, and nothing that
/// the resolver is told afterwards changes that.
pub proof fn lemma_failure_ends(state: ResolverView, later: Seq<ReplyView>)
    requires
        state.wanted() is Some,
    ensures
        state.after(ReplyView::Failed).outcome() == Some(
            Err::<Seq<DefinitionView>, ProgramError>(ProgramError::Url),
        ),
        state.after(ReplyView::Failed).wanted() is None,
        state.after(ReplyView::Failed).after_all(later) == state.after(ReplyView::Failed),
{
    lemma_ended_stays(state.after(ReplyView::Failed), later);
}

/// A resolver that wants no page stays as it is, whatever it is told.
pub proof fn lemma_ended_stays(state: ResolverView, later: Seq<ReplyView>)
    requires
        state.wanted() is None,
    ensures
        state.after_all(later) == state,
    decreases later.len(),
{
    if later.len() > 0 {
        lemma_ended_stays(state, later.drop_first());
    }
}

/// The definitions behind the links are as many as the links, and each is
/// read from the page behind the link at its position. An error is that of
/// the first link whose page cannot be fetched or read.
pub proof fn lemma_definitions_behind(links: Seq<LinkView>, web: spec_fn(Seq<char>) -> ReplyView)
    ensures
        match definitions_behind(links, web) {
            Ok(found) => {
                &&& found.len() == links.len()
                &&& forall|i: int|
                    0 <= i < links.len() ==> definition_replied(web(#[trigger] links[i].href))
                        == Ok::<DefinitionView, ProgramError>(found[i])
            },
            Err(error) => exists|first: int|
                {
                    &&& 0 <= first < links.len()
                    &&& definition_replied(web(#[trigger] links[first].href)) == Err::<
                        DefinitionView,
                        ProgramError,
                    >(error)
                    &&& forall|i: int|
                        0 <= i < first ==> definition_replied(web(#[trigger] links[i].href)) is Ok
                },
        },
    decreases links.len(),
{
    if links.len() > 0 {
        let before = links.drop_last();
        lemma_definitions_behind(before, web);
        match definitions_behind(before, web) {
            Ok(found) => match definition_replied(web(links.last().href)) {
                Ok(definition) => {
                    assert forall|i: int| 0 <= i < links.len() implies definition_replied(
                        web(#[trigger] links[i].href),
                    ) == Ok::<DefinitionView, ProgramError>(found.push(definition)[i]) by {
                        if i < before.len() {
                            assert(links[i] == before[i]);
                        }
                    }
                },
                Err(error) => {
                    let first = links.len() - 1;
                    assert forall|i: int| 0 <= i < first implies definition_replied(
                        web(#[trigger] links[i].href),
                    ) is Ok by {
                        assert(links[i] == before[i]);
                    }
                    assert(definition_replied(web(links[first].href)) == Err::<
                        DefinitionView,
                        ProgramError,
                    >(error));
                },
            },
            Err(error) => {
                let first = choose|first: int|
                    {
                        &&& 0 <= first < before.len()
                        &&& definition_replied(web(#[trigger] before[first].href)) == Err::<
                            DefinitionView,
                            ProgramError,
                        >(error)
                        &&& forall|i: int|
                            0 <= i < first ==> definition_replied(
                                web(#[trigger] before[i].href),
                            ) is Ok
                    };
                assert(links[first] == before[first]);
                assert forall|i: int| 0 <= i < first implies definition_replied(
                    web(#[trigger] links[i].href),
                ) is Ok by {
                    assert(links[i] == before[i]);
                }
            },
        }
    }
}

/// The definitions of a term are at most `MAX_DEFINITIONS`, and each is read
/// from the page behind a link of the page of results whose title names a
/// glossary entry.
pub proof fn lemma_resolved_from_glossary_links(
    term: Seq<char>,
    web: spec_fn(Seq<char>) -> ReplyView,
)
    ensures
        match resolved(term, web) {
            Ok(definitions) => {
                &&& definitions.len() <= MAX_DEFINITIONS
                &&& links_replied(web(search_address(term))) matches Ok(links)
                &&& definitions.len() == glossary_links(links).len()
                &&& forall|i: int|
                    0 <= i < definitions.len() ==> {
                        let link = #[trigger] glossary_links(links)[i];
                        &&& names_glossary(link)
                        &&& links.contains(link)
                        &&& definition_replied(web(link.href)) == Ok::<
                            DefinitionView,
                            ProgramError,
                        >(definitions[i])
                    }
            },
            Err(_) => true,
        },
{
    if let Ok(links) = links_replied(web(search_address(term))) {
        lemma_followed_links(links);
        lemma_definitions_behind(glossary_links(links), web);
    }
}

/// An error among the first links is the error of all the links.
pub proof fn lemma_first_error_stands(
    links: Seq<LinkView>,
    web: spec_fn(Seq<char>) -> ReplyView,
    length: int,
    error: ProgramError,
)
    requires
        0 <= length <= links.len(),
        definitions_behind(links.take(length), web) == Err::<Seq<DefinitionView>, ProgramError>(
            error,
        ),
    ensures
        definitions_behind(links, web) == Err::<Seq<DefinitionView>, ProgramError>(error),
    decreases links.len() - length,
{
    if length == links.len() {
        assert(links.take(length) == links);
    } else {
        assert(links.take(length + 1).drop_last() == links.take(length));
        lemma_first_error_stands(links, web, length + 1, error);
    }
}

/// A resolver that has found the definitions behind the first of its links
/// finds, driven on the web, those behind all of them, or the first error.
pub proof fn lemma_driven_collects(
    state: ResolverView,
    web: spec_fn(Seq<char>) -> ReplyView,
    fetches: nat,
)
    requires
        ({
            &&& state.stage matches StageView::Collecting { links, found }
            &&& found.len() <= links.len() <= found.len() + fetches
            &&& definitions_behind(links.take(found.len() as int), web) == Ok::<
                Seq<DefinitionView>,
                ProgramError,
            >(found)
        }),
    ensures
        ({
            &&& state.stage matches StageView::Collecting { links, found }
            &&& state.driven(web, fetches).outcome() == Some(definitions_behind(links, web))
        }),
    decreases fetches,
{
    if let StageView::Collecting { links, found } = state.stage {
        let length = found.len() as int;
        if length == links.len() {
            assert(links.take(length) == links);
        } else {
            assert(links.take(length + 1).drop_last() == links.take(length));
            assert(links.take(length + 1).last() == links[length]);
            let next = state.after(web(links[length].href));
            match definition_replied(web(links[length].href)) {
                Ok(definition) => {
                    lemma_driven_collects(next, web, (fetches - 1) as nat);
                },
                Err(error) => {
                    lemma_first_error_stands(links, web, length + 1, error);
                    assert(next.wanted() is None);
                },
            }
        }
    }
}

/// Driven on the web, the resolver of a term ends with the definitions of
/// the term, and `MAX_DEFINITIONS + 1` fetches are enough for it: one for the
/// search, and one for each link that is followed.
pub proof fn lemma_driven_resolves(term: Seq<char>, web: spec_fn(Seq<char>) -> ReplyView)
    ensures
        ResolverView::start(term).driven(web, (MAX_DEFINITIONS + 1) as nat).outcome() == Some(
            resolved(term, web),
        ),
{
    let start = ResolverView::start(term);
    let next = start.after(web(search_address(term)));
    assert(start.driven(web, (MAX_DEFINITIONS + 1) as nat) == next.driven(
        web,
        MAX_DEFINITIONS as nat,
    ));
    match links_replied(web(search_address(term))) {
        Ok(links) => {
            lemma_followed_links(links);
            assert(glossary_links(links).take(0) == Seq::<LinkView>::empty());
            lemma_driven_collects(next, web, MAX_DEFINITIONS as nat);
        },
        Err(error) => {
            assert(next.driven(web, MAX_DEFINITIONS as nat) == next);
        },
    }
}

} // verus!
