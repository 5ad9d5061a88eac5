//! The glossary entry that an entry page holds.

use crate::error::ProgramError;
use crate::page::{find_below, named_below, node_text, nodes_named, text_of, Page};
use crate::text::{text_view, trim, trimmed};
use select::document::Document;
use select::node::Node;
use vstd::prelude::*;

verus! {

/// A glossary entry: its heading and the first paragraph of its body, both
/// without the whitespace around them.
#[derive(Debug, PartialEq, Eq)]
pub struct Definition {
    pub title: String,
    pub text: String,
}

impl Clone for Definition {
    fn clone(&self) -> (copy: Definition)
        ensures
            copy == *self,
    {
        Definition { title: self.title.clone(), text: self.text.clone() }
    }
}

/// A definition, as the contracts speak of it.
pub struct DefinitionView {
    pub title: Seq<char>,
    pub text: Seq<char>,
}

impl View for Definition {
    type V = DefinitionView;

    open spec fn view(&self) -> DefinitionView {
        DefinitionView { title: self.title@, text: self.text@ }
    }
}

/// The definitions, each by its view.
pub open spec fn definition_views(definitions: Seq<Definition>) -> Seq<DefinitionView> {
    definitions.map_values(|definition: Definition| definition@)
}

/// What the extractor reads of an article: the text of its first heading and
/// of its first paragraph, each as the page has it, `None` where the article
/// has no such element.
#[derive(Debug, PartialEq, Eq)]
pub struct Article {
    pub heading: Option<String>,
    pub paragraph: Option<String>,
}

/// An article, as the contracts speak of it.
pub struct ArticleView {
    pub heading: Option<Seq<char>>,
    pub paragraph: Option<Seq<char>>,
}

impl View for Article {
    type V = ArticleView;

    open spec fn view(&self) -> ArticleView {
        ArticleView { heading: text_view(self.heading), paragraph: text_view(self.paragraph) }
    }
}

/// The article, if there is one, by its view.
pub open spec fn article_view(article: Option<Article>) -> Option<ArticleView> {
    match article {
        Some(article) => Some(article@),
        None => None,
    }
}

/// The definition that an entry page gives: heading and paragraph of its
/// article, trimmed. An element that is there and empty gives an empty text; a
/// page without an article, or an article without a heading or without a
/// paragraph, is a parse error.
pub open spec fn definition_of(article: Option<ArticleView>) -> Result<
    DefinitionView,
    ProgramError,
> {
    match article {
        Some(ArticleView { heading: Some(heading), paragraph: Some(paragraph) }) => Ok(
            DefinitionView { title: trimmed(heading), text: trimmed(paragraph) },
        ),
        _ => Err(ProgramError::Parse),
    }
}

/// Extracts the definition from what was read of an entry page: `None` stands
/// for a page without an article.
pub fn definition_from(article: &Option<Article>) -> (extracted: Result<Definition, ProgramError>)
    ensures
        match extracted {
            Ok(definition) => definition_of(article_view(*article)) == Ok::<
                DefinitionView,
                ProgramError,
            >(definition@),
            Err(error) => definition_of(article_view(*article)) == Err::<
                DefinitionView,
                ProgramError,
            >(error),
        },
{
    match article {
        Some(Article { heading: Some(heading), paragraph: Some(paragraph) }) => Ok(
            Definition { title: trim(heading.as_str()), text: trim(paragraph.as_str()) },
        ),
        _ => Err(ProgramError::Parse),
    }
}

/// The text of the first element below `node` with the tag name `name`.
pub open spec fn first_text_below(node: Node, name: Seq<char>) -> Option<Seq<char>> {
    let found = named_below(node, name);
    if found.len() == 0 {
        None
    } else {
        Some(text_of(found.first()))
    }
}

/// What the extractor reads of `document`: first heading and first paragraph
/// of its first `article` element. `None` where it has no such element.
pub open spec fn article_in(document: &Document) -> Option<ArticleView> {
    let articles = nodes_named(document, "article"@);
    if articles.len() == 0 {
        None
    } else {
        Some(
            ArticleView {
                heading: first_text_below(articles.first(), "h1"@),
                paragraph: first_text_below(articles.first(), "p"@),
            },
        )
    }
}

/// The definition that `document` gives, read as an entry page.
pub open spec fn definition_in(document: &Document) -> Result<DefinitionView, ProgramError> {
    definition_of(article_in(document))
}

/// Reads the text of the first element below `node` with the tag name `name`.
fn read_first_below(node: Node, name: &str) -> (text: Option<String>)
    ensures
        text_view(text) == first_text_below(node, name@),
{
    let found = find_below(node, name);
    if found.len() == 0 {
        None
    } else {
        Some(node_text(found[0]))
    }
}

/// Reads the article of `page`, or `None` where the page has none.
pub fn read_article(page: &Page) -> (article: Option<Article>)
    ensures
        article_view(article) == article_in(&page.document()),
{
    let articles = page.named("article");
    if articles.len() == 0 {
        None
    } else {
        let heading = read_first_below(articles[0], "h1");
        let paragraph = read_first_below(articles[0], "p");
        Some(Article { heading, paragraph })
    }
}

/// Extracts the definition from an entry page.
pub fn extract_definition(page: &Page) -> (extracted: Result<Definition, ProgramError>)
    ensures
        match extracted {
            Ok(definition) => definition_in(&page.document()) == Ok::<
                DefinitionView,
                ProgramError,
            >(definition@),
            Err(error) => definition_in(&page.document()) == Err::<DefinitionView, ProgramError>(
                error,
            ),
        },
{
    let article = read_article(page);
    definition_from(&article)
}

} // verus!
