use glossary_lookup::error::ProgramError;
use glossary_lookup::links::{collect_links, extract_links, links_from, read_results, Anchor, DefinitionLink};
use glossary_lookup::page::Page;
use glossary_lookup::resolver::choose_links;

fn parse_results(html: &str) -> Page {
    Page::parse(html).unwrap()
}

fn anchor(title: &str, href: Option<&str>) -> Anchor {
    Anchor { title: title.to_string(), href: href.map(|h| h.to_string()) }
}

fn link(title: &str, href: &str) -> DefinitionLink {
    DefinitionLink { title: title.to_string(), href: href.to_string() }
}

#[test]
fn page_without_results_container_is_a_parse_error() {
    let page = parse_results("<html><body><div class=\"other\"><a href=\"/x\">X Glossary</a></div></body></html>");
    assert_eq!(read_results(&page), None);
    assert_eq!(extract_links(&page), Err(ProgramError::Parse));
    assert_eq!(extract_links(&parse_results("")), Err(ProgramError::Parse));
    assert_eq!(links_from(&None), Err(ProgramError::Parse));
}

#[test]
fn empty_results_container_gives_no_links() {
    let page = parse_results("<div class=\"results\"><p>nothing found</p></div>");
    assert_eq!(extract_links(&page), Ok(vec![]));
    assert_eq!(links_from(&Some(vec![])), Ok(vec![]));
}

#[test]
fn links_come_in_document_order() {
    let page = parse_results(
        "<div class=\"results\">\
           <ul><li><a href=\"/one\">One</a></li><li><a href=\"/two\">Two <b>bold</b></a></li></ul>\
           <a href=\"/three\">Three</a>\
         </div>\
         <a href=\"/outside\">Outside</a>",
    );
    assert_eq!(
        extract_links(&page),
        Ok(vec![link("One", "/one"), link("Two bold", "/two"), link("Three", "/three")])
    );
}

#[test]
fn container_is_found_among_several_classes() {
    let page = parse_results("<div class=\"wide results box\"><a href=\"/a\">A</a></div>");
    assert_eq!(extract_links(&page), Ok(vec![link("A", "/a")]));
}

#[test]
fn only_the_first_results_container_is_read() {
    let page = parse_results(
        "<div class=\"results\"><a href=\"/a\">A</a></div><div class=\"results\"><a href=\"/b\">B</a></div>",
    );
    assert_eq!(extract_links(&page), Ok(vec![link("A", "/a")]));
}

#[test]
fn nothing_after_the_closing_prompt_is_a_link() {
    let page = parse_results(
        "<div class=\"results\">\
           <a href=\"/a\">Anxiety Glossary Definition</a>\
           <a href=\"/suggest\">are we missing a definition?</a>\
           <a href=\"/b\">Anxiety Blog Post</a>\
           <a href=\"/c\">Another Glossary Entry</a>\
         </div>",
    );
    assert_eq!(extract_links(&page), Ok(vec![link("Anxiety Glossary Definition", "/a")]));
}

#[test]
fn only_the_anchor_before_the_closing_prompt_is_a_link() {
    let page = parse_results(
        "<html><body><div class=\"results\">\
           <a href=\"/anxiety\">Anxiety Glossary Definition</a>\
           <a href=\"/suggest\">are we missing a definition?</a>\
           <a href=\"/blog\">Anxiety Blog Post</a>\
         </div></body></html>",
    );
    let links = extract_links(&page).unwrap();
    assert_eq!(links, vec![link("Anxiety Glossary Definition", "/anxiety")]);
    assert_eq!(choose_links(&links), vec![link("Anxiety Glossary Definition", "/anxiety")]);
}

#[test]
fn closing_prompt_first_gives_no_links() {
    let anchors = vec![anchor("are we missing", Some("/s")), anchor("A", Some("/a"))];
    assert_eq!(collect_links(&anchors), vec![]);
}

#[test]
fn closing_prompt_must_stand_at_the_start_of_the_title() {
    let anchors = vec![
        anchor("Are we missing", Some("/1")),
        anchor(" are we missing", Some("/2")),
        anchor("so, are we missing?", Some("/3")),
    ];
    assert_eq!(
        collect_links(&anchors),
        vec![link("Are we missing", "/1"), link(" are we missing", "/2"), link("so, are we missing?", "/3")]
    );
}

#[test]
fn anchor_without_href_is_passed_over() {
    let page = parse_results(
        "<div class=\"results\">\
           <a href=\"/a\">A</a><a name=\"mark\">No address</a><a href=\"\">Empty address</a><a href=\"/b\">B</a>\
         </div>",
    );
    assert_eq!(
        extract_links(&page),
        Ok(vec![link("A", "/a"), link("Empty address", ""), link("B", "/b")])
    );
    let with = vec![anchor("A", Some("/a")), anchor("N", None), anchor("B", Some("/b"))];
    let without = vec![anchor("A", Some("/a")), anchor("B", Some("/b"))];
    assert_eq!(collect_links(&with), collect_links(&without));
}

#[test]
fn closing_prompt_without_href_still_closes() {
    let anchors = vec![anchor("A", Some("/a")), anchor("are we missing it?", None), anchor("B", Some("/b"))];
    assert_eq!(collect_links(&anchors), vec![link("A", "/a")]);
}

#[test]
fn read_results_keeps_every_anchor() {
    let page = parse_results(
        "<div class=\"results\"><a href=\"/a\"> A </a><a>are we missing</a><a href=\"/b\">B</a></div>",
    );
    assert_eq!(
        read_results(&page),
        Some(vec![anchor(" A ", Some("/a")), anchor("are we missing", None), anchor("B", Some("/b"))])
    );
}
