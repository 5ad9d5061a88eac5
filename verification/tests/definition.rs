use glossary_lookup::definition::{definition_from, extract_definition, read_article, Article, Definition};
use glossary_lookup::error::ProgramError;
use glossary_lookup::page::Page;

fn parse_entry(html: &str) -> Page {
    Page::parse(html).unwrap()
}

fn definition(title: &str, text: &str) -> Definition {
    Definition { title: title.to_string(), text: text.to_string() }
}

#[test]
fn heading_and_paragraph_are_trimmed() {
    let page = parse_entry("<article><h1> Stress </h1><p>\n  A response to demand.\n</p></article>");
    assert_eq!(extract_definition(&page), Ok(definition("Stress", "A response to demand.")));
}

#[test]
fn first_heading_and_first_paragraph_are_taken() {
    let page = parse_entry(
        "<p>before</p>\
         <article><div><h1>First</h1></div><h1>Second</h1><p>one <i>and</i> two</p><p>three</p></article>\
         <article><h1>Other</h1><p>other</p></article>",
    );
    assert_eq!(extract_definition(&page), Ok(definition("First", "one and two")));
}

#[test]
fn empty_elements_are_valid() {
    let page = parse_entry("<article><h1></h1><p>   </p><p>later</p></article>");
    assert_eq!(extract_definition(&page), Ok(definition("", "")));
}

#[test]
fn page_without_article_is_a_parse_error() {
    let page = parse_entry("<div><h1>Stress</h1><p>text</p></div>");
    assert_eq!(read_article(&page), None);
    assert_eq!(extract_definition(&page), Err(ProgramError::Parse));
    assert_eq!(definition_from(&None), Err(ProgramError::Parse));
}

#[test]
fn article_without_heading_is_a_parse_error() {
    let page = parse_entry("<article><h2>Stress</h2><p>text</p></article>");
    assert_eq!(read_article(&page), Some(Article { heading: None, paragraph: Some("text".to_string()) }));
    assert_eq!(extract_definition(&page), Err(ProgramError::Parse));
}

#[test]
fn article_without_paragraph_is_a_parse_error() {
    let page = parse_entry("<article><h1>Stress</h1><div>text</div></article>");
    assert_eq!(extract_definition(&page), Err(ProgramError::Parse));
    let article = Some(Article { heading: Some("Stress".to_string()), paragraph: None });
    assert_eq!(definition_from(&article), Err(ProgramError::Parse));
}

#[test]
fn definition_from_trims_what_was_read() {
    let article = Some(Article { heading: Some("\tBias\n".to_string()), paragraph: Some(" A  lean. ".to_string()) });
    assert_eq!(definition_from(&article), Ok(definition("Bias", "A  lean.")));
}
