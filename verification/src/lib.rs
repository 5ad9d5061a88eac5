//! Looks terms up in an online glossary and walks a list of terms, one term at
//! a time.
//!
//! The library decides and computes; it reads no file, fetches no page and
//! prints nothing. A program that uses it hands it what it has read and does
//! the work that the library asks for:
//!
//! - [`arguments`] reads the words of the command line;
//! - [`page`] parses the body of a response into a page, with the `select`
//!   crate;
//! - [`links`] extracts the candidate links from a page of search results;
//! - [`definition`] extracts the definition from the page of a glossary entry;
//! - [`resolver`] says which pages to fetch for a term, and ends with the
//!   definitions of the term or with the first error;
//! - [`walk`] goes through the terms of a file from a start position on, and
//!   says what is to be displayed, fetched and asked of the operator;
//! - [`course`] states how a whole walk ends;
//! - [`text`] holds the operations on text that the others use;
//! - [`error`] names the ways in which all of this can fail.

pub mod arguments;
pub mod course;
pub mod definition;
pub mod error;
pub mod links;
pub mod page;
pub mod resolver;
pub mod text;
pub mod walk;
