//! A tokenizer for a small markup dialect: headings, paragraphs, emphasis and hard line
//! breaks, scanned in one pass from a text into a tree of tokens.
use vstd::prelude::*;

pub mod pattern;
pub mod reader;
pub mod text;
pub mod tokenizer;

verus! {

/// The rendering of a document. Rendering is not written yet: whatever the document, the
/// result is one fixed heading.
pub fn parse(contents: String) -> (html: String)
    ensures
        html@ == "<h1>Some content</h1>"@,
{
    "<h1>Some content</h1>".to_string()
}

} // verus!
