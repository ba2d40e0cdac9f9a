//! The whole pipeline: text to tokens, tokens to a syntax tree, the tree to
//! HTML.

use crate::parsers::{
    body_rule, is_body, lemma_body_needs_paragraph, paragraph_rule, BodyParser, NodeView, Parser,
};
use crate::tokenizer::{token_stream, Tokenizer};
use crate::visitors::{render_body, renders_as_body, BaseVisitor, Visitor};
use vstd::prelude::*;

verus! {

/// The syntax tree of a document, where it has one.
pub open spec fn document(text: Seq<char>) -> Option<NodeView> {
    body_rule(token_stream(text)).node
}

/// The HTML of a document, where it has a syntax tree.
pub open spec fn html_of(text: Seq<char>) -> Option<Seq<char>> {
    match document(text) {
        Some(body) => Some(render_body(body)),
        None => None,
    }
}

/// A well-formed body can be rendered.
pub proof fn lemma_body_renders(node: NodeView)
    requires
        is_body(node),
    ensures
        renders_as_body(node),
{
}

/// A document has HTML exactly where a paragraph can be read at its start.
pub proof fn lemma_html_needs_paragraph(text: Seq<char>)
    ensures
        html_of(text) is Some <==> paragraph_rule(token_stream(text)).node is Some,
{
    lemma_body_needs_paragraph(token_stream(text));
}

/// Compiling is a function of the text: two runs on the same document end
/// alike, and where they give HTML it is the same, character by character.
pub proof fn lemma_compile_deterministic(
    text: Seq<char>,
    first: Option<String>,
    second: Option<String>,
)
    requires
        first.deep_view() == html_of(text),
        second.deep_view() == html_of(text),
    ensures
        first is Some <==> second is Some,
        first is Some ==> first.unwrap()@ == second.unwrap()@,
{
}

/// The compiler from markdown to HTML.
pub struct Markdown;

impl Markdown {
    /// Compiles a document that has a syntax tree. Where it may have none,
    /// `try_parse` is the function to call.
    pub fn parse(markdown: &str) -> (html: String)
        requires
            html_of(markdown@) is Some,
        ensures
            Some(html@) == html_of(markdown@),
    {
        Self::try_parse(markdown).unwrap()
    }

    /// Compiles a document, or finds that it has no syntax tree.
    pub fn try_parse(markdown: &str) -> (html: Option<String>)
        ensures
            html.deep_view() == html_of(markdown@),
    {
        let mut tokens = Tokenizer::tokenize(markdown);
        match BodyParser::match_tokens(&mut tokens) {
            Some(node) => {
                proof {
                    lemma_body_renders(node@);
                }
                Some(Visitor::visit(node))
            },
            None => None,
        }
    }
}

} // verus!
