//! The syntax tree and the grammar: rules that each consume tokens from the
//! front of a sequence and produce a node.

use crate::tokenizer::{Token, TokenType, TokenView};
use vstd::prelude::*;

verus! {

/// The kind of a syntax-tree node.
#[derive(Clone, Copy, Debug, PartialEq, Eq, Structural)]
pub enum NodeType {
    Text,
    Emphasize,
    Bold,
    Paragraph,
    Body,
}

/// The mathematical value of a syntax tree.
pub struct NodeView {
    pub kind: NodeType,
    pub value: Seq<char>,
    pub children: Seq<NodeView>,
}

/// An element of the syntax tree. Sentences keep their text in `value` and
/// have no children; paragraphs and bodies keep their parts in `children`.
pub struct Node {
    pub type_: NodeType,
    pub value: String,
    pub children: Vec<Node>,
}

/// The value of a node: its kind, its text, and the values of its children.
pub open spec fn node_view(node: Node) -> NodeView
    decreases node,
{
    NodeView {
        kind: node.type_,
        value: node.value@,
        children: Seq::new(
            node.children@.len(),
            |i: int|
                if 0 <= i < node.children@.len() {
                    node_view(node.children@[i])
                } else {
                    arbitrary()
                },
        ),
    }
}

impl View for Node {
    type V = NodeView;

    open spec fn view(&self) -> NodeView {
        node_view(*self)
    }
}

impl Node {
    /// A node of the given kind and text, without children.
    pub fn new(type_: NodeType, value: String) -> (node: Node)
        ensures
            node@ == (NodeView { kind: type_, value: value@, children: Seq::empty() }),
    {
        let node = Node { type_, value, children: Vec::new() };
        assert(node@.children =~= Seq::empty());
        node
    }

    /// A paragraph without sentences.
    pub fn new_paragraph() -> (node: Node)
        ensures
            node@ == paragraph_of(Seq::empty()),
    {
        Self::new(NodeType::Paragraph, String::new())
    }

    /// A body without paragraphs.
    pub fn new_body() -> (node: Node)
        ensures
            node@ == body_of(Seq::empty()),
    {
        Self::new(NodeType::Body, String::new())
    }
}

impl DeepView for Node {
    type V = NodeView;

    open spec fn deep_view(&self) -> NodeView {
        self@
    }
}

/// Whether a node of this kind is a sentence: text, emphasis or bold.
pub open spec fn is_sentence_kind(kind: NodeType) -> bool {
    kind == NodeType::Text || kind == NodeType::Emphasize || kind == NodeType::Bold
}

/// A well-formed sentence: a node of a sentence kind, without children.
pub open spec fn is_sentence(node: NodeView) -> bool {
    is_sentence_kind(node.kind) && node.children.len() == 0
}

/// A well-formed paragraph: it carries no text of its own, and its
/// children are sentences.
pub open spec fn is_paragraph(node: NodeView) -> bool {
    &&& node.kind == NodeType::Paragraph
    &&& node.value.len() == 0
    &&& forall|i: int| 0 <= i < node.children.len() ==> is_sentence(#[trigger] node.children[i])
}

/// A well-formed body: it carries no text of its own, and its children are
/// paragraphs.
pub open spec fn is_body(node: NodeView) -> bool {
    &&& node.kind == NodeType::Body
    &&& node.value.len() == 0
    &&& forall|i: int| 0 <= i < node.children.len() ==> is_paragraph(#[trigger] node.children[i])
}

/// A node without children.
pub open spec fn leaf(kind: NodeType, value: Seq<char>) -> NodeView {
    NodeView { kind, value, children: Seq::empty() }
}

/// Whether a token can open or close an inline style.
pub open spec fn is_delimiter(token: TokenView) -> bool {
    token.kind == TokenType::Underscore || token.kind == TokenType::Star
}

/// What a grammar rule makes of a token sequence: the node it produced, if it
/// matched, and the tokens that are left afterwards.
pub struct Outcome {
    pub node: Option<NodeView>,
    pub rest: Seq<TokenView>,
}

/// A rule that matched `count` tokens at the front and produced `node`.
pub open spec fn matched(tokens: Seq<TokenView>, node: NodeView, count: int) -> Outcome {
    Outcome { node: Some(node), rest: tokens.skip(count) }
}

/// A rule that did not match and consumed nothing.
pub open spec fn unmatched(tokens: Seq<TokenView>) -> Outcome {
    Outcome { node: None, rest: tokens }
}

/// Plain text: one `Text` token.
pub open spec fn text_rule(tokens: Seq<TokenView>) -> Outcome {
    if tokens.len() >= 1 && tokens[0].kind == TokenType::Text {
        matched(tokens, leaf(NodeType::Text, tokens[0].text), 1)
    } else {
        unmatched(tokens)
    }
}

/// Emphasis: a delimiter, a `Text` token and a delimiter. The two delimiters
/// need not be of the same kind.
pub open spec fn emphasize_rule(tokens: Seq<TokenView>) -> Outcome {
    if tokens.len() >= 3 && is_delimiter(tokens[0]) && tokens[1].kind == TokenType::Text
        && is_delimiter(tokens[2]) {
        matched(tokens, leaf(NodeType::Emphasize, tokens[1].text), 3)
    } else {
        unmatched(tokens)
    }
}

/// Bold: two delimiters, a `Text` token and two delimiters. The four
/// delimiters need not be of the same kind.
pub open spec fn bold_rule(tokens: Seq<TokenView>) -> Outcome {
    if tokens.len() >= 5 && is_delimiter(tokens[0]) && is_delimiter(tokens[1])
        && tokens[2].kind == TokenType::Text && is_delimiter(tokens[3]) && is_delimiter(
        tokens[4],
    ) {
        matched(tokens, leaf(NodeType::Bold, tokens[2].text), 5)
    } else {
        unmatched(tokens)
    }
}

/// A sentence: emphasis, else bold, else plain text.
pub open spec fn sentence_rule(tokens: Seq<TokenView>) -> Outcome {
    if emphasize_rule(tokens).node is Some {
        emphasize_rule(tokens)
    } else if bold_rule(tokens).node is Some {
        bold_rule(tokens)
    } else {
        text_rule(tokens)
    }
}

/// What applying a rule again and again makes of a token sequence: the nodes
/// it produced, in order, and the tokens that are left afterwards.
pub struct Run {
    pub nodes: Seq<NodeView>,
    pub rest: Seq<TokenView>,
}

/// The sentences that can be read one after another from the front of
/// `tokens`, and the tokens that follow the last of them.
pub open spec fn sentences(tokens: Seq<TokenView>) -> Run
    decreases tokens.len(),
{
    let first = sentence_rule(tokens);
    match first.node {
        Some(node) => {
            let more = sentences(first.rest);
            Run { nodes: seq![node] + more.nodes, rest: more.rest }
        },
        None => Run { nodes: Seq::empty(), rest: tokens },
    }
}

/// A paragraph node with the given sentences.
pub open spec fn paragraph_of(children: Seq<NodeView>) -> NodeView {
    NodeView { kind: NodeType::Paragraph, value: Seq::empty(), children }
}

/// A paragraph: a run of sentences, possibly empty, closed by the end of the
/// input, by a blank line, or by a newline at the end of the input. The
/// tokens that close it are consumed with it.
///
/// The rule does not backtrack: where the sentences are not followed by one
/// of these, be it that the tokens run out, it fails and the sentences stay
/// consumed. On no tokens at all it fails.
pub open spec fn paragraph_rule(tokens: Seq<TokenView>) -> Outcome {
    if tokens.len() == 0 {
        unmatched(tokens)
    } else {
        let run = sentences(tokens);
        let rest = run.rest;
        if rest.len() >= 1 && rest[0].kind == TokenType::Eof {
            matched(rest, paragraph_of(run.nodes), 1)
        } else if rest.len() >= 2 && rest[0].kind == TokenType::Newline && (rest[1].kind
            == TokenType::Newline || rest[1].kind == TokenType::Eof) {
            matched(rest, paragraph_of(run.nodes), 2)
        } else {
            unmatched(rest)
        }
    }
}

/// The paragraphs that can be read one after another from the front of
/// `tokens`, and the tokens left by the attempt that failed.
pub open spec fn paragraphs(tokens: Seq<TokenView>) -> Run
    decreases tokens.len(),
    via paragraphs_terminates
{
    let first = paragraph_rule(tokens);
    match first.node {
        Some(node) => {
            let more = paragraphs(first.rest);
            Run { nodes: seq![node] + more.nodes, rest: more.rest }
        },
        None => Run { nodes: Seq::empty(), rest: first.rest },
    }
}

#[via_fn]
proof fn paragraphs_terminates(tokens: Seq<TokenView>) {
    lemma_paragraph_consumes(tokens);
}

/// A body node with the given paragraphs.
pub open spec fn body_of(children: Seq<NodeView>) -> NodeView {
    NodeView { kind: NodeType::Body, value: Seq::empty(), children }
}

/// A whole document: one paragraph or more, as many as can be read.
///
/// Whether it matches or not, the tokens are left as the last attempt at a
/// paragraph, the one that failed, left them.
pub open spec fn body_rule(tokens: Seq<TokenView>) -> Outcome {
    if tokens.len() == 0 {
        unmatched(tokens)
    } else {
        let run = paragraphs(tokens);
        if run.nodes.len() > 0 {
            Outcome { node: Some(body_of(run.nodes)), rest: run.rest }
        } else {
            unmatched(run.rest)
        }
    }
}

/// Whether `rest` is what is left of `tokens` once some are taken from the
/// front.
pub open spec fn is_rest_of(rest: Seq<TokenView>, tokens: Seq<TokenView>) -> bool {
    rest.len() <= tokens.len() && rest == tokens.skip(tokens.len() - rest.len())
}

/// A sentence that matches consumes at least one token from the front; one
/// that does not match consumes none.
pub proof fn lemma_sentence_consumes(tokens: Seq<TokenView>)
    ensures
        is_rest_of(sentence_rule(tokens).rest, tokens),
        sentence_rule(tokens).node is Some ==> sentence_rule(tokens).rest.len() < tokens.len(),
        sentence_rule(tokens).node is None ==> sentence_rule(tokens).rest == tokens,
{
    assert(tokens.skip(0) =~= tokens);
}

/// Reading sentences consumes tokens from the front, and it stops where no
/// sentence starts.
pub proof fn lemma_sentences_consume(tokens: Seq<TokenView>)
    ensures
        is_rest_of(sentences(tokens).rest, tokens),
        sentence_rule(sentences(tokens).rest).node is None,
    decreases tokens.len(),
{
    let first = sentence_rule(tokens);
    lemma_sentence_consumes(tokens);
    if first.node is Some {
        lemma_sentences_consume(first.rest);
        lemma_rest_of_rest(sentences(tokens).rest, first.rest, tokens);
    }
}

/// What is left of what is left is left.
pub proof fn lemma_rest_of_rest(
    inner: Seq<TokenView>,
    middle: Seq<TokenView>,
    tokens: Seq<TokenView>,
)
    requires
        is_rest_of(inner, middle),
        is_rest_of(middle, tokens),
    ensures
        is_rest_of(inner, tokens),
{
    assert(inner =~= tokens.skip(tokens.len() - inner.len()));
}

/// A paragraph consumes tokens from the front, whether it matches or not,
/// and at least one where it matches.
pub proof fn lemma_paragraph_consumes(tokens: Seq<TokenView>)
    ensures
        is_rest_of(paragraph_rule(tokens).rest, tokens),
        paragraph_rule(tokens).node is Some ==> paragraph_rule(tokens).rest.len() < tokens.len(),
{
    assert(tokens.skip(0) =~= tokens);
    let read = sentences(tokens).rest;
    lemma_sentences_consume(tokens);
    if paragraph_rule(tokens).rest != read {
        lemma_rest_of_rest(paragraph_rule(tokens).rest, read, tokens);
    }
}

/// Reading paragraphs consumes tokens from the front.
pub proof fn lemma_paragraphs_consume(tokens: Seq<TokenView>)
    ensures
        is_rest_of(paragraphs(tokens).rest, tokens),
    decreases tokens.len(),
{
    let first = paragraph_rule(tokens);
    lemma_paragraph_consumes(tokens);
    if first.node is Some {
        lemma_paragraphs_consume(first.rest);
        lemma_rest_of_rest(paragraphs(tokens).rest, first.rest, tokens);
    }
}

/// A body consumes tokens from the front, and at least one where it matches.
pub proof fn lemma_body_consumes(tokens: Seq<TokenView>)
    ensures
        is_rest_of(body_rule(tokens).rest, tokens),
        body_rule(tokens).node is Some ==> body_rule(tokens).rest.len() < tokens.len(),
{
    assert(tokens.skip(0) =~= tokens);
    lemma_paragraphs_consume(tokens);
    let first = paragraph_rule(tokens);
    lemma_paragraph_consumes(tokens);
    if first.node is Some {
        lemma_paragraphs_consume(first.rest);
    }
}

/// A sentence that matches is well formed.
pub proof fn lemma_sentence_shape(tokens: Seq<TokenView>)
    ensures
        sentence_rule(tokens).node matches Some(node) ==> is_sentence(node),
{
}

/// Every sentence of a run is well formed.
pub proof fn lemma_sentences_shape(tokens: Seq<TokenView>)
    ensures
        forall|i: int|
            0 <= i < sentences(tokens).nodes.len() ==> is_sentence(
                #[trigger] sentences(tokens).nodes[i],
            ),
    decreases tokens.len(),
{
    let first = sentence_rule(tokens);
    if first.node is Some {
        lemma_sentences_shape(first.rest);
        assert forall|i: int| 0 <= i < sentences(tokens).nodes.len() implies is_sentence(
            #[trigger] sentences(tokens).nodes[i],
        ) by {
            if i > 0 {
                assert(sentences(tokens).nodes[i] == sentences(first.rest).nodes[i - 1]);
            }
        }
    }
}

/// A paragraph that matches is well formed.
pub proof fn lemma_paragraph_shape(tokens: Seq<TokenView>)
    ensures
        paragraph_rule(tokens).node matches Some(node) ==> is_paragraph(node),
{
    lemma_sentences_shape(tokens);
}

/// Every paragraph of a run is well formed.
pub proof fn lemma_paragraphs_shape(tokens: Seq<TokenView>)
    ensures
        forall|i: int|
            0 <= i < paragraphs(tokens).nodes.len() ==> is_paragraph(
                #[trigger] paragraphs(tokens).nodes[i],
            ),
    decreases tokens.len(),
{
    let first = paragraph_rule(tokens);
    lemma_paragraph_consumes(tokens);
    lemma_paragraph_shape(tokens);
    if first.node is Some {
        lemma_paragraphs_shape(first.rest);
        assert forall|i: int| 0 <= i < paragraphs(tokens).nodes.len() implies is_paragraph(
            #[trigger] paragraphs(tokens).nodes[i],
        ) by {
            if i > 0 {
                assert(paragraphs(tokens).nodes[i] == paragraphs(first.rest).nodes[i - 1]);
            }
        }
    }
}

/// A body that matches is well formed and has a paragraph.
pub proof fn lemma_body_shape(tokens: Seq<TokenView>)
    ensures
        body_rule(tokens).node matches Some(node) ==> is_body(node) && node.children.len() > 0,
{
    lemma_paragraphs_shape(tokens);
}

/// A body matches exactly where a first paragraph does.
pub proof fn lemma_body_needs_paragraph(tokens: Seq<TokenView>)
    ensures
        body_rule(tokens).node is Some <==> paragraph_rule(tokens).node is Some,
{
    lemma_paragraph_consumes(tokens);
}

/// A grammar rule: it consumes a prefix of the token sequence and produces a node.
pub trait Parser {
    /// The rule itself, on the values of the tokens.
    spec fn parsed(tokens: Seq<TokenView>) -> Outcome;

    /// Applies the rule to the front of `tokens`, removing what it consumes.
    fn match_tokens(tokens: &mut Vec<Token>) -> (result: Option<Node>)
        ensures
            result.deep_view() == Self::parsed(old(tokens).deep_view()).node,
            final(tokens).deep_view() == Self::parsed(old(tokens).deep_view()).rest,
    ;
}

/// Removes the first `count` tokens.
fn discard_front(tokens: &mut Vec<Token>, count: usize)
    requires
        count <= old(tokens).len(),
    ensures
        final(tokens)@ == old(tokens)@.skip(count as int),
        final(tokens).deep_view() == old(tokens).deep_view().skip(count as int),
{
    let rest = tokens.split_off(count);
    *tokens = rest;
}

/// Whether the token at `index` is an underscore or a star.
fn delimiter_at(tokens: &Vec<Token>, index: usize) -> (yes: bool)
    requires
        index < tokens.len(),
    ensures
        yes == is_delimiter(tokens.deep_view()[index as int]),
{
    tokens[index].type_ == TokenType::Underscore || tokens[index].type_ == TokenType::Star
}

/// Whether the token at `index` is text.
fn text_at(tokens: &Vec<Token>, index: usize) -> (yes: bool)
    requires
        index < tokens.len(),
    ensures
        yes == (tokens.deep_view()[index as int].kind == TokenType::Text),
{
    tokens[index].type_ == TokenType::Text
}

/// The rule for plain text.
pub struct TextParser;

/// The rule for emphasis.
pub struct EmphasizeParser;

/// The rule for bold.
pub struct BoldParser;

/// The rule for sentences: the first of emphasis, bold and plain text that
/// matches.
pub struct SentenceParser;

/// The rule for paragraphs.
pub struct ParagraphParser;

/// The rule for whole documents.
pub struct BodyParser;

impl Parser for TextParser {
    open spec fn parsed(tokens: Seq<TokenView>) -> Outcome {
        text_rule(tokens)
    }

    fn match_tokens(tokens: &mut Vec<Token>) -> (result: Option<Node>)
        ensures
            result matches Some(node) ==> is_sentence(node@),
    {
        if tokens.is_empty() {
            return None;
        }
        if tokens[0].type_ == TokenType::Text {
            let first = tokens.remove(0);
            Some(Node::new(NodeType::Text, first.value))
        } else {
            None
        }
    }
}

impl Parser for EmphasizeParser {
    open spec fn parsed(tokens: Seq<TokenView>) -> Outcome {
        emphasize_rule(tokens)
    }

    fn match_tokens(tokens: &mut Vec<Token>) -> (result: Option<Node>)
        ensures
            result matches Some(node) ==> is_sentence(node@),
    {
        if tokens.len() < 3 {
            return None;
        }
        if !(delimiter_at(tokens, 0) && text_at(tokens, 1) && delimiter_at(tokens, 2)) {
            return None;
        }
        let value = tokens[1].value.clone();
        discard_front(tokens, 3);
        Some(Node::new(NodeType::Emphasize, value))
    }
}

impl Parser for BoldParser {
    open spec fn parsed(tokens: Seq<TokenView>) -> Outcome {
        bold_rule(tokens)
    }

    fn match_tokens(tokens: &mut Vec<Token>) -> (result: Option<Node>)
        ensures
            result matches Some(node) ==> is_sentence(node@),
    {
        if tokens.len() < 5 {
            return None;
        }
        if !(delimiter_at(tokens, 0) && delimiter_at(tokens, 1) && text_at(tokens, 2)
            && delimiter_at(tokens, 3) && delimiter_at(tokens, 4)) {
            return None;
        }
        let value = tokens[2].value.clone();
        discard_front(tokens, 5);
        Some(Node::new(NodeType::Bold, value))
    }
}

impl Parser for SentenceParser {
    open spec fn parsed(tokens: Seq<TokenView>) -> Outcome {
        sentence_rule(tokens)
    }

    fn match_tokens(tokens: &mut Vec<Token>) -> (result: Option<Node>)
        ensures
            result matches Some(node) ==> is_sentence(node@),
    {
        if let Some(node) = EmphasizeParser::match_tokens(tokens) {
            return Some(node);
        }
        if let Some(node) = BoldParser::match_tokens(tokens) {
            return Some(node);
        }
        TextParser::match_tokens(tokens)
    }
}

impl Parser for ParagraphParser {
    open spec fn parsed(tokens: Seq<TokenView>) -> Outcome {
        paragraph_rule(tokens)
    }

    fn match_tokens(tokens: &mut Vec<Token>) -> (result: Option<Node>)
        ensures
            result matches Some(node) ==> is_paragraph(node@),
    {
        proof {
            lemma_paragraph_shape(tokens.deep_view());
        }
        if tokens.is_empty() {
            return None;
        }
        let ghost start = tokens.deep_view();
        let mut paragraph = Node::new_paragraph();
        loop
            invariant
                paragraph@.kind == NodeType::Paragraph,
                paragraph@.value == Seq::<char>::empty(),
                sentences(start).nodes == paragraph@.children + sentences(tokens.deep_view()).nodes,
                sentences(start).rest == sentences(tokens.deep_view()).rest,
            ensures
                sentence_rule(tokens.deep_view()).node is None,
            decreases tokens.len(),
        {
            let ghost before = tokens.deep_view();
            match SentenceParser::match_tokens(tokens) {
                Some(node) => {
                    paragraph.children.push(node);
                    proof {
                        lemma_sentence_consumes(before);
                        assert(sentences(start).nodes =~= paragraph@.children + sentences(
                            tokens.deep_view(),
                        ).nodes);
                    }
                },
                None => {
                    break ;
                },
            }
        }
        assert(paragraph@ == paragraph_of(sentences(start).nodes));
        if tokens.len() >= 1 && tokens[0].type_ == TokenType::Eof {
            discard_front(tokens, 1);
            return Some(paragraph);
        }
        if tokens.len() >= 2 && tokens[0].type_ == TokenType::Newline && (tokens[1].type_
            == TokenType::Newline || tokens[1].type_ == TokenType::Eof) {
            discard_front(tokens, 2);
            return Some(paragraph);
        }
        None
    }
}

impl Parser for BodyParser {
    open spec fn parsed(tokens: Seq<TokenView>) -> Outcome {
        body_rule(tokens)
    }

    fn match_tokens(tokens: &mut Vec<Token>) -> (result: Option<Node>)
        ensures
            result matches Some(node) ==> is_body(node@) && node@.children.len() > 0,
    {
        proof {
            lemma_body_shape(tokens.deep_view());
        }
        if tokens.is_empty() {
            return None;
        }
        let ghost start = tokens.deep_view();
        let mut body = Node::new_body();
        loop
            invariant_except_break
                paragraphs(start).nodes == body@.children + paragraphs(tokens.deep_view()).nodes,
                paragraphs(start).rest == paragraphs(tokens.deep_view()).rest,
            invariant
                body@.kind == NodeType::Body,
                body@.value == Seq::<char>::empty(),
            ensures
                paragraphs(start).nodes == body@.children,
                paragraphs(start).rest == tokens.deep_view(),
            decreases tokens.len(),
        {
            let ghost before = tokens.deep_view();
            match ParagraphParser::match_tokens(tokens) {
                Some(node) => {
                    body.children.push(node);
                    proof {
                        lemma_paragraph_consumes(before);
                        assert(paragraphs(start).nodes =~= body@.children + paragraphs(
                            tokens.deep_view(),
                        ).nodes);
                    }
                },
                None => {
                    break ;
                },
            }
        }
        if !body.children.is_empty() {
            Some(body)
        } else {
            None
        }
    }
}

} // verus!
