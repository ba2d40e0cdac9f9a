//! Rendering of the syntax tree as HTML.

use crate::parsers::{is_sentence_kind, Node, NodeType, NodeView};
use vstd::prelude::*;
use vstd::string::StringExecFns;

verus! {

/// A paragraph that can be rendered: its children are of the sentence kinds.
pub open spec fn renders_as_paragraph(node: NodeView) -> bool {
    &&& node.kind == NodeType::Paragraph
    &&& forall|i: int|
        0 <= i < node.children.len() ==> is_sentence_kind(#[trigger] node.children[i].kind)
}

/// A body that can be rendered: its children are paragraphs that can be.
pub open spec fn renders_as_body(node: NodeView) -> bool {
    &&& node.kind == NodeType::Body
    &&& forall|i: int|
        0 <= i < node.children.len() ==> renders_as_paragraph(#[trigger] node.children[i])
}

/// Plain text is rendered as it is, with nothing escaped.
pub open spec fn render_text(node: NodeView) -> Seq<char> {
    node.value
}

/// Emphasis is rendered between `<em>` and `</em>`.
pub open spec fn render_emphasize(node: NodeView) -> Seq<char> {
    "<em>"@ + node.value + "</em>"@
}

/// Bold is rendered between `<strong>` and `</strong>`.
pub open spec fn render_bold(node: NodeView) -> Seq<char> {
    "<strong>"@ + node.value + "</strong>"@
}

/// The HTML of a sentence, by its kind.
pub open spec fn render_sentence(node: NodeView) -> Seq<char> {
    match node.kind {
        NodeType::Emphasize => render_emphasize(node),
        NodeType::Bold => render_bold(node),
        _ => render_text(node),
    }
}

/// The HTML of a run of sentences: one after another, with nothing between.
pub open spec fn render_sentences(nodes: Seq<NodeView>) -> Seq<char> {
    nodes.map_values(|node: NodeView| render_sentence(node)).flatten()
}

/// The HTML of a paragraph: its sentences between `<p>` and `</p>`.
pub open spec fn render_paragraph(node: NodeView) -> Seq<char> {
    "<p>"@ + render_sentences(node.children) + "</p>"@
}

/// The HTML of a run of paragraphs: one after another, with nothing between.
pub open spec fn render_paragraphs(nodes: Seq<NodeView>) -> Seq<char> {
    nodes.map_values(|node: NodeView| render_paragraph(node)).flatten()
}

/// The HTML of a document: its paragraphs, with nothing around them.
pub open spec fn render_body(node: NodeView) -> Seq<char> {
    render_paragraphs(node.children)
}

/// The HTML of the first `count + 1` sentences is that of the first `count`,
/// followed by that of the next one.
pub proof fn lemma_render_sentences_step(nodes: Seq<NodeView>, count: int)
    requires
        0 <= count < nodes.len(),
    ensures
        render_sentences(nodes.take(count + 1)) == render_sentences(nodes.take(count))
            + render_sentence(nodes[count]),
{
    let render = |node: NodeView| render_sentence(node);
    assert(nodes.take(count + 1).map_values(render) =~= nodes.take(count).map_values(render).push(
        render_sentence(nodes[count]),
    ));
    nodes.take(count).map_values(render).lemma_flatten_push(render_sentence(nodes[count]));
}

/// The HTML of the first `count + 1` paragraphs is that of the first `count`,
/// followed by that of the next one.
pub proof fn lemma_render_paragraphs_step(nodes: Seq<NodeView>, count: int)
    requires
        0 <= count < nodes.len(),
    ensures
        render_paragraphs(nodes.take(count + 1)) == render_paragraphs(nodes.take(count))
            + render_paragraph(nodes[count]),
{
    let render = |node: NodeView| render_paragraph(node);
    assert(nodes.take(count + 1).map_values(render) =~= nodes.take(count).map_values(render).push(
        render_paragraph(nodes[count]),
    ));
    nodes.take(count).map_values(render).lemma_flatten_push(render_paragraph(nodes[count]));
}

/// A renderer for one kind of node.
pub trait BaseVisitor {
    /// The nodes that the renderer is made for. It must be given no other.
    spec fn accepts(node: NodeView) -> bool;

    /// The HTML of a node that the renderer accepts.
    spec fn rendered(node: NodeView) -> Seq<char>;

    /// Renders `node`, children included.
    fn visit(node: Node) -> (html: String)
        requires
            Self::accepts(node@),
        ensures
            html@ == Self::rendered(node@),
    ;
}

/// The renderer of whole documents.
pub struct Visitor;

/// The renderer of `Text` nodes.
pub struct TextVisitor;

/// The renderer of `Bold` nodes.
pub struct BoldVisitor;

/// The renderer of `Emphasize` nodes.
pub struct EmphasizeVisitor;

/// The renderer of sentences, of whichever kind.
pub struct SentenceVisitor;

/// The renderer of `Paragraph` nodes.
pub struct ParagraphVisitor;

/// The renderer of `Body` nodes.
pub struct BodyVisitor;

impl BaseVisitor for Visitor {
    open spec fn accepts(node: NodeView) -> bool {
        renders_as_body(node)
    }

    open spec fn rendered(node: NodeView) -> Seq<char> {
        render_body(node)
    }

    fn visit(node: Node) -> (html: String) {
        BodyVisitor::visit(node)
    }
}

impl BaseVisitor for TextVisitor {
    open spec fn accepts(node: NodeView) -> bool {
        node.kind == NodeType::Text
    }

    open spec fn rendered(node: NodeView) -> Seq<char> {
        render_text(node)
    }

    fn visit(node: Node) -> (html: String) {
        node.value
    }
}

impl BaseVisitor for BoldVisitor {
    open spec fn accepts(node: NodeView) -> bool {
        node.kind == NodeType::Bold
    }

    open spec fn rendered(node: NodeView) -> Seq<char> {
        render_bold(node)
    }

    fn visit(node: Node) -> (html: String) {
        let mut html = "<strong>".to_owned();
        html.append(node.value.as_str());
        html.append("</strong>");
        html
    }
}

impl BaseVisitor for EmphasizeVisitor {
    open spec fn accepts(node: NodeView) -> bool {
        node.kind == NodeType::Emphasize
    }

    open spec fn rendered(node: NodeView) -> Seq<char> {
        render_emphasize(node)
    }

    fn visit(node: Node) -> (html: String) {
        let mut html = "<em>".to_owned();
        html.append(node.value.as_str());
        html.append("</em>");
        html
    }
}

impl BaseVisitor for SentenceVisitor {
    open spec fn accepts(node: NodeView) -> bool {
        is_sentence_kind(node.kind)
    }

    open spec fn rendered(node: NodeView) -> Seq<char> {
        render_sentence(node)
    }

    fn visit(node: Node) -> (html: String) {
        let mut result = String::new();
        match node.type_ {
            NodeType::Emphasize => result.append(EmphasizeVisitor::visit(node).as_str()),
            NodeType::Bold => result.append(BoldVisitor::visit(node).as_str()),
            _ => result.append(TextVisitor::visit(node).as_str()),
        }
        result
    }
}

impl BaseVisitor for ParagraphVisitor {
    open spec fn accepts(node: NodeView) -> bool {
        renders_as_paragraph(node)
    }

    open spec fn rendered(node: NodeView) -> Seq<char> {
        render_paragraph(node)
    }

    fn visit(node: Node) -> (html: String) {
        let ghost children = node@.children;
        let mut result = String::new();
        result.append("<p>");
        for child in it: node.children
            invariant
                children == node@.children,
                renders_as_paragraph(node@),
                it.seq() == node.children@,
                result@ == "<p>"@ + render_sentences(children.take(it.index() as int)),
        {
            proof {
                lemma_render_sentences_step(children, it.index() as int);
            }
            result.append(SentenceVisitor::visit(child).as_str());
        }
        assert(children.take(children.len() as int) =~= children);
        result.append("</p>");
        result
    }
}

impl BaseVisitor for BodyVisitor {
    open spec fn accepts(node: NodeView) -> bool {
        renders_as_body(node)
    }

    open spec fn rendered(node: NodeView) -> Seq<char> {
        render_body(node)
    }

    fn visit(node: Node) -> (html: String) {
        let ghost children = node@.children;
        let mut result = String::new();
        for child in it: node.children
            invariant
                children == node@.children,
                renders_as_body(node@),
                it.seq() == node.children@,
                result@ == render_paragraphs(children.take(it.index() as int)),
        {
            proof {
                lemma_render_paragraphs_step(children, it.index() as int);
            }
            result.append(ParagraphVisitor::visit(child).as_str());
        }
        assert(children.take(children.len() as int) =~= children);
        result
    }
}

} // verus!
