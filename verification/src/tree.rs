//! The syntax tree, as far as the substitution reads it: plain string
//! literals, the static text of template strings, and every other node with
//! its children.

use crate::decimal::{decimal, placeholder_index};
use vstd::prelude::*;

verus! {

/// The text of an optional string, where there is one.
pub open spec fn opt_text(o: Option<String>) -> Option<Seq<char>> {
    match o {
        Some(s) => Some(s@),
        None => None,
    }
}

/// A plain string literal.
#[derive(Debug, PartialEq, Eq)]
pub struct StrLit {
    /// The decoded content, or `None` where the content does not decode.
    pub value: Option<String>,
    /// The literal as the source spelled it, while that spelling is current.
    pub raw: Option<String>,
}

/// What a string literal holds.
pub struct StrLitView {
    pub value: Option<Seq<char>>,
    pub raw: Option<Seq<char>>,
}

impl View for StrLit {
    type V = StrLitView;

    open spec fn view(&self) -> StrLitView {
        StrLitView { value: opt_text(self.value), raw: opt_text(self.raw) }
    }
}

/// A node of the syntax tree.
#[derive(Debug, PartialEq, Eq)]
pub enum Node {
    /// A plain string literal.
    Str(StrLit),
    /// The static text between the interpolations of a template string.
    TemplateStatic(String),
    /// Any other node: its kind and its children in source order.
    Other { kind: String, children: Vec<Node> },
}

/// What a node holds.
pub enum NodeView {
    Str(StrLitView),
    TemplateStatic(Seq<char>),
    Other { kind: Seq<char>, children: Seq<NodeView> },
}

/// What a node holds: the literal, the static text, or the kind and what
/// each child holds.
pub open spec fn node_view(node: Node) -> NodeView
    decreases node,
{
    match node {
        Node::Str(lit) => NodeView::Str(lit@),
        Node::TemplateStatic(text) => NodeView::TemplateStatic(text@),
        Node::Other { kind, children } => NodeView::Other {
            kind: kind@,
            children: Seq::new(
                children@.len(),
                |i: int|
                    if 0 <= i < children@.len() {
                        node_view(children@[i])
                    } else {
                        arbitrary()
                    },
            ),
        },
    }
}

impl View for Node {
    type V = NodeView;

    open spec fn view(&self) -> NodeView {
        node_view(*self)
    }
}

/// What a row of nodes holds.
pub open spec fn views(nodes: Seq<Node>) -> Seq<NodeView> {
    Seq::new(nodes.len(), |i: int| nodes[i]@)
}

/// A node that is no literal and no static text shows its kind and what its
/// children hold.
pub proof fn lemma_view_of_other(node: Node)
    requires
        node is Other,
    ensures
        node@ is Other,
        node@->kind == node->kind@,
        node@->children == views(node->children@),
{
    assert(node@->children =~= views(node->children@));
}

impl StrLitView {
    /// The text that the literal stands for: its decoded content, and the
    /// empty text where the content does not decode.
    pub open spec fn text(self) -> Seq<char> {
        match self.value {
            Some(text) => text,
            None => Seq::empty(),
        }
    }

    /// The literal that carries the placeholder with the given index: the
    /// decimal numeral of the index as its content, and no remembered spelling.
    pub open spec fn placeholder(index: nat) -> StrLitView {
        StrLitView { value: Some(decimal(index)), raw: None }
    }

    /// The literal with the text that it stands for as its content, and no
    /// remembered spelling.
    pub open spec fn settled(self) -> StrLitView {
        StrLitView { value: Some(self.text()), raw: None }
    }

    /// The literal put back: one that carries a placeholder of the record
    /// gets the recorded text as its content; any other stays as it is.
    pub open spec fn restored(self, record: Seq<Seq<char>>) -> StrLitView {
        match self.value {
            Some(text) => match placeholder_index(text) {
                Some(index) => if index < record.len() {
                    StrLitView { value: Some(record[index as int]), raw: None }
                } else {
                    self
                },
                None => self,
            },
            None => self,
        }
    }
}

impl NodeView {
    /// The plain string literals of the tree in source order: a node before
    /// its children, the children from left to right.
    pub open spec fn literals(self) -> Seq<StrLitView>
        decreases self,
    {
        match self {
            NodeView::Str(lit) => seq![lit],
            NodeView::TemplateStatic(_) => Seq::empty(),
            NodeView::Other { kind, children } => forest_literals(children),
        }
    }

    /// The texts that the plain string literals of the tree stand for, in
    /// source order.
    pub open spec fn originals(self) -> Seq<Seq<char>> {
        literal_texts(self.literals())
    }

    /// The tree in which the plain string literals carry, in source order, the
    /// placeholders `start`, `start + 1`, ... and everything else is as it was.
    pub open spec fn rewritten(self, start: nat) -> NodeView
        decreases self,
    {
        match self {
            NodeView::Str(lit) => NodeView::Str(StrLitView::placeholder(start)),
            NodeView::TemplateStatic(text) => NodeView::TemplateStatic(text),
            NodeView::Other { kind, children } => NodeView::Other {
                kind,
                children: forest_rewritten(children, start),
            },
        }
    }

    /// The tree without what its plain string literals hold: what is left is
    /// its shape, the kinds of its nodes and its static texts.
    pub open spec fn blanked(self) -> NodeView
        decreases self,
    {
        match self {
            NodeView::Str(lit) => NodeView::Str(StrLitView { value: None, raw: None }),
            NodeView::TemplateStatic(text) => NodeView::TemplateStatic(text),
            NodeView::Other { kind, children } => NodeView::Other {
                kind,
                children: Seq::new(
                    children.len(),
                    |i: int|
                        if 0 <= i < children.len() {
                            children[i].blanked()
                        } else {
                            arbitrary()
                        },
                ),
            },
        }
    }

    /// The tree with each plain string literal settled.
    pub open spec fn settled(self) -> NodeView
        decreases self,
    {
        match self {
            NodeView::Str(lit) => NodeView::Str(lit.settled()),
            NodeView::TemplateStatic(text) => NodeView::TemplateStatic(text),
            NodeView::Other { kind, children } => NodeView::Other {
                kind,
                children: Seq::new(
                    children.len(),
                    |i: int|
                        if 0 <= i < children.len() {
                            children[i].settled()
                        } else {
                            arbitrary()
                        },
                ),
            },
        }
    }

    /// The tree with each plain string literal put back from the record.
    pub open spec fn restored(self, record: Seq<Seq<char>>) -> NodeView
        decreases self,
    {
        match self {
            NodeView::Str(lit) => NodeView::Str(lit.restored(record)),
            NodeView::TemplateStatic(text) => NodeView::TemplateStatic(text),
            NodeView::Other { kind, children } => NodeView::Other {
                kind,
                children: Seq::new(
                    children.len(),
                    |i: int|
                        if 0 <= i < children.len() {
                            children[i].restored(record)
                        } else {
                            arbitrary()
                        },
                ),
            },
        }
    }
}

/// A row of trees with each tree put back from the record.
pub open spec fn restored_row(nodes: Seq<NodeView>, record: Seq<Seq<char>>) -> Seq<NodeView> {
    Seq::new(nodes.len(), |i: int| nodes[i].restored(record))
}

/// The texts that a row of literals stands for.
pub open spec fn literal_texts(literals: Seq<StrLitView>) -> Seq<Seq<char>> {
    Seq::new(literals.len(), |i: int| literals[i].text())
}

/// The plain string literals of a row of trees, in source order.
pub open spec fn forest_literals(nodes: Seq<NodeView>) -> Seq<StrLitView>
    decreases nodes,
{
    if nodes.len() == 0 {
        Seq::empty()
    } else {
        forest_literals(nodes.drop_last()) + nodes.last().literals()
    }
}

/// A row of trees rewritten from left to right, the first placeholder being
/// `start`: each tree goes on counting where the one before it stopped.
pub open spec fn forest_rewritten(nodes: Seq<NodeView>, start: nat) -> Seq<NodeView>
    decreases nodes,
{
    if nodes.len() == 0 {
        Seq::empty()
    } else {
        let before = nodes.drop_last();
        forest_rewritten(before, start).push(
            nodes.last().rewritten(start + forest_literals(before).len()),
        )
    }
}

} // verus!
