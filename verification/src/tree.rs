//! The parsed document: an ordered tree of tagged nodes.
//!
//! `ParsedTree` is the value that the program holds; `Tree` is what it stands
//! for in contracts. Leaves carry their literal text, every other node carries
//! its children in one uniform container.

use vstd::prelude::*;

verus! {

/// The tag of a node.
#[derive(Clone, Copy, PartialEq, Eq, Structural, Debug)]
pub enum NodeKind {
    MetadataHeader,
    Heading,
    Paragraph,
    Text,
    InlineCode,
    CodeBlock,
    Link,
    List,
    RawEmbeddedMarkup,
    Container,
}

/// A node of a parsed document together with everything below it.
#[derive(Debug)]
pub enum ParsedTree {
    /// The metadata header, with its raw payload.
    MetadataHeader(String),
    Heading(Vec<ParsedTree>),
    Paragraph(Vec<ParsedTree>),
    /// Literal text.
    Text(String),
    /// Code inside a line.
    InlineCode(String),
    /// A block of code.
    CodeBlock(String),
    Link(Vec<ParsedTree>),
    List(Vec<ParsedTree>),
    /// Markup that was embedded raw and is passed through as it is.
    RawEmbeddedMarkup(String),
    /// Any other node: the document's root, quotes, emphasis, list items,
    /// table parts, component tags, and nodes that hold nothing.
    Container(Vec<ParsedTree>),
}

/// The mathematical model of a `ParsedTree`.
pub ghost enum Tree {
    MetadataHeader(Seq<char>),
    Heading(Seq<Tree>),
    Paragraph(Seq<Tree>),
    Text(Seq<char>),
    InlineCode(Seq<char>),
    CodeBlock(Seq<char>),
    Link(Seq<Tree>),
    List(Seq<Tree>),
    RawEmbeddedMarkup(Seq<char>),
    Container(Seq<Tree>),
}

/// The models of the trees in `nodes`, in order.
pub open spec fn forest(nodes: Seq<ParsedTree>) -> Seq<Tree>
    decreases nodes,
{
    Seq::new(
        nodes.len(),
        |i: int|
            if 0 <= i < nodes.len() {
                nodes[i].view()
            } else {
                Tree::Container(Seq::empty())
            },
    )
}

impl View for ParsedTree {
    type V = Tree;

    open spec fn view(&self) -> Tree
        decreases self,
    {
        match self {
            ParsedTree::MetadataHeader(v) => Tree::MetadataHeader(v@),
            ParsedTree::Heading(c) => Tree::Heading(forest(c@)),
            ParsedTree::Paragraph(c) => Tree::Paragraph(forest(c@)),
            ParsedTree::Text(v) => Tree::Text(v@),
            ParsedTree::InlineCode(v) => Tree::InlineCode(v@),
            ParsedTree::CodeBlock(v) => Tree::CodeBlock(v@),
            ParsedTree::Link(c) => Tree::Link(forest(c@)),
            ParsedTree::List(c) => Tree::List(forest(c@)),
            ParsedTree::RawEmbeddedMarkup(v) => Tree::RawEmbeddedMarkup(v@),
            ParsedTree::Container(c) => Tree::Container(forest(c@)),
        }
    }
}

impl Tree {
    /// The tag of the root of this tree.
    pub open spec fn kind(self) -> NodeKind {
        match self {
            Tree::MetadataHeader(_) => NodeKind::MetadataHeader,
            Tree::Heading(_) => NodeKind::Heading,
            Tree::Paragraph(_) => NodeKind::Paragraph,
            Tree::Text(_) => NodeKind::Text,
            Tree::InlineCode(_) => NodeKind::InlineCode,
            Tree::CodeBlock(_) => NodeKind::CodeBlock,
            Tree::Link(_) => NodeKind::Link,
            Tree::List(_) => NodeKind::List,
            Tree::RawEmbeddedMarkup(_) => NodeKind::RawEmbeddedMarkup,
            Tree::Container(_) => NodeKind::Container,
        }
    }

    /// The literal text of a leaf; empty for every other node.
    pub open spec fn value(self) -> Seq<char> {
        match self {
            Tree::MetadataHeader(v) => v,
            Tree::Text(v) => v,
            Tree::InlineCode(v) => v,
            Tree::CodeBlock(v) => v,
            Tree::RawEmbeddedMarkup(v) => v,
            _ => Seq::empty(),
        }
    }

    /// The children of a node; empty for a leaf.
    pub open spec fn children(self) -> Seq<Tree> {
        match self {
            Tree::Heading(c) => c,
            Tree::Paragraph(c) => c,
            Tree::Link(c) => c,
            Tree::List(c) => c,
            Tree::Container(c) => c,
            _ => Seq::empty(),
        }
    }

    /// Whether the root of this tree is a leaf that carries literal text.
    pub open spec fn is_leaf(self) -> bool {
        self is MetadataHeader || self is Text || self is InlineCode || self is CodeBlock
            || self is RawEmbeddedMarkup
    }

    /// The tree that has the tag `kind`, the literal text `value` where that
    /// tag is a leaf's, and the children `children` where it is not.
    pub open spec fn assemble(kind: NodeKind, value: Seq<char>, children: Seq<Tree>) -> Tree {
        match kind {
            NodeKind::MetadataHeader => Tree::MetadataHeader(value),
            NodeKind::Heading => Tree::Heading(children),
            NodeKind::Paragraph => Tree::Paragraph(children),
            NodeKind::Text => Tree::Text(value),
            NodeKind::InlineCode => Tree::InlineCode(value),
            NodeKind::CodeBlock => Tree::CodeBlock(value),
            NodeKind::Link => Tree::Link(children),
            NodeKind::List => Tree::List(children),
            NodeKind::RawEmbeddedMarkup => Tree::RawEmbeddedMarkup(value),
            NodeKind::Container => Tree::Container(children),
        }
    }
}

impl ParsedTree {
    /// The children of this node; none for a leaf.
    pub fn children(&self) -> (r: Option<&Vec<ParsedTree>>)
        ensures
            match r {
                Some(c) => !self@.is_leaf() && forest(c@) == self@.children(),
                None => self@.is_leaf(),
            },
    {
        match self {
            ParsedTree::Heading(c) => Some(c),
            ParsedTree::Paragraph(c) => Some(c),
            ParsedTree::Link(c) => Some(c),
            ParsedTree::List(c) => Some(c),
            ParsedTree::Container(c) => Some(c),
            _ => None,
        }
    }
}

} // verus!
