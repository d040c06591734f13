//! The calls into the `markdown` crate.
//!
//! Parsing and rendering are that crate's work. What it returns is a function
//! of the text and of the configuration alone, so each of the two results has
//! a name here, and the contracts of the callers speak of those names. Nothing
//! in this crate says what a name is on a given text.

use vstd::prelude::*;
use markdown::{CompileOptions, Constructs, Options, ParseOptions};
use crate::mdx_options::MdxOptions;
use crate::tree::{NodeKind, ParsedTree, Tree, forest};

verus! {

/// `markdown::mdast::Node`, the tree that the `markdown` crate builds. Nothing
/// inside a value of it is seen here: it is read through `node_kind`,
/// `node_value` and `node_children` alone.
#[verifier::external_type_specification]
#[verifier::external_body]
pub struct ExMdastNode(markdown::mdast::Node);

/// What `markdown::to_mdast` gives for `content` when the constructs are
/// switched as `options` tells: the tree, or the text of the message it
/// failed with.
pub uninterp spec fn mdast_of(content: Seq<char>, options: MdxOptions) -> Result<Tree, Seq<char>>;

/// What `markdown::to_html_with_options` gives for `content` under the same
/// configuration: the HTML fragment, or the text of the message it failed
/// with.
pub uninterp spec fn html_of(content: Seq<char>, options: MdxOptions) -> Result<
    Seq<char>,
    Seq<char>,
>;

/// What a tree of the `markdown` crate holds, as far as this crate reads it:
/// the tag of each node, the literal text of its leaves, and the children of
/// the others, in order.
pub uninterp spec fn outline(node: markdown::mdast::Node) -> Tree;

/// `markdown::to_mdast`, called with that crate's default options in which
/// the constructs that `options` names are set from it, field by field. The
/// tree that comes back holds `mdast_of` of the arguments; a message comes
/// back as its text.
#[verifier::external_body]
pub(crate) fn to_mdast(content: &str, options: &MdxOptions) -> (r: Result<
    markdown::mdast::Node,
    String,
>)
    ensures
        match r {
            Ok(node) => mdast_of(content@, *options) == Ok::<
                Tree,
                Seq<char>,
            >(outline(node)),
            Err(message) => mdast_of(content@, *options) == Err::<
                Tree,
                Seq<char>,
            >(message@),
        },
{
    let constructs = Constructs {
        frontmatter: options.frontmatter, code_indented: options.code_indented,
        gfm_table: options.tables, gfm_strikethrough: options.strikethrough,
        gfm_autolink_literal: options.autolinks, autolink: options.angle_autolinks,
        html_flow: options.raw_html, html_text: options.raw_html, mdx_esm: options.components,
        mdx_expression_flow: options.components, mdx_expression_text: options.components,
        mdx_jsx_flow: options.components, mdx_jsx_text: options.components,
        ..Constructs::default()
    };
    let parse = ParseOptions { constructs, ..ParseOptions::default() };
    match markdown::to_mdast(content, &parse) {
        Ok(node) => Ok(node),
        Err(message) => Err(message.to_string()),
    }
}

/// `markdown::to_html_with_options`, called with the same parse options as
/// `to_mdast` and with that crate's default options for writing, in which the
/// tag filter is set from `options`. The fragment that comes back is
/// `html_of` of the arguments; a message comes back as its text.
#[verifier::external_body]
pub(crate) fn to_html(content: &str, options: &MdxOptions) -> (r: Result<String, String>)
    ensures
        match r {
            Ok(html) => html_of(content@, *options) == Ok::<
                Seq<char>,
                Seq<char>,
            >(html@),
            Err(message) => html_of(content@, *options) == Err::<
                Seq<char>,
                Seq<char>,
            >(message@),
        },
{
    let constructs = Constructs {
        frontmatter: options.frontmatter, code_indented: options.code_indented,
        gfm_table: options.tables, gfm_strikethrough: options.strikethrough,
        gfm_autolink_literal: options.autolinks, autolink: options.angle_autolinks,
        html_flow: options.raw_html, html_text: options.raw_html, mdx_esm: options.components,
        mdx_expression_flow: options.components, mdx_expression_text: options.components,
        mdx_jsx_flow: options.components, mdx_jsx_text: options.components,
        ..Constructs::default()
    };
    let parse = ParseOptions { constructs, ..ParseOptions::default() };
    let compile = CompileOptions { gfm_tagfilter: options.tag_filter, ..CompileOptions::default() };
    match markdown::to_html_with_options(content, &Options { compile, parse }) {
        Ok(html) => Ok(html),
        Err(message) => Err(message.to_string()),
    }
}

/// The variant of a `markdown::mdast::Node`, as the tag that this crate gives
/// it. Every variant without a tag of its own is a `Container`.
#[verifier::external_body]
fn node_kind(node: &markdown::mdast::Node) -> (r: NodeKind)
    ensures
        r == outline(*node).kind(),
{
    match node {
        markdown::mdast::Node::Yaml(_) => NodeKind::MetadataHeader,
        markdown::mdast::Node::Heading(_) => NodeKind::Heading,
        markdown::mdast::Node::Paragraph(_) => NodeKind::Paragraph,
        markdown::mdast::Node::Text(_) => NodeKind::Text,
        markdown::mdast::Node::InlineCode(_) => NodeKind::InlineCode,
        markdown::mdast::Node::Code(_) => NodeKind::CodeBlock,
        markdown::mdast::Node::Link(_) => NodeKind::Link,
        markdown::mdast::Node::List(_) => NodeKind::List,
        markdown::mdast::Node::Html(_) => NodeKind::RawEmbeddedMarkup,
        _ => NodeKind::Container,
    }
}

/// The field `value` of the five variants of `markdown::mdast::Node` that
/// this crate reads as leaves; the empty text for every other variant.
#[verifier::external_body]
fn node_value(node: &markdown::mdast::Node) -> (r: String)
    ensures
        r@ == outline(*node).value(),
{
    match node {
        markdown::mdast::Node::Yaml(leaf) => leaf.value.clone(),
        markdown::mdast::Node::Text(leaf) => leaf.value.clone(),
        markdown::mdast::Node::InlineCode(leaf) => leaf.value.clone(),
        markdown::mdast::Node::Code(leaf) => leaf.value.clone(),
        markdown::mdast::Node::Html(leaf) => leaf.value.clone(),
        _ => String::new(),
    }
}

/// `markdown::mdast::Node::children`: the children of a parent, in order, and
/// none for a node that is no parent.
#[verifier::external_body]
fn node_children(node: &markdown::mdast::Node) -> (r: &[markdown::mdast::Node])
    ensures
        r@.len() == outline(*node).children().len(),
        forall|i: int|
            0 <= i < r@.len() ==> outline(#[trigger] r@[i]) == outline(*node).children()[i],
{
    match node.children() {
        Some(children) => children.as_slice(),
        None => &[],
    }
}

/// Copies a tree of the `markdown` crate into a `ParsedTree`.
pub(crate) fn lift(node: &markdown::mdast::Node) -> (r: ParsedTree)
    ensures
        r@ == outline(*node),
    decreases outline(*node),
{
    let kind = node_kind(node);
    match kind {
        NodeKind::MetadataHeader => ParsedTree::MetadataHeader(node_value(node)),
        NodeKind::Text => ParsedTree::Text(node_value(node)),
        NodeKind::InlineCode => ParsedTree::InlineCode(node_value(node)),
        NodeKind::CodeBlock => ParsedTree::CodeBlock(node_value(node)),
        NodeKind::RawEmbeddedMarkup => ParsedTree::RawEmbeddedMarkup(node_value(node)),
        _ => {
            let below = node_children(node);
            let mut children: Vec<ParsedTree> = Vec::new();
            let mut i: usize = 0;
            while i < below.len()
                invariant
                    i <= below@.len(),
                    children@.len() == i,
                    !outline(*node).is_leaf(),
                    below@.len() == outline(*node).children().len(),
                    forall|j: int|
                        0 <= j < below@.len() ==> outline(#[trigger] below@[j]) == outline(
                            *node,
                        ).children()[j],
                    forall|j: int|
                        0 <= j < i ==> (#[trigger] children@[j])@ == outline(*node).children()[j],
                decreases below@.len() - i,
            {
                let child = lift(&below[i]);
                children.push(child);
                i = i + 1;
            }
            assert(forest(children@) =~= outline(*node).children());
            match kind {
                NodeKind::Heading => ParsedTree::Heading(children),
                NodeKind::Paragraph => ParsedTree::Paragraph(children),
                NodeKind::Link => ParsedTree::Link(children),
                NodeKind::List => ParsedTree::List(children),
                _ => ParsedTree::Container(children),
            }
        },
    }
}

} // verus!
