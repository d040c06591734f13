//! The document parser: raw text to a tree, and the rule on where the
//! metadata header stands.
//!
//! The grammar reads a header only where its opening marker begins at the
//! first byte of the text. So a document leads with its header exactly when
//! the first child of the root is a header node; one that appears later is
//! not the document's metadata.

use vstd::prelude::*;
use vstd::string::*;
use crate::bridge::{lift, mdast_of, to_mdast};
use crate::mdx_options::{default_mdx_compile_options, site_options};
use crate::page::header_payload;
use crate::tree::{ParsedTree, Tree};

verus! {

/// The reason given when a document that needs a header does not lead with
/// one.
pub const MISPLACED_HEADER: &'static str = "frontmatter must be at the start of the file";

/// Whether a caller needs the document to lead with a metadata header.
#[derive(Clone, Copy, PartialEq, Eq, Structural, Debug)]
pub enum HeaderPolicy {
    /// Pages and posts: a missing or misplaced header is fatal.
    Required,
    /// Previews and fragments: the header may be absent.
    Optional,
}

/// Whether the first child of the root of `tree` is a metadata header.
pub open spec fn leads_with_header(tree: Tree) -> bool {
    tree.children().len() > 0 && tree.children()[0] is MetadataHeader
}

/// What the parser answers, given what the grammar made of the text: the
/// grammar's message where it refused the text, the placement message where
/// `policy` needs a leading header and the tree has none, and the tree
/// otherwise.
pub open spec fn placed(outcome: Result<Tree, Seq<char>>, policy: HeaderPolicy) -> Result<
    Tree,
    Seq<char>,
> {
    match outcome {
        Err(message) => Err(message),
        Ok(tree) => if policy is Required && !leads_with_header(tree) {
            Err(MISPLACED_HEADER@)
        } else {
            Ok(tree)
        },
    }
}

/// Holds `tree` to the placement rule: under `Required` it is handed back
/// only if it leads with a metadata header, under `Optional` always.
pub fn check_placement(tree: ParsedTree, policy: HeaderPolicy) -> (r: Result<ParsedTree, String>)
    ensures
        match r {
            Ok(t) => t == tree && placed(Ok(tree@), policy) == Ok::<Tree, Seq<char>>(tree@),
            Err(message) => placed(Ok(tree@), policy) == Err::<Tree, Seq<char>>(message@),
        },
{
    let leads = match tree.children() {
        None => false,
        Some(children) => {
            if children.len() > 0 {
                assert(tree@.children()[0] == children@[0]@);
                match &children[0] {
                    ParsedTree::MetadataHeader(_) => true,
                    _ => false,
                }
            } else {
                false
            }
        },
    };
    match policy {
        HeaderPolicy::Required => if leads {
            Ok(tree)
        } else {
            Err(String::from_str(MISPLACED_HEADER))
        },
        HeaderPolicy::Optional => Ok(tree),
    }
}

/// Parses the raw text of a document into its tree.
///
/// Fails with the grammar's message where the grammar refuses the text, and
/// with `MISPLACED_HEADER` where `policy` is `Required` and the document does
/// not lead with a metadata header.
pub fn parse_mdx(content: &str, policy: HeaderPolicy) -> (r: Result<ParsedTree, String>)
    ensures
        match r {
            Ok(tree) => placed(mdast_of(content@, site_options()), policy) == Ok::<Tree, Seq<char>>(
                tree@,
            ),
            Err(message) => placed(mdast_of(content@, site_options()), policy) == Err::<
                Tree,
                Seq<char>,
            >(message@),
        },
{
    let options = default_mdx_compile_options();
    match to_mdast(content, &options) {
        Err(message) => Err(message),
        Ok(node) => check_placement(lift(&node), policy),
    }
}

/// A tree that leads with a metadata header is accepted under either
/// policy, and the payload that is read from it is the payload of that
/// header.
pub proof fn lemma_leading_header_is_accepted(tree: Tree, policy: HeaderPolicy)
    requires
        leads_with_header(tree),
    ensures
        placed(Ok(tree), policy) == Ok::<Tree, Seq<char>>(tree),
        header_payload(tree) == tree.children()[0].value(),
{
}

/// Under `Optional` the parser answers what the grammar answered; under
/// `Required` it accepts no tree but one that leads with a metadata header.
pub proof fn lemma_policy_decides(outcome: Result<Tree, Seq<char>>)
    ensures
        placed(outcome, HeaderPolicy::Optional) == outcome,
        placed(outcome, HeaderPolicy::Required) matches Ok(tree) ==> leads_with_header(tree),
{
}

} // verus!
