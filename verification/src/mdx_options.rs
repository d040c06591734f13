//! The grammar configuration under which documents are parsed and rendered.

use vstd::prelude::*;

verus! {

/// The switches of the markup dialect. Every construct that is not named
/// here is as the `markdown` crate has it by default.
///
/// A value is built where it is needed and handed on explicitly; nothing
/// shares one.
#[derive(Clone, Copy, PartialEq, Eq, Structural, Debug)]
pub struct MdxOptions {
    /// Whether a metadata header at the start of the text is read as one.
    pub frontmatter: bool,
    /// Whether indented lines are read as blocks of code.
    pub code_indented: bool,
    /// Whether tables are read.
    pub tables: bool,
    /// Whether struck-through text is read.
    pub strikethrough: bool,
    /// Whether a bare address is read as a link.
    pub autolinks: bool,
    /// Whether embedded component tags, expressions in braces and module
    /// statements are read.
    pub components: bool,
    /// Whether raw HTML is read as such. Component tags take its place.
    pub raw_html: bool,
    /// Whether an address between angle brackets is read as a link. Component
    /// tags take the brackets.
    pub angle_autolinks: bool,
    /// Whether the tags that the tag filter names are made harmless when HTML
    /// is written.
    pub tag_filter: bool,
}

/// The configuration that every document of a site is read with: metadata
/// headers, indented code, tables, strikethrough, autolinks and component
/// tags are on, raw HTML and links in angle brackets are off, and the tag
/// filter is on.
pub open spec fn site_options() -> MdxOptions {
    MdxOptions {
        frontmatter: true,
        code_indented: true,
        tables: true,
        strikethrough: true,
        autolinks: true,
        components: true,
        raw_html: false,
        angle_autolinks: false,
        tag_filter: true,
    }
}

/// The configuration that every document of a site is read with.
pub fn default_mdx_compile_options() -> (r: MdxOptions)
    ensures
        r == site_options(),
{
    MdxOptions {
        frontmatter: true,
        code_indented: true,
        tables: true,
        strikethrough: true,
        autolinks: true,
        components: true,
        raw_html: false,
        angle_autolinks: false,
        tag_filter: true,
    }
}

} // verus!
