//! The content pipeline of a small site, verified with Verus.
//!
//! Documents in a lightweight markup, each led by a metadata header, are
//! turned into a store of rendered pages, a listing of posts in order, and
//! the flattened text of each post for search. The store is built once, in
//! full or not at all, and only read afterwards.
//!
//! - `parser`: raw text to a tree, and the rule on where the header stands.
//! - `page`: the header's payload, the decoded header, the reading time.
//! - `post`: the flattened text, the entry of a post, the listing.
//! - `order`: what holds of the order of a listing.
//! - `template`: escaping and the HTML of pages and of the listing.
//! - `store`: the records, how the store is built, and how it is read.
//! - `tree`, `text`, `error`, `constants`, `mdx_options`: the values that the
//!   rest is stated over.
//! - `bridge`: the calls into the `markdown` crate, which parses and renders.
//!
//! Reading files and decoding headers is left to the caller, who hands over
//! what was read and decoded as plain values.

pub mod bridge;
pub mod constants;
pub mod error;
pub mod mdx_options;
pub mod order;
pub mod page;
pub mod parser;
pub mod post;
pub mod store;
pub mod template;
pub mod text;
pub mod tree;
