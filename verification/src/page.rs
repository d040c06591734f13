//! The metadata of one page: the header's payload, the decoded header, and
//! the reading time of the body.

use vstd::prelude::*;
use vstd::string::*;
use crate::error::{AppError, Failure};
use crate::text::{chars_of, is_whitespace, white_space};
use crate::tree::{ParsedTree, Tree, forest};

verus! {

/// The number of words that a reader is taken to read in a minute.
pub const WORDS_PER_MINUTE: usize = 200;

/// The reason given when a header names no title.
pub const EMPTY_TITLE: &'static str = "title must not be empty";

/// The decoded metadata header of a document. Keys of the header that are
/// not among these four are dropped by whoever decodes it.
#[derive(Debug, Clone)]
pub struct Frontmatter {
    pub title: String,
    /// Chosen in a form whose order as text is its order in time, such as
    /// `YYYY-MM-DD`.
    pub date: Option<String>,
    pub description: Option<String>,
    /// When `Some(true)`, the post is kept out of listings.
    pub draft: Option<bool>,
}

/// The mathematical model of a `Frontmatter`.
pub ghost struct Header {
    pub title: Seq<char>,
    pub date: Option<Seq<char>>,
    pub description: Option<Seq<char>>,
    pub draft: Option<bool>,
}

/// The characters of `text`, where there is one.
pub open spec fn optional_text(text: Option<String>) -> Option<Seq<char>> {
    match text {
        Some(t) => Some(t@),
        None => None,
    }
}

impl View for Frontmatter {
    type V = Header;

    open spec fn view(&self) -> Header {
        Header {
            title: self.title@,
            date: optional_text(self.date),
            description: optional_text(self.description),
            draft: self.draft,
        }
    }
}

/// What became of decoding a header: the header, or the decoder's message.
pub open spec fn decoded(header: Result<Frontmatter, String>) -> Result<Header, Seq<char>> {
    match header {
        Ok(h) => Ok(h@),
        Err(message) => Err(message@),
    }
}

/// A document as it is handed over by whoever read it: the raw text, what
/// the parser made of that text, and what became of decoding the payload of
/// the tree's metadata header. Where the parser failed there is no payload,
/// and `header` is not looked at.
#[derive(Debug)]
pub struct Loaded {
    pub content: String,
    pub tree: Result<ParsedTree, String>,
    pub header: Result<Frontmatter, String>,
}

/// The mathematical model of a `Loaded`.
pub ghost struct Material {
    pub content: Seq<char>,
    pub tree: Result<Tree, Seq<char>>,
    pub header: Result<Header, Seq<char>>,
}

/// What became of parsing a text: the tree, or the parser's message.
pub open spec fn parsed(tree: Result<ParsedTree, String>) -> Result<Tree, Seq<char>> {
    match tree {
        Ok(t) => Ok(t@),
        Err(message) => Err(message@),
    }
}

impl View for Loaded {
    type V = Material;

    open spec fn view(&self) -> Material {
        Material { content: self.content@, tree: parsed(self.tree), header: decoded(self.header) }
    }
}

/// Title and estimated reading time of a page.
#[derive(Debug, Clone)]
pub struct PageMeta {
    pub title: String,
    /// Estimated reading time in minutes, at least 1.
    pub read_time_mins: usize,
}

/// The mathematical model of a `PageMeta`.
pub ghost struct Meta {
    pub title: Seq<char>,
    pub read_time_mins: nat,
}

impl View for PageMeta {
    type V = Meta;

    open spec fn view(&self) -> Meta {
        Meta { title: self.title@, read_time_mins: self.read_time_mins as nat }
    }
}

/// The payload of the first metadata header among `nodes`; empty where there
/// is none.
pub open spec fn first_header(nodes: Seq<Tree>) -> Seq<char>
    decreases nodes.len(),
{
    if nodes.len() == 0 {
        Seq::empty()
    } else if nodes[0] is MetadataHeader {
        nodes[0].value()
    } else {
        first_header(nodes.drop_first())
    }
}

/// The raw payload of a document's metadata header: that of the first
/// metadata header among the children of the root, empty where there is none.
pub open spec fn header_payload(tree: Tree) -> Seq<char> {
    first_header(tree.children())
}

/// Whether `text` starts with the three characters that open a header.
pub open spec fn opens_fence(text: Seq<char>) -> bool {
    text.len() >= 3 && text[0] == '-' && text[1] == '-' && text[2] == '-'
}

/// Whether a line that starts with the closing marker begins right after
/// position `i` of `text`: a line feed at `i`, then the three characters of
/// the marker. The marker that opened the header is not counted again.
pub open spec fn closes_at(text: Seq<char>, i: int) -> bool {
    &&& 3 <= i
    &&& i + 4 <= text.len()
    &&& text[i] == '\n'
    &&& text[i + 1] == '-'
    &&& text[i + 2] == '-'
    &&& text[i + 3] == '-'
}

/// The first position from `from` on at which the header closes, if any.
pub open spec fn close_from(text: Seq<char>, from: int) -> Option<int>
    decreases text.len() - from,
{
    if from + 4 > text.len() {
        None
    } else if closes_at(text, from) {
        Some(from)
    } else {
        close_from(text, from + 1)
    }
}

/// The position after the one line break that stands at `from`, if one
/// stands there: a line feed, or a carriage return with the line feed that
/// follows it. Where none stands there the position is `from` itself.
pub open spec fn after_break(text: Seq<char>, from: int) -> int {
    if 0 <= from < text.len() && text[from] == '\n' {
        from + 1
    } else if 0 <= from && from + 1 < text.len() && text[from] == '\r' && text[from + 1] == '\n' {
        from + 2
    } else {
        from
    }
}

/// The body of a document: the text without its leading header. Where the
/// text opens a header and a later line starts with the closing marker,
/// everything up to and with that marker is dropped, and the one line break
/// that follows it, nothing more. Any other text is its own body.
pub open spec fn body_of(text: Seq<char>) -> Seq<char> {
    if opens_fence(text) {
        match close_from(text, 3) {
            Some(i) => text.skip(after_break(text, i + 4)),
            None => text,
        }
    } else {
        text
    }
}

/// Whether a word starts at position `i` of `text`: a character that is not
/// white space, at the start or after white space.
pub open spec fn word_starts_at(text: Seq<char>, i: int) -> bool {
    &&& 0 <= i < text.len()
    &&& !white_space(text[i])
    &&& (i == 0 || white_space(text[i - 1]))
}

/// The number of words that start before position `upto` of `text`.
pub open spec fn words_before(text: Seq<char>, upto: int) -> nat
    decreases upto,
{
    if upto <= 0 {
        0
    } else {
        words_before(text, upto - 1) + if word_starts_at(text, upto - 1) {
            1nat
        } else {
            0nat
        }
    }
}

/// The number of words of `text`: of its maximal runs of characters that are
/// not white space.
pub open spec fn word_count(text: Seq<char>) -> nat {
    words_before(text, text.len() as int)
}

/// The minutes it takes to read `words` words: their number over 200,
/// rounded down, and at least 1.
pub open spec fn reading_time(words: nat) -> nat {
    if words / 200 < 1 {
        1
    } else {
        words / 200
    }
}

/// What the metadata of a page is, given what became of decoding its header
/// and the page's raw text.
pub open spec fn meta_of(header: Result<Header, Seq<char>>, content: Seq<char>) -> Result<
    Meta,
    Failure,
> {
    match header {
        Err(message) => Err(Failure::ParseError(message)),
        Ok(h) => if h.title.len() == 0 {
            Err(Failure::ParseError(EMPTY_TITLE@))
        } else {
            Ok(Meta { title: h.title, read_time_mins: reading_time(word_count(body_of(content))) })
        },
    }
}

/// The raw payload of the document's metadata header: the payload of the
/// first metadata header among the children of the root, or the empty text
/// where there is none.
pub fn yaml_from_ast(ast: &ParsedTree) -> (r: &str)
    ensures
        r@ == header_payload(ast@),
{
    proof {
        reveal_strlit("");
    }
    match ast.children() {
        None => "",
        Some(children) => {
            let ghost nodes = forest(children@);
            let mut i: usize = 0;
            proof {
                assert(nodes.skip(0) =~= nodes);
            }
            while i < children.len()
                invariant
                    nodes == forest(children@),
                    nodes == ast@.children(),
                    i <= children@.len(),
                    first_header(nodes) == first_header(nodes.skip(i as int)),
                decreases children@.len() - i,
            {
                proof {
                    assert(nodes.skip(i as int)[0] == children@[i as int]@);
                    assert(nodes.skip(i as int).drop_first() =~= nodes.skip(i + 1));
                }
                match &children[i] {
                    ParsedTree::MetadataHeader(payload) => {
                        proof {
                            assert(children@[i as int]@ == Tree::MetadataHeader(payload@));
                            assert(first_header(nodes.skip(i as int)) == payload@);
                        }
                        return payload.as_str();
                    },
                    _ => {},
                }
                i = i + 1;
            }
            ""
        },
    }
}

/// The body of `content`: the text without its leading metadata header.
///
/// Where `content` starts with `---` and a later line starts with `---`, the
/// result begins after that closing marker and after the one line break that
/// follows it (`\n`, or `\r\n`). Any other `content` comes back as it is.
pub fn strip_frontmatter(content: &str) -> (r: &str)
    ensures
        r@ == body_of(content@),
{
    let chars = chars_of(content);
    let n: usize = chars.len();
    if n < 3 || chars[0] != '-' || chars[1] != '-' || chars[2] != '-' {
        return content;
    }
    let mut i: usize = 3;
    let mut found: bool = false;
    while !found && n - i >= 4
        invariant
            chars@ == content@,
            n == chars@.len(),
            3 <= i <= n,
            close_from(content@, 3) == close_from(content@, i as int),
            found ==> closes_at(content@, i as int),
        decreases n - i + if found { 0int } else { 1int },
    {
        if chars[i] == '\n' && chars[i + 1] == '-' && chars[i + 2] == '-' && chars[i + 3] == '-' {
            found = true;
        } else {
            i = i + 1;
        }
    }
    if !found {
        return content;
    }
    let marker_end: usize = i + 4;
    let j: usize = if marker_end < n && chars[marker_end] == '\n' {
        marker_end + 1
    } else if n - marker_end >= 2 && chars[marker_end] == '\r' && chars[marker_end + 1] == '\n' {
        marker_end + 2
    } else {
        marker_end
    };
    let body = content.substring_char(j, n);
    proof {
        assert(content@.subrange(j as int, n as int) =~= content@.skip(j as int));
    }
    body
}

/// The number of words of `text`, where words are parted by white space.
pub fn count_words(text: &str) -> (r: usize)
    ensures
        r == word_count(text@),
{
    let chars = chars_of(text);
    let mut count: usize = 0;
    let mut after_space: bool = true;
    let mut i: usize = 0;
    while i < chars.len()
        invariant
            chars@ == text@,
            i <= chars@.len(),
            count <= i,
            count == words_before(text@, i as int),
            after_space == (i == 0 || white_space(text@[i - 1])),
        decreases chars@.len() - i,
    {
        let space = is_whitespace(chars[i]);
        if !space && after_space {
            count = count + 1;
        }
        after_space = space;
        i = i + 1;
    }
    count
}

/// The minutes it takes to read `words` words.
pub fn minutes_for(words: usize) -> (r: usize)
    ensures
        r == reading_time(words as nat),
        r >= 1,
{
    let minutes = words / WORDS_PER_MINUTE;
    if minutes < 1 {
        1
    } else {
        minutes
    }
}

/// Title and reading time of a page, from what became of decoding its header
/// and from its raw text.
///
/// A header that could not be decoded, and one without a title, are refused
/// with a `ParseError`. The reading time counts the words of the body alone,
/// at 200 words a minute, and is never under one minute.
pub fn extract_meta(header: &Result<Frontmatter, String>, content: &str) -> (r: Result<
    PageMeta,
    AppError,
>)
    ensures
        match r {
            Ok(meta) => meta_of(decoded(*header), content@) == Ok::<Meta, Failure>(meta@),
            Err(e) => meta_of(decoded(*header), content@) == Err::<Meta, Failure>(e@),
        },
{
    match header {
        Err(message) => Err(AppError::ParseError(message.clone())),
        Ok(h) => {
            if h.title.as_str().unicode_len() == 0 {
                Err(AppError::ParseError(String::from_str(EMPTY_TITLE)))
            } else {
                let words = count_words(strip_frontmatter(content));
                Ok(PageMeta { title: h.title.clone(), read_time_mins: minutes_for(words) })
            }
        },
    }
}

/// Reading time never falls when the number of words rises, and it is never
/// under one minute: not for a body without a single word either.
pub proof fn lemma_reading_time_monotone(fewer: nat, more: nat)
    requires
        fewer <= more,
    ensures
        1 <= reading_time(fewer) <= reading_time(more),
        reading_time(0) == 1,
{
    assert(fewer / 200 <= more / 200) by (nonlinear_arith)
        requires
            fewer <= more,
    ;
}

/// A header with a title gives back exactly that title, whatever the text of
/// the page is, and a reading time of a minute or more.
pub proof fn lemma_title_is_recovered(header: Header, content: Seq<char>)
    requires
        header.title.len() > 0,
    ensures
        meta_of(Ok(header), content) is Ok,
        meta_of(Ok(header), content)->Ok_0.title == header.title,
        meta_of(Ok(header), content)->Ok_0.read_time_mins >= 1,
{
}

/// The closing position that `close_from` gives is the first one: the header
/// closes there, and nowhere between `from` and there.
pub proof fn lemma_close_is_first(text: Seq<char>, from: int)
    requires
        3 <= from,
    ensures
        match close_from(text, from) {
            Some(i) => from <= i && closes_at(text, i) && forall|j: int|
                from <= j < i ==> !closes_at(text, j),
            None => forall|j: int| from <= j ==> !closes_at(text, j),
        },
    decreases text.len() - from,
{
    if from + 4 > text.len() {
    } else if closes_at(text, from) {
    } else {
        lemma_close_is_first(text, from + 1);
    }
}

/// The body is an end piece of the text: stripping the header takes
/// characters from the front alone.
pub proof fn lemma_body_is_suffix(text: Seq<char>)
    ensures
        exists|k: int| 0 <= k <= text.len() && body_of(text) == text.skip(k),
{
    if opens_fence(text) && close_from(text, 3) is Some {
        let i = close_from(text, 3)->Some_0;
        lemma_close_is_first(text, 3);
        let k = after_break(text, i + 4);
        assert(body_of(text) == text.skip(k));
    } else {
        assert(text.skip(0) =~= text);
    }
}

} // verus!
