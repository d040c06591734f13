//! Posts: the flattened text of a post, its entry in the listing, and the
//! listing itself, filtered and put in order.

use vstd::prelude::*;
use vstd::string::*;
use crate::error::{AppError, Failure};
use crate::order::{in_order, lemma_ordered_is_in_order, lemma_ordered_is_permutation};
use crate::page::{EMPTY_TITLE, Frontmatter, Header, Loaded, Material, decoded, optional_text};
use crate::text::{is_less, is_same, push_char, text_less};
use crate::tree::{ParsedTree, Tree, forest};

verus! {

/// One post as the listing and the search index show it.
#[derive(Debug, Clone)]
pub struct PostListing {
    pub title: String,
    /// The name of the post's directory, which is also the last part of its
    /// address.
    pub slug: String,
    pub date: Option<String>,
    pub description: Option<String>,
    /// The text of the post without any markup, for full-text search.
    pub body: String,
}

/// The mathematical model of a `PostListing`.
pub ghost struct Entry {
    pub title: Seq<char>,
    pub slug: Seq<char>,
    pub date: Option<Seq<char>>,
    pub description: Option<Seq<char>>,
    pub body: Seq<char>,
}

impl View for PostListing {
    type V = Entry;

    open spec fn view(&self) -> Entry {
        Entry {
            title: self.title@,
            slug: self.slug@,
            date: optional_text(self.date),
            description: optional_text(self.description),
            body: self.body@,
        }
    }
}

/// The models of `posts`, in order.
pub open spec fn entries(posts: Seq<PostListing>) -> Seq<Entry> {
    posts.map_values(|p: PostListing| p@)
}

/// `acc` with `piece` added to it: unchanged where `piece` is empty, else
/// `piece` after exactly one space, and without that space where `acc` is
/// empty.
pub open spec fn joined(acc: Seq<char>, piece: Seq<char>) -> Seq<char> {
    if piece.len() == 0 {
        acc
    } else if acc.len() == 0 {
        piece
    } else {
        acc.push(' ') + piece
    }
}

/// `acc` with each of `pieces` added to it in turn.
pub open spec fn joined_all(acc: Seq<char>, pieces: Seq<Seq<char>>) -> Seq<char>
    decreases pieces.len(),
{
    if pieces.len() == 0 {
        acc
    } else {
        joined(joined_all(acc, pieces.drop_last()), pieces.last())
    }
}

/// The literal texts that a reader sees in `tree`, in the order in which a
/// walk that visits a node before its children meets them. Text and code
/// give their text. A metadata header and raw embedded markup give nothing,
/// and nothing below them is looked at. Every other node gives what its
/// children give.
pub open spec fn visible(tree: Tree) -> Seq<Seq<char>>
    decreases tree,
{
    match tree {
        Tree::Text(v) => seq![v],
        Tree::InlineCode(v) => seq![v],
        Tree::CodeBlock(v) => seq![v],
        Tree::MetadataHeader(_) => Seq::empty(),
        Tree::RawEmbeddedMarkup(_) => Seq::empty(),
        Tree::Heading(c) => visible_all(c),
        Tree::Paragraph(c) => visible_all(c),
        Tree::Link(c) => visible_all(c),
        Tree::List(c) => visible_all(c),
        Tree::Container(c) => visible_all(c),
    }
}

/// What `visible` gives for each of `nodes`, one after the other.
pub open spec fn visible_all(nodes: Seq<Tree>) -> Seq<Seq<char>>
    decreases nodes,
{
    if nodes.len() == 0 {
        Seq::empty()
    } else {
        visible_all(nodes.drop_last()) + visible(nodes.last())
    }
}

/// The flattened text of `tree`: its visible texts that are not empty, with
/// one space between each two.
pub open spec fn body_text(tree: Tree) -> Seq<char> {
    joined_all(Seq::empty(), visible(tree))
}

/// Adding the pieces `a + b` is adding `a`, then `b`.
pub proof fn lemma_joined_all_concat(acc: Seq<char>, a: Seq<Seq<char>>, b: Seq<Seq<char>>)
    ensures
        joined_all(acc, a + b) == joined_all(joined_all(acc, a), b),
    decreases b.len(),
{
    if b.len() == 0 {
        assert(a + b =~= a);
    } else {
        assert((a + b).drop_last() =~= a + b.drop_last());
        assert((a + b).last() == b.last());
        lemma_joined_all_concat(acc, a, b.drop_last());
    }
}

/// Appends `val` to `buf`, after one space where `buf` is not empty. An
/// empty `val` leaves `buf` as it is.
pub fn push_text(buf: &mut String, val: &str)
    ensures
        final(buf)@ == joined(old(buf)@, val@),
{
    if val.is_empty() {
        return ;
    }
    if !buf.as_str().is_empty() {
        push_char(buf, ' ');
    }
    buf.append(val);
}

/// Adds the visible texts of `node` to `buf`, visiting each node before its
/// children and the children from first to last.
pub fn collect_text(node: &ParsedTree, buf: &mut String)
    ensures
        final(buf)@ == joined_all(old(buf)@, visible(node@)),
    decreases node,
{
    match node {
        ParsedTree::Text(v) => {
            proof {
                lemma_joined_one(buf@, v@);
            }
            push_text(buf, v.as_str());
        },
        ParsedTree::InlineCode(v) => {
            proof {
                lemma_joined_one(buf@, v@);
            }
            push_text(buf, v.as_str());
        },
        ParsedTree::CodeBlock(v) => {
            proof {
                lemma_joined_one(buf@, v@);
            }
            push_text(buf, v.as_str());
        },
        ParsedTree::MetadataHeader(_) => {},
        ParsedTree::RawEmbeddedMarkup(_) => {},
        ParsedTree::Heading(c) => collect_children(c, buf),
        ParsedTree::Paragraph(c) => collect_children(c, buf),
        ParsedTree::Link(c) => collect_children(c, buf),
        ParsedTree::List(c) => collect_children(c, buf),
        ParsedTree::Container(c) => collect_children(c, buf),
    }
}

/// Adding the one piece `piece` is `joined`.
proof fn lemma_joined_one(acc: Seq<char>, piece: Seq<char>)
    ensures
        joined_all(acc, seq![piece]) == joined(acc, piece),
{
    assert(seq![piece].drop_last() =~= Seq::<Seq<char>>::empty());
    assert(joined_all(acc, seq![piece].drop_last()) == acc);
}

/// Adds the visible texts of each of `children` to `buf`, from first to last.
fn collect_children(children: &Vec<ParsedTree>, buf: &mut String)
    ensures
        final(buf)@ == joined_all(old(buf)@, visible_all(forest(children@))),
    decreases children,
{
    let ghost nodes = forest(children@);
    let mut i: usize = 0;
    proof {
        assert(nodes.take(0) =~= Seq::<Tree>::empty());
    }
    while i < children.len()
        invariant
            nodes == forest(children@),
            i <= children@.len(),
            buf@ == joined_all(old(buf)@, visible_all(nodes.take(i as int))),
        decreases children@.len() - i,
    {
        proof {
            assert(nodes.take(i + 1).drop_last() =~= nodes.take(i as int));
            assert(nodes.take(i + 1).last() == children@[i as int]@);
            lemma_joined_all_concat(
                old(buf)@,
                visible_all(nodes.take(i as int)),
                visible(children@[i as int]@),
            );
        }
        collect_text(&children[i], buf);
        i = i + 1;
    }
    proof {
        assert(nodes.take(children@.len() as int) =~= nodes);
    }
}

/// The flattened text of a document: every piece of text and code that a
/// reader sees, in document order, with one space between each two.
pub fn body_text_from_ast(ast: &ParsedTree) -> (r: String)
    ensures
        r@ == body_text(ast@),
{
    let mut buf = String::new();
    collect_text(ast, &mut buf);
    buf
}

/// `reason`, marked with the slug of the post that it is about.
pub open spec fn tagged(slug: Seq<char>, reason: Seq<char>) -> Seq<char> {
    slug + ": "@ + reason
}

/// What the entry of a post is, given its slug, what became of decoding its
/// header, and its tree: a `ParseError` that names the slug where the header
/// could not be decoded or has no title, nothing where the post is a draft,
/// and the entry otherwise.
pub open spec fn listing_of(slug: Seq<char>, header: Result<Header, Seq<char>>, tree: Tree) -> Result<
    Option<Entry>,
    Failure,
> {
    match header {
        Err(message) => Err(Failure::ParseError(tagged(slug, message))),
        Ok(h) => if h.title.len() == 0 {
            Err(Failure::ParseError(tagged(slug, EMPTY_TITLE@)))
        } else if h.draft == Some(true) {
            Ok(None)
        } else {
            Ok(
                Some(
                    Entry {
                        title: h.title,
                        slug: slug,
                        date: h.date,
                        description: h.description,
                        body: body_text(tree),
                    },
                ),
            )
        },
    }
}

/// `reason`, marked with `slug`, as a `ParseError`.
fn refused(slug: &str, reason: &str) -> (r: AppError)
    ensures
        r@ == Failure::ParseError(tagged(slug@, reason@)),
{
    AppError::ParseError(String::from_str(slug).concat(": ").concat(reason))
}

/// A copy of `text`.
fn copied(text: &Option<String>) -> (r: Option<String>)
    ensures
        optional_text(r) == optional_text(*text),
{
    match text {
        Some(t) => Some(t.clone()),
        None => None,
    }
}

/// The entry of one post in the listing, from its slug, from what became of
/// decoding its header, and from its tree.
///
/// `Ok(None)` for a draft. A header that could not be decoded, and one
/// without a title, are refused with a `ParseError` that names the slug.
pub fn extract_listing(slug: &str, header: &Result<Frontmatter, String>, ast: &ParsedTree) -> (r:
    Result<Option<PostListing>, AppError>)
    ensures
        match r {
            Ok(Some(post)) => listing_of(slug@, decoded(*header), ast@) == Ok::<
                Option<Entry>,
                Failure,
            >(Some(post@)),
            Ok(None) => listing_of(slug@, decoded(*header), ast@) == Ok::<Option<Entry>, Failure>(
                None,
            ),
            Err(e) => listing_of(slug@, decoded(*header), ast@) == Err::<Option<Entry>, Failure>(
                e@,
            ),
        },
{
    match header {
        Err(message) => Err(refused(slug, message.as_str())),
        Ok(h) => {
            if h.title.as_str().unicode_len() == 0 {
                return Err(refused(slug, EMPTY_TITLE));
            }
            let draft = match h.draft {
                Some(flag) => flag,
                None => false,
            };
            if draft {
                return Ok(None);
            }
            Ok(
                Some(
                    PostListing {
                        title: h.title.clone(),
                        slug: String::from_str(slug),
                        date: copied(&h.date),
                        description: copied(&h.description),
                        body: body_text_from_ast(ast),
                    },
                ),
            )
        },
    }
}

/// Whether `a` stands before `b` in a listing. The later date first, as
/// dates are ordered as texts; a post with a date before every post without
/// one; and between posts that this leaves level, the slug that comes first
/// as a text.
pub open spec fn before(a: Entry, b: Entry) -> bool {
    match (a.date, b.date) {
        (Some(x), Some(y)) => text_less(y, x) || (x == y && text_less(a.slug, b.slug)),
        (Some(_), None) => true,
        (None, Some(_)) => false,
        (None, None) => text_less(a.slug, b.slug),
    }
}

/// The first position from `from` on in `sorted` whose entry `e` stands
/// before, or the length of `sorted`.
pub open spec fn slot_from(sorted: Seq<Entry>, e: Entry, from: int) -> int
    decreases sorted.len() - from,
{
    if from >= sorted.len() {
        sorted.len() as int
    } else if before(e, sorted[from]) {
        from
    } else {
        slot_from(sorted, e, from + 1)
    }
}

/// `posts` in the order of a listing: each entry, taken from first to last,
/// enters before the first entry that it stands before, so that entries which
/// are level keep the order in which they came.
pub open spec fn ordered(posts: Seq<Entry>) -> Seq<Entry>
    decreases posts.len(),
{
    if posts.len() == 0 {
        posts
    } else {
        let sorted = ordered(posts.drop_last());
        sorted.insert(slot_from(sorted, posts.last(), 0), posts.last())
    }
}

/// Whether `a` stands before `b` in a listing.
pub fn stands_before(a: &PostListing, b: &PostListing) -> (r: bool)
    ensures
        r == before(a@, b@),
{
    match (&a.date, &b.date) {
        (Some(x), Some(y)) => {
            if is_less(y.as_str(), x.as_str()) {
                true
            } else {
                is_same(x.as_str(), y.as_str()) && is_less(a.slug.as_str(), b.slug.as_str())
            }
        },
        (Some(_), None) => true,
        (None, Some(_)) => false,
        (None, None) => is_less(a.slug.as_str(), b.slug.as_str()),
    }
}

/// Puts `posts` in the order of a listing.
pub fn sort_posts(posts: Vec<PostListing>) -> (r: Vec<PostListing>)
    ensures
        entries(r@) == ordered(entries(posts@)),
        in_order(entries(r@)),
        entries(r@).to_multiset() == entries(posts@).to_multiset(),
{
    let ghost all = posts@;
    let mut rest = posts;
    let mut sorted: Vec<PostListing> = Vec::new();
    proof {
        assert(all.take(0) =~= Seq::<PostListing>::empty());
        assert(entries(all.take(0)) =~= Seq::<Entry>::empty());
        assert(entries(sorted@) =~= Seq::<Entry>::empty());
        assert(all.skip(0) =~= all);
    }
    while rest.len() > 0
        invariant
            rest@.len() <= all.len(),
            rest@ == all.skip(all.len() - rest@.len()),
            entries(sorted@) == ordered(entries(all.take(all.len() - rest@.len()))),
        decreases rest@.len(),
    {
        let ghost done = all.len() - rest@.len();
        let post = rest.remove(0);
        let mut j: usize = 0;
        while j < sorted.len() && !stands_before(&post, &sorted[j])
            invariant
                j <= sorted@.len(),
                slot_from(entries(sorted@), post@, 0) == slot_from(entries(sorted@), post@, j as int),
            decreases sorted@.len() - j,
        {
            j = j + 1;
        }
        proof {
            assert(post == all[done]);
            assert(all.take(done + 1).drop_last() =~= all.take(done));
            assert(entries(all.take(done + 1)).drop_last() =~= entries(all.take(done)));
            assert(entries(all.take(done + 1)).last() == post@);
            assert(entries(sorted@.insert(j as int, post)) =~= entries(sorted@).insert(
                j as int,
                post@,
            ));
            assert(all.skip(done).remove(0) =~= all.skip(done + 1));
        }
        sorted.insert(j, post);
    }
    proof {
        assert(all.take(all.len() as int) =~= all);
        lemma_ordered_is_in_order(entries(all));
        lemma_ordered_is_permutation(entries(all));
    }
    sorted
}

/// A directory that may hold a post: its name, and the post's document
/// where the directory holds the file that a post is kept in.
#[derive(Debug)]
pub struct PostCandidate {
    pub slug: String,
    pub file: Option<Loaded>,
}

/// The mathematical model of a `PostCandidate`.
pub ghost struct Candidate {
    pub slug: Seq<char>,
    pub file: Option<Material>,
}

impl View for PostCandidate {
    type V = Candidate;

    open spec fn view(&self) -> Candidate {
        Candidate {
            slug: self.slug@,
            file: match self.file {
                Some(doc) => Some(doc@),
                None => None,
            },
        }
    }
}

/// The models of `candidates`, in order.
pub open spec fn candidates_of(candidates: Seq<PostCandidate>) -> Seq<Candidate> {
    candidates.map_values(|c: PostCandidate| c@)
}

/// What one candidate gives to the listing. A directory without the file is
/// passed over in silence. A file that is there and does not parse, or whose
/// header cannot be decoded or has no title, is a `ParseError` that names the
/// slug. A draft gives nothing. Every other post gives its entry.
pub open spec fn post_of(c: Candidate) -> Result<Option<Entry>, Failure> {
    match c.file {
        None => Ok(None),
        Some(doc) => match doc.tree {
            Err(message) => Err(Failure::ParseError(tagged(c.slug, message))),
            Ok(tree) => listing_of(c.slug, doc.header, tree),
        },
    }
}

/// The first candidate from position `from` on that is refused, if any.
pub open spec fn first_refused(candidates: Seq<Candidate>, from: int) -> Option<int>
    decreases candidates.len() - from,
{
    if from >= candidates.len() {
        None
    } else if from >= 0 && post_of(candidates[from]) is Err {
        Some(from)
    } else {
        first_refused(candidates, from + 1)
    }
}

/// The entries of those of `candidates` that give one, in the order of the
/// candidates.
pub open spec fn published(candidates: Seq<Candidate>) -> Seq<Entry>
    decreases candidates.len(),
{
    if candidates.len() == 0 {
        Seq::empty()
    } else {
        match post_of(candidates.last()) {
            Ok(Some(e)) => published(candidates.drop_last()).push(e),
            _ => published(candidates.drop_last()),
        }
    }
}

/// The listing that `candidates` give: the failure of the first candidate
/// that is refused, if one is; else the entries of the posts that are there
/// and are no drafts, in the order of a listing.
pub open spec fn listing(candidates: Seq<Candidate>) -> Result<Seq<Entry>, Failure> {
    match first_refused(candidates, 0) {
        Some(i) => Err(post_of(candidates[i])->Err_0),
        None => Ok(ordered(published(candidates))),
    }
}

/// What one candidate gives to the listing.
pub fn candidate_post(candidate: &PostCandidate) -> (r: Result<Option<PostListing>, AppError>)
    ensures
        match r {
            Ok(Some(post)) => post_of(candidate@) == Ok::<Option<Entry>, Failure>(Some(post@)),
            Ok(None) => post_of(candidate@) == Ok::<Option<Entry>, Failure>(None),
            Err(e) => post_of(candidate@) == Err::<Option<Entry>, Failure>(e@),
        },
{
    match &candidate.file {
        None => Ok(None),
        Some(doc) => match &doc.tree {
            Err(message) => Err(refused(candidate.slug.as_str(), message.as_str())),
            Ok(tree) => extract_listing(candidate.slug.as_str(), &doc.header, tree),
        },
    }
}

/// Builds the listing of the posts among `candidates`.
///
/// A directory without a post's file is passed over. A file that is there
/// and is refused ends the whole build with a `ParseError` that names its
/// slug: nothing is listed then. Drafts are left out. What remains is put in
/// the order of a listing.
pub fn list_posts(candidates: &Vec<PostCandidate>) -> (r: Result<Vec<PostListing>, AppError>)
    ensures
        match r {
            Ok(posts) => listing(candidates_of(candidates@)) == Ok::<Seq<Entry>, Failure>(
                entries(posts@),
            ) && in_order(entries(posts@)) && entries(posts@).to_multiset() == published(
                candidates_of(candidates@),
            ).to_multiset(),
            Err(e) => listing(candidates_of(candidates@)) == Err::<Seq<Entry>, Failure>(e@),
        },
{
    let ghost all = candidates_of(candidates@);
    let mut posts: Vec<PostListing> = Vec::new();
    let mut i: usize = 0;
    proof {
        assert(all.take(0) =~= Seq::<Candidate>::empty());
        assert(entries(posts@) =~= Seq::<Entry>::empty());
    }
    while i < candidates.len()
        invariant
            all == candidates_of(candidates@),
            i <= candidates@.len(),
            first_refused(all, 0) == first_refused(all, i as int),
            entries(posts@) == published(all.take(i as int)),
        decreases candidates@.len() - i,
    {
        proof {
            assert(all[i as int] == candidates@[i as int]@);
            assert(all.take(i + 1).drop_last() =~= all.take(i as int));
            assert(all.take(i + 1).last() == all[i as int]);
        }
        match candidate_post(&candidates[i]) {
            Err(e) => {
                return Err(e);
            },
            Ok(None) => {},
            Ok(Some(post)) => {
                proof {
                    assert(entries(posts@.push(post)) =~= entries(posts@).push(post@));
                }
                posts.push(post);
            },
        }
        i = i + 1;
    }
    proof {
        assert(all.take(candidates@.len() as int) =~= all);
    }
    Ok(sort_posts(posts))
}

/// Whether `a` and `b` are the same to a reader: the same tree but for the
/// payloads of metadata headers and of raw embedded markup, which may differ
/// freely.
pub open spec fn alike(a: Tree, b: Tree) -> bool
    decreases a,
{
    match (a, b) {
        (Tree::MetadataHeader(_), Tree::MetadataHeader(_)) => true,
        (Tree::RawEmbeddedMarkup(_), Tree::RawEmbeddedMarkup(_)) => true,
        (Tree::Text(x), Tree::Text(y)) => x == y,
        (Tree::InlineCode(x), Tree::InlineCode(y)) => x == y,
        (Tree::CodeBlock(x), Tree::CodeBlock(y)) => x == y,
        (Tree::Heading(x), Tree::Heading(y)) => alike_all(x, y),
        (Tree::Paragraph(x), Tree::Paragraph(y)) => alike_all(x, y),
        (Tree::Link(x), Tree::Link(y)) => alike_all(x, y),
        (Tree::List(x), Tree::List(y)) => alike_all(x, y),
        (Tree::Container(x), Tree::Container(y)) => alike_all(x, y),
        _ => false,
    }
}

/// Whether `a` and `b` are as long as each other and alike node by node.
pub open spec fn alike_all(a: Seq<Tree>, b: Seq<Tree>) -> bool
    decreases a,
{
    a.len() == b.len() && forall|i: int| 0 <= i < a.len() ==> alike(#[trigger] a[i], b[i])
}

/// The flattened text holds nothing of a metadata header and nothing of raw
/// embedded markup: two trees that differ in those payloads alone have the
/// same text.
pub proof fn lemma_hidden_payloads_are_silent(a: Tree, b: Tree)
    requires
        alike(a, b),
    ensures
        visible(a) == visible(b),
        body_text(a) == body_text(b),
    decreases a,
{
    match (a, b) {
        (Tree::Heading(x), Tree::Heading(y)) => lemma_hidden_payloads_are_silent_all(x, y),
        (Tree::Paragraph(x), Tree::Paragraph(y)) => lemma_hidden_payloads_are_silent_all(x, y),
        (Tree::Link(x), Tree::Link(y)) => lemma_hidden_payloads_are_silent_all(x, y),
        (Tree::List(x), Tree::List(y)) => lemma_hidden_payloads_are_silent_all(x, y),
        (Tree::Container(x), Tree::Container(y)) => lemma_hidden_payloads_are_silent_all(x, y),
        _ => {},
    }
}

/// The same of two rows of trees.
pub proof fn lemma_hidden_payloads_are_silent_all(a: Seq<Tree>, b: Seq<Tree>)
    requires
        alike_all(a, b),
    ensures
        visible_all(a) == visible_all(b),
    decreases a,
{
    if a.len() > 0 {
        assert(alike(a[a.len() - 1], b[a.len() - 1]));
        lemma_hidden_payloads_are_silent(a.last(), b.last());
        assert(alike_all(a.drop_last(), b.drop_last())) by {
            assert forall|i: int| 0 <= i < a.drop_last().len() implies alike(
                #[trigger] a.drop_last()[i],
                b.drop_last()[i],
            ) by {
                assert(alike(a[i], b[i]));
            }
        }
        lemma_hidden_payloads_are_silent_all(a.drop_last(), b.drop_last());
    }
}

/// A draft never enters the listing, and a directory without the file never
/// fails the build.
pub proof fn lemma_drafts_and_gaps(c: Candidate)
    ensures
        c.file is None ==> post_of(c) == Ok::<Option<Entry>, Failure>(None),
        (c.file is Some && c.file->Some_0.tree is Ok && c.file->Some_0.header is Ok
            && c.file->Some_0.header->Ok_0.draft == Some(true)) ==> !(post_of(c) matches Ok(
            Some(_),
        )),
{
}

/// The listing is made of exactly the candidates that give an entry: what
/// `published` holds is what is left of the candidates when those that give
/// none are taken out, each turned into its entry.
pub proof fn lemma_published_is_filter(candidates: Seq<Candidate>)
    ensures
        published(candidates) == candidates.filter(
            |c: Candidate| post_of(c) matches Ok(Some(_)),
        ).map_values(|c: Candidate| post_of(c)->Ok_0->Some_0),
    decreases candidates.len(),
{
    let keep = |c: Candidate| post_of(c) matches Ok(Some(_));
    let entry = |c: Candidate| post_of(c)->Ok_0->Some_0;
    reveal(Seq::filter);
    if candidates.len() > 0 {
        lemma_published_is_filter(candidates.drop_last());
        let front = candidates.drop_last().filter(keep);
        if keep(candidates.last()) {
            assert(candidates.filter(keep) == front.push(candidates.last()));
            assert(front.push(candidates.last()).map_values(entry) =~= front.map_values(
                entry,
            ).push(entry(candidates.last())));
        } else {
            assert(candidates.filter(keep) == front);
        }
    } else {
        assert(candidates.filter(keep).map_values(entry) =~= Seq::<Entry>::empty());
    }
}

} // verus!
