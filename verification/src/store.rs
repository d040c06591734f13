//! The store: every page of the site rendered once, the listing of posts,
//! and the listing's page. It is built in one pass and only read afterwards.

use vstd::prelude::*;
use vstd::string::*;
use crate::bridge::{html_of, to_html};
use crate::error::{AppError, Failure};
use crate::mdx_options::{default_mdx_compile_options, site_options};
use crate::order::{in_order, lemma_ordered_is_in_order};
use crate::page::{Loaded, Material, Meta, extract_meta, meta_of};
use crate::post::{
    Candidate,
    Entry,
    PostCandidate,
    PostListing,
    candidates_of,
    entries,
    list_posts,
    listing,
    published,
    tagged,
};
use crate::template::{page, post_list, render_page, render_post_list};
use crate::text::{chars_of, is_same, text_of};

verus! {

/// A page as the store keeps it.
#[derive(Debug)]
pub struct PageRecord {
    pub key: String,
    pub title: String,
    /// At least 1.
    pub read_time_mins: usize,
    /// The whole HTML document of the page.
    pub rendered_html: String,
}

/// The mathematical model of a `PageRecord`.
pub ghost struct Record {
    pub key: Seq<char>,
    pub title: Seq<char>,
    pub read_time_mins: nat,
    pub rendered_html: Seq<char>,
}

impl View for PageRecord {
    type V = Record;

    open spec fn view(&self) -> Record {
        Record {
            key: self.key@,
            title: self.title@,
            read_time_mins: self.read_time_mins as nat,
            rendered_html: self.rendered_html@,
        }
    }
}

/// The models of `records`, in order.
pub open spec fn records_of(records: Seq<PageRecord>) -> Seq<Record> {
    records.map_values(|r: PageRecord| r@)
}

/// A page outside the posts: its key, and its document.
#[derive(Debug)]
pub struct PageSource {
    pub key: String,
    pub document: Loaded,
}

/// The mathematical model of a `PageSource`.
pub ghost struct Source {
    pub key: Seq<char>,
    pub document: Material,
}

impl View for PageSource {
    type V = Source;

    open spec fn view(&self) -> Source {
        Source { key: self.key@, document: self.document@ }
    }
}

/// The models of `sources`, in order.
pub open spec fn sources_of(sources: Seq<PageSource>) -> Seq<Source> {
    sources.map_values(|s: PageSource| s@)
}

/// The key of the post with the slug `slug`.
pub open spec fn post_key_of(slug: Seq<char>) -> Seq<char> {
    "blog/"@ + slug
}

/// Whether a record keeps what every accepted document has: a title, and a
/// reading time of a minute or more.
pub open spec fn sound(record: Record) -> bool {
    record.title.len() > 0 && record.read_time_mins >= 1
}

/// The record of the document `doc` under `key`, given what rendering its
/// body gave: the parser's message, the failure of the metadata, or the
/// renderer's message, whichever comes first, each as a `ParseError`; else
/// the page with its title, its reading time and its whole HTML document.
pub open spec fn record_of(key: Seq<char>, doc: Material, html: Result<Seq<char>, Seq<char>>) -> Result<
    Record,
    Failure,
> {
    match doc.tree {
        Err(message) => Err(Failure::ParseError(message)),
        Ok(_) => match meta_of(doc.header, doc.content) {
            Err(e) => Err(e),
            Ok(meta) => match html {
                Err(message) => Err(Failure::ParseError(message)),
                Ok(fragment) => Ok(
                    Record {
                        key: key,
                        title: meta.title,
                        read_time_mins: meta.read_time_mins,
                        rendered_html: page(meta, fragment),
                    },
                ),
            },
        },
    }
}

/// The record of the page `source`.
pub open spec fn page_record(source: Source) -> Result<Record, Failure> {
    record_of(source.key, source.document, html_of(source.document.content, site_options()))
}

/// The record of the post that `c` holds, under the post's key; a failure
/// names the slug. A directory without the file has no record.
pub open spec fn post_record(c: Candidate) -> Result<Option<Record>, Failure> {
    match c.file {
        None => Ok(None),
        Some(doc) => match record_of(post_key_of(c.slug), doc, html_of(doc.content, site_options())) {
            Ok(record) => Ok(Some(record)),
            Err(Failure::ParseError(message)) => Err(Failure::ParseError(tagged(c.slug, message))),
            Err(e) => Err(e),
        },
    }
}

/// The records of `sources`, in order, or the failure of the first of them
/// that has one.
pub open spec fn page_records(sources: Seq<Source>) -> Result<Seq<Record>, Failure>
    decreases sources.len(),
{
    if sources.len() == 0 {
        Ok(Seq::empty())
    } else {
        match page_records(sources.drop_last()) {
            Err(e) => Err(e),
            Ok(records) => match page_record(sources.last()) {
                Err(e) => Err(e),
                Ok(record) => Ok(records.push(record)),
            },
        }
    }
}

/// The records of the posts among `candidates`, in order, or the failure of
/// the first of them that has one.
pub open spec fn post_records(candidates: Seq<Candidate>) -> Result<Seq<Record>, Failure>
    decreases candidates.len(),
{
    if candidates.len() == 0 {
        Ok(Seq::empty())
    } else {
        match post_records(candidates.drop_last()) {
            Err(e) => Err(e),
            Ok(records) => match post_record(candidates.last()) {
                Err(e) => Err(e),
                Ok(None) => Ok(records),
                Ok(Some(record)) => Ok(records.push(record)),
            },
        }
    }
}

/// What a store holds.
pub ghost struct Shelf {
    /// The records, in the order in which they were stored.
    pub records: Seq<Record>,
    /// The listing of the posts.
    pub posts: Seq<Entry>,
    /// The page of the listing.
    pub blog_html: Seq<char>,
}

/// What building a store from `sources` and `candidates` gives. The pages
/// are rendered first, then the listing is made, then the posts are rendered;
/// the first failure on that way ends the build, and nothing is stored. A
/// draft is kept out of the listing and has its page all the same.
pub open spec fn built(sources: Seq<Source>, candidates: Seq<Candidate>) -> Result<Shelf, Failure> {
    match page_records(sources) {
        Err(e) => Err(e),
        Ok(pages) => match listing(candidates) {
            Err(e) => Err(e),
            Ok(posts) => match post_records(candidates) {
                Err(e) => Err(e),
                Ok(more) => Ok(
                    Shelf { records: pages + more, posts: posts, blog_html: post_list(posts) },
                ),
            },
        },
    }
}

/// The record that was stored last under `key`, if any.
pub open spec fn found(records: Seq<Record>, key: Seq<char>) -> Option<Record>
    decreases records.len(),
{
    if records.len() == 0 {
        None
    } else if records.last().key == key {
        Some(records.last())
    } else {
        found(records.drop_last(), key)
    }
}

/// The key of the post with the slug `slug`: `blog/`, then the slug.
pub fn post_key(slug: &str) -> (r: String)
    ensures
        r@ == post_key_of(slug@),
{
    String::from_str("blog/").concat(slug)
}

/// The record of `doc` under `key`, given what rendering its body gave.
pub fn build_record(key: &str, doc: &Loaded, html: Result<String, String>) -> (r: Result<
    PageRecord,
    AppError,
>)
    ensures
        match r {
            Ok(record) => record_of(key@, doc@, rendered(html)) == Ok::<Record, Failure>(record@)
                && sound(record@),
            Err(e) => record_of(key@, doc@, rendered(html)) == Err::<Record, Failure>(e@),
        },
{
    match &doc.tree {
        Err(message) => Err(AppError::ParseError(message.clone())),
        Ok(_) => match extract_meta(&doc.header, doc.content.as_str()) {
            Err(e) => Err(e),
            Ok(meta) => match html {
                Err(message) => Err(AppError::ParseError(message)),
                Ok(fragment) => {
                    let whole = render_page(&meta, fragment.as_str());
                    Ok(
                        PageRecord {
                            key: String::from_str(key),
                            title: meta.title,
                            read_time_mins: meta.read_time_mins,
                            rendered_html: whole,
                        },
                    )
                },
            },
        },
    }
}

/// What became of rendering a body: the fragment, or the renderer's message.
pub open spec fn rendered(html: Result<String, String>) -> Result<Seq<char>, Seq<char>> {
    match html {
        Ok(fragment) => Ok(fragment@),
        Err(message) => Err(message@),
    }
}

/// Renders the document `doc` and makes its record under `key`.
pub fn render_document(key: &str, doc: &Loaded) -> (r: Result<PageRecord, AppError>)
    ensures
        match r {
            Ok(record) => record_of(key@, doc@, html_of(doc@.content, site_options())) == Ok::<
                Record,
                Failure,
            >(record@) && sound(record@),
            Err(e) => record_of(key@, doc@, html_of(doc@.content, site_options())) == Err::<
                Record,
                Failure,
            >(e@),
        },
{
    let options = default_mdx_compile_options();
    let html = to_html(doc.content.as_str(), &options);
    build_record(key, doc, html)
}

/// The record of the post that `candidate` holds; a failure names the slug.
pub fn render_post(candidate: &PostCandidate) -> (r: Result<Option<PageRecord>, AppError>)
    ensures
        match r {
            Ok(Some(record)) => post_record(candidate@) == Ok::<Option<Record>, Failure>(
                Some(record@),
            ) && sound(record@),
            Ok(None) => post_record(candidate@) == Ok::<Option<Record>, Failure>(None),
            Err(e) => post_record(candidate@) == Err::<Option<Record>, Failure>(e@),
        },
{
    match &candidate.file {
        None => Ok(None),
        Some(doc) => {
            let key = post_key(candidate.slug.as_str());
            match render_document(key.as_str(), doc) {
                Ok(record) => Ok(Some(record)),
                Err(AppError::ParseError(message)) => Err(
                    AppError::ParseError(
                        String::from_str(candidate.slug.as_str()).concat(": ").concat(
                            message.as_str(),
                        ),
                    ),
                ),
                Err(e) => Err(e),
            }
        },
    }
}

/// The store of a site. It is made by `build` alone and never changed after.
pub struct PageStore {
    pages: Vec<PageRecord>,
    posts: Vec<PostListing>,
    blog_html: String,
}

impl PageStore {
    #[verifier::type_invariant]
    spec fn well_formed(self) -> bool {
        &&& forall|i: int| 0 <= i < self.pages@.len() ==> sound(#[trigger] self.pages@[i]@)
        &&& self.blog_html@ == post_list(entries(self.posts@))
        &&& in_order(entries(self.posts@))
    }

    /// What the store holds.
    pub closed spec fn shelf(self) -> Shelf {
        Shelf {
            records: records_of(self.pages@),
            posts: entries(self.posts@),
            blog_html: self.blog_html@,
        }
    }

    /// Builds the store from the pages and from the directories that may
    /// hold posts. Any failure ends the build: no store comes back then.
    pub fn build(sources: &Vec<PageSource>, candidates: &Vec<PostCandidate>) -> (r: Result<
        PageStore,
        AppError,
    >)
        ensures
            match r {
                Ok(store) => built(sources_of(sources@), candidates_of(candidates@)) == Ok::<
                    Shelf,
                    Failure,
                >(store.shelf()),
                Err(e) => built(sources_of(sources@), candidates_of(candidates@)) == Err::<
                    Shelf,
                    Failure,
                >(e@),
            },
    {
        let ghost given = sources_of(sources@);
        let ghost all = candidates_of(candidates@);
        let mut pages: Vec<PageRecord> = Vec::new();
        let mut i: usize = 0;
        proof {
            assert(given.take(0) =~= Seq::<Source>::empty());
            assert(records_of(pages@) =~= Seq::<Record>::empty());
        }
        while i < sources.len()
            invariant
                given == sources_of(sources@),
                i <= sources@.len(),
                page_records(given.take(i as int)) == Ok::<Seq<Record>, Failure>(
                    records_of(pages@),
                ),
                forall|k: int| 0 <= k < pages@.len() ==> sound(#[trigger] pages@[k]@),
            decreases sources@.len() - i,
        {
            proof {
                assert(given[i as int] == sources@[i as int]@);
                assert(given.take(i + 1).drop_last() =~= given.take(i as int));
                assert(given.take(i + 1).last() == given[i as int]);
            }
            match render_document(sources[i].key.as_str(), &sources[i].document) {
                Err(e) => {
                    proof {
                        lemma_page_records_fail(given, i + 1);
                    }
                    return Err(e);
                },
                Ok(record) => {
                    proof {
                        assert(records_of(pages@.push(record)) =~= records_of(pages@).push(
                            record@,
                        ));
                    }
                    pages.push(record);
                },
            }
            i = i + 1;
        }
        proof {
            assert(given.take(sources@.len() as int) =~= given);
        }
        let ghost first = records_of(pages@);
        let posts = match list_posts(candidates) {
            Err(e) => {
                return Err(e);
            },
            Ok(posts) => posts,
        };
        let mut j: usize = 0;
        let ghost mut more = Seq::<Record>::empty();
        proof {
            assert(all.take(0) =~= Seq::<Candidate>::empty());
            assert(first + more =~= first);
        }
        while j < candidates.len()
            invariant
                all == candidates_of(candidates@),
                page_records(sources_of(sources@)) == Ok::<Seq<Record>, Failure>(first),
                listing(all) == Ok::<Seq<Entry>, Failure>(entries(posts@)),
                j <= candidates@.len(),
                post_records(all.take(j as int)) == Ok::<Seq<Record>, Failure>(more),
                records_of(pages@) == first + more,
                forall|k: int| 0 <= k < pages@.len() ==> sound(#[trigger] pages@[k]@),
            decreases candidates@.len() - j,
        {
            proof {
                assert(all[j as int] == candidates@[j as int]@);
                assert(all.take(j + 1).drop_last() =~= all.take(j as int));
                assert(all.take(j + 1).last() == all[j as int]);
            }
            match render_post(&candidates[j]) {
                Err(e) => {
                    proof {
                        lemma_post_records_fail(all, j + 1);
                    }
                    return Err(e);
                },
                Ok(None) => {},
                Ok(Some(record)) => {
                    proof {
                        assert(records_of(pages@.push(record)) =~= records_of(pages@).push(
                            record@,
                        ));
                        assert((first + more).push(record@) =~= first + more.push(record@));
                        more = more.push(record@);
                    }
                    pages.push(record);
                },
            }
            j = j + 1;
        }
        proof {
            assert(all.take(candidates@.len() as int) =~= all);
        }
        let blog_html = render_post_list(&posts);
        Ok(PageStore { pages, posts, blog_html })
    }

    /// The record that was stored last under `key`, if there is one.
    pub fn lookup(&self, key: &str) -> (r: Option<&PageRecord>)
        ensures
            match r {
                Some(record) => found(self.shelf().records, key@) == Some(record@) && record@.key
                    == key@ && sound(record@),
                None => found(self.shelf().records, key@).is_none(),
            },
    {
        proof {
            use_type_invariant(self);
        }
        let ghost all = records_of(self.pages@);
        let mut i: usize = self.pages.len();
        proof {
            assert(all.take(i as int) =~= all);
        }
        while i > 0
            invariant
                all == records_of(self.pages@),
                i <= self.pages@.len(),
                found(all, key@) == found(all.take(i as int), key@),
                forall|k: int| 0 <= k < self.pages@.len() ==> sound(#[trigger] self.pages@[k]@),
            decreases i,
        {
            i = i - 1;
            proof {
                assert(all.take(i + 1).drop_last() =~= all.take(i as int));
                assert(all.take(i + 1).last() == self.pages@[i as int]@);
            }
            if is_same(self.pages[i].key.as_str(), key) {
                return Some(&self.pages[i]);
            }
        }
        None
    }

    /// The page stored under `key`, or `NotFound` with the key.
    pub fn find(&self, key: &str) -> (r: Result<&PageRecord, AppError>)
        ensures
            match r {
                Ok(record) => found(self.shelf().records, key@) == Some(record@),
                Err(e) => found(self.shelf().records, key@).is_none() && e@ == Failure::NotFound(
                    key@,
                ),
            },
    {
        match self.lookup(key) {
            Some(record) => Ok(record),
            None => Err(AppError::NotFound(String::from_str(key))),
        }
    }

    /// The page of the listing of posts, as it was rendered when the store
    /// was built.
    pub fn blog_listing(&self) -> (r: &str)
        ensures
            r@ == self.shelf().blog_html,
            r@ == post_list(self.shelf().posts),
    {
        proof {
            use_type_invariant(self);
        }
        self.blog_html.as_str()
    }

    /// The listing of posts, in the order of the listing: the records of the
    /// search index.
    pub fn posts(&self) -> (r: &Vec<PostListing>)
        ensures
            entries(r@) == self.shelf().posts,
            in_order(entries(r@)),
    {
        proof {
            use_type_invariant(self);
        }
        &self.posts
    }
}

/// Once the first `upto` pages fail, all of them do, with the same failure.
proof fn lemma_page_records_fail(sources: Seq<Source>, upto: int)
    requires
        0 <= upto <= sources.len(),
        page_records(sources.take(upto)) is Err,
    ensures
        page_records(sources) == page_records(sources.take(upto)),
    decreases sources.len() - upto,
{
    if upto == sources.len() {
        assert(sources.take(upto) =~= sources);
    } else {
        assert(sources.take(upto + 1).drop_last() =~= sources.take(upto));
        lemma_page_records_fail(sources, upto + 1);
    }
}

/// Once the first `upto` candidates fail, all of them do, with the same
/// failure.
proof fn lemma_post_records_fail(candidates: Seq<Candidate>, upto: int)
    requires
        0 <= upto <= candidates.len(),
        post_records(candidates.take(upto)) is Err,
    ensures
        post_records(candidates) == post_records(candidates.take(upto)),
    decreases candidates.len() - upto,
{
    if upto == candidates.len() {
        assert(candidates.take(upto) =~= candidates);
    } else {
        assert(candidates.take(upto + 1).drop_last() =~= candidates.take(upto));
        lemma_post_records_fail(candidates, upto + 1);
    }
}

/// Whether `path` ends with the four characters `.mdx`.
pub open spec fn has_extension(path: Seq<char>) -> bool {
    &&& path.len() >= 4
    &&& path[path.len() - 4] == '.'
    &&& path[path.len() - 3] == 'm'
    &&& path[path.len() - 2] == 'd'
    &&& path[path.len() - 1] == 'x'
}

/// The key of the page that is kept at `path`: the path without its
/// extension.
pub open spec fn page_key_of(path: Seq<char>) -> Seq<char> {
    if has_extension(path) {
        path.take(path.len() - 4)
    } else {
        path
    }
}

/// The key of the page that is kept in the file at `path`, a path below the
/// directory of the pages: the path without its extension `.mdx`.
pub fn page_key(path: &str) -> (r: String)
    ensures
        r@ == page_key_of(path@),
{
    let chars = chars_of(path);
    let n: usize = chars.len();
    if n >= 4 && chars[n - 4] == '.' && chars[n - 3] == 'm' && chars[n - 2] == 'd' && chars[n - 1]
        == 'x' {
        let key = text_of(&chars, 0, n - 4);
        assert(path@.subrange(0, n - 4) =~= path@.take(n - 4));
        key
    } else {
        String::from_str(path)
    }
}

/// A document that parsed, whose header was decoded with a title, and whose
/// body was rendered is accepted, under exactly that title and with a
/// reading time of a minute or more.
pub proof fn lemma_sound_document_is_accepted(key: Seq<char>, doc: Material, fragment: Seq<char>)
    requires
        doc.tree is Ok,
        doc.header is Ok,
        doc.header->Ok_0.title.len() > 0,
    ensures
        record_of(key, doc, Ok(fragment)) is Ok,
        record_of(key, doc, Ok(fragment))->Ok_0.key == key,
        record_of(key, doc, Ok(fragment))->Ok_0.title == doc.header->Ok_0.title,
        sound(record_of(key, doc, Ok(fragment))->Ok_0),
{
}

/// Every record that `record_of` gives has a title and a reading time of a
/// minute or more.
pub proof fn lemma_record_is_sound(key: Seq<char>, doc: Material, html: Result<Seq<char>, Seq<char>>)
    requires
        record_of(key, doc, html) is Ok,
    ensures
        sound(record_of(key, doc, html)->Ok_0),
        record_of(key, doc, html)->Ok_0.key == key,
{
}

/// What a built store holds: every record has a title and a reading time of
/// a minute or more, the listing is in order, and the page of the listing
/// shows exactly the listing.
pub proof fn lemma_built_is_sound(sources: Seq<Source>, candidates: Seq<Candidate>)
    requires
        built(sources, candidates) is Ok,
    ensures
        forall|i: int|
            0 <= i < built(sources, candidates)->Ok_0.records.len() ==> sound(
                #[trigger] built(sources, candidates)->Ok_0.records[i],
            ),
        in_order(built(sources, candidates)->Ok_0.posts),
        built(sources, candidates)->Ok_0.blog_html == post_list(
            built(sources, candidates)->Ok_0.posts,
        ),
{
    lemma_page_records_sound(sources);
    lemma_post_records_sound(candidates);
    lemma_ordered_is_in_order(published(candidates));
}

/// Every record of the pages is sound.
proof fn lemma_page_records_sound(sources: Seq<Source>)
    requires
        page_records(sources) is Ok,
    ensures
        forall|i: int|
            0 <= i < page_records(sources)->Ok_0.len() ==> sound(
                #[trigger] page_records(sources)->Ok_0[i],
            ),
    decreases sources.len(),
{
    if sources.len() > 0 {
        lemma_page_records_sound(sources.drop_last());
    }
}

/// Every record of the posts is sound.
proof fn lemma_post_records_sound(candidates: Seq<Candidate>)
    requires
        post_records(candidates) is Ok,
    ensures
        forall|i: int|
            0 <= i < post_records(candidates)->Ok_0.len() ==> sound(
                #[trigger] post_records(candidates)->Ok_0[i],
            ),
    decreases candidates.len(),
{
    if candidates.len() > 0 {
        lemma_post_records_sound(candidates.drop_last());
    }
}

} // verus!
