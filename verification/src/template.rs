//! The renderer: the HTML of a page and of the listing of posts, inside the
//! shell that every page of the site shares.
//!
//! Whatever a writer supplied as a plain value (a title, a date, a
//! description, a slug) is escaped before it enters the markup. The fragment
//! that the grammar made of a body is HTML already and enters as it is.

use vstd::prelude::*;
use vstd::string::*;
use crate::constants::{
    GITHUB_URL,
    LINKEDIN_URL,
    SHELL_AFTER_BODY,
    SHELL_AFTER_GITHUB,
    SHELL_AFTER_LINKEDIN,
    SHELL_AFTER_STYLES,
    SHELL_AFTER_TITLE,
    SHELL_CLOSE,
    SHELL_OPEN,
    STYLES,
    THEME_SCRIPT,
};
use crate::page::{Meta, PageMeta};
use crate::post::{Entry, PostListing, entries};
use crate::text::{chars_of, decimal, decimal_text, push_char};

verus! {

/// What stands for `c` in HTML: an entity for each of the four characters
/// that carry meaning there, and `c` itself otherwise.
pub open spec fn escaped_char(c: char) -> Seq<char> {
    if c == '&' {
        "&amp;"@
    } else if c == '<' {
        "&lt;"@
    } else if c == '>' {
        "&gt;"@
    } else if c == '"' {
        "&quot;"@
    } else {
        seq![c]
    }
}

/// `text` with each character replaced by what stands for it in HTML.
pub open spec fn escaped(text: Seq<char>) -> Seq<char>
    decreases text.len(),
{
    if text.len() == 0 {
        Seq::empty()
    } else {
        escaped(text.drop_last()) + escaped_char(text.last())
    }
}

/// The whole document that wraps `body`: the shared frame with the escaped
/// `title` as the title of the tab, the style sheet, `body` as it is inside
/// the main part, the two profile links, and the script.
pub open spec fn shell(title: Seq<char>, body: Seq<char>) -> Seq<char> {
    SHELL_OPEN@ + escaped(title) + SHELL_AFTER_TITLE@ + STYLES@ + SHELL_AFTER_STYLES@ + body
        + SHELL_AFTER_BODY@ + LINKEDIN_URL@ + SHELL_AFTER_LINKEDIN@ + GITHUB_URL@
        + SHELL_AFTER_GITHUB@ + THEME_SCRIPT@ + SHELL_CLOSE@
}

/// The content of a page: the escaped title as a heading, the reading time,
/// and the fragment `html` inside its container.
pub open spec fn page_body(meta: Meta, html: Seq<char>) -> Seq<char> {
    "<h1 class=\"page-title\">"@ + escaped(meta.title) + "</h1>\n<p class=\"read-time\">"@
        + decimal_text(meta.read_time_mins) + " min read</p>\n<div class=\"content\">"@ + html
        + "</div>"@
}

/// The whole document of a page.
pub open spec fn page(meta: Meta, html: Seq<char>) -> Seq<char> {
    shell(meta.title, page_body(meta, html))
}

/// The line of a list item that shows the date, where there is one.
pub open spec fn date_line(date: Option<Seq<char>>) -> Seq<char> {
    match date {
        Some(d) => "<p class=\"post-meta\">"@ + escaped(d) + "</p>"@,
        None => Seq::empty(),
    }
}

/// The line of a list item that shows the description, where there is one.
pub open spec fn description_line(description: Option<Seq<char>>) -> Seq<char> {
    match description {
        Some(d) => "<p class=\"post-desc\">"@ + escaped(d) + "</p>"@,
        None => Seq::empty(),
    }
}

/// The list item of one post: its title as a link to the post's address,
/// then its date and its description, where it has them.
pub open spec fn list_item(post: Entry) -> Seq<char> {
    "<li><a href=\"/blog/"@ + escaped(post.slug) + "\">"@ + escaped(post.title) + "</a>"@
        + date_line(post.date) + description_line(post.description) + "</li>"@
}

/// The list items of `posts`, one after the other.
pub open spec fn list_items(posts: Seq<Entry>) -> Seq<char>
    decreases posts.len(),
{
    if posts.len() == 0 {
        Seq::empty()
    } else {
        list_items(posts.drop_last()) + list_item(posts.last())
    }
}

/// The whole document of the listing of `posts`, in the order given.
pub open spec fn post_list(posts: Seq<Entry>) -> Seq<char> {
    shell("Posts"@, "<h1>Posts</h1><ul class=\"post-list\">"@ + list_items(posts) + "</ul>"@)
}

/// Replaces each of `&`, `<`, `>` and `"` in `s` by its entity, so that the
/// result can stand as text or inside an attribute.
pub fn escape_html(s: &str) -> (r: String)
    ensures
        r@ == escaped(s@),
{
    let chars = chars_of(s);
    let mut out = String::new();
    let mut i: usize = 0;
    proof {
        assert(s@.take(0) =~= Seq::<char>::empty());
    }
    while i < chars.len()
        invariant
            chars@ == s@,
            i <= chars@.len(),
            out@ == escaped(s@.take(i as int)),
        decreases chars@.len() - i,
    {
        let c = chars[i];
        proof {
            assert(s@.take(i + 1).drop_last() =~= s@.take(i as int));
            assert(s@.take(i + 1).last() == c);
        }
        if c == '&' {
            out.append("&amp;");
        } else if c == '<' {
            out.append("&lt;");
        } else if c == '>' {
            out.append("&gt;");
        } else if c == '"' {
            out.append("&quot;");
        } else {
            push_char(&mut out, c);
            assert(out@ =~= escaped(s@.take(i as int)) + seq![c]);
        }
        i = i + 1;
    }
    proof {
        assert(s@.take(chars@.len() as int) =~= s@);
    }
    out
}

/// Wraps `body_content` in the shell that every page shares. `page_title` is
/// escaped; `body_content` is placed as it is, so whoever builds it escapes
/// what a writer supplied.
pub fn html_shell(page_title: &str, body_content: &str) -> (r: String)
    ensures
        r@ == shell(page_title@, body_content@),
{
    let title = escape_html(page_title);
    let mut out = String::from_str(SHELL_OPEN);
    out.append(title.as_str());
    out.append(SHELL_AFTER_TITLE);
    out.append(STYLES);
    out.append(SHELL_AFTER_STYLES);
    out.append(body_content);
    out.append(SHELL_AFTER_BODY);
    out.append(LINKEDIN_URL);
    out.append(SHELL_AFTER_LINKEDIN);
    out.append(GITHUB_URL);
    out.append(SHELL_AFTER_GITHUB);
    out.append(THEME_SCRIPT);
    out.append(SHELL_CLOSE);
    out
}

/// The whole document of a page: the title as a heading, the reading time
/// as `N min read`, and the rendered fragment `html_content`, inside the
/// shell. The title is escaped, the fragment is not.
pub fn render_page(meta: &PageMeta, html_content: &str) -> (r: String)
    ensures
        r@ == page(meta@, html_content@),
{
    let title = escape_html(meta.title.as_str());
    let minutes = decimal(meta.read_time_mins);
    let mut body = String::from_str("<h1 class=\"page-title\">");
    body.append(title.as_str());
    body.append("</h1>\n<p class=\"read-time\">");
    body.append(minutes.as_str());
    body.append(" min read</p>\n<div class=\"content\">");
    body.append(html_content);
    body.append("</div>");
    html_shell(meta.title.as_str(), body.as_str())
}

/// The list item of one post.
fn render_item(post: &PostListing) -> (r: String)
    ensures
        r@ == list_item(post@),
{
    let slug = escape_html(post.slug.as_str());
    let title = escape_html(post.title.as_str());
    let mut item = String::from_str("<li><a href=\"/blog/");
    item.append(slug.as_str());
    item.append("\">");
    item.append(title.as_str());
    item.append("</a>");
    match &post.date {
        Some(d) => {
            let date = escape_html(d.as_str());
            let mut line = String::from_str("<p class=\"post-meta\">");
            line.append(date.as_str());
            line.append("</p>");
            item.append(line.as_str());
        },
        None => {
            assert(item@ + Seq::<char>::empty() =~= item@);
        },
    }
    match &post.description {
        Some(d) => {
            let description = escape_html(d.as_str());
            let mut line = String::from_str("<p class=\"post-desc\">");
            line.append(description.as_str());
            line.append("</p>");
            item.append(line.as_str());
        },
        None => {
            assert(item@ + Seq::<char>::empty() =~= item@);
        },
    }
    item.append("</li>");
    item
}

/// The whole document of the listing: one list item for each of `posts`, in
/// the order given, inside the shell.
pub fn render_post_list(posts: &Vec<PostListing>) -> (r: String)
    ensures
        r@ == post_list(entries(posts@)),
{
    let ghost all = entries(posts@);
    let mut items = String::new();
    let mut i: usize = 0;
    proof {
        assert(all.take(0) =~= Seq::<Entry>::empty());
    }
    while i < posts.len()
        invariant
            all == entries(posts@),
            i <= posts@.len(),
            items@ == list_items(all.take(i as int)),
        decreases posts@.len() - i,
    {
        proof {
            assert(all.take(i + 1).drop_last() =~= all.take(i as int));
            assert(all.take(i + 1).last() == posts@[i as int]@);
        }
        let item = render_item(&posts[i]);
        items.append(item.as_str());
        i = i + 1;
    }
    proof {
        assert(all.take(posts@.len() as int) =~= all);
    }
    let mut body = String::from_str("<h1>Posts</h1><ul class=\"post-list\">");
    body.append(items.as_str());
    body.append("</ul>");
    html_shell("Posts", body.as_str())
}

/// Escaped text holds none of `<`, `>` and `"`: nothing in it can open or
/// close a tag or end an attribute.
pub proof fn lemma_escaped_has_no_markup(text: Seq<char>)
    ensures
        forall|i: int|
            0 <= i < escaped(text).len() ==> {
                let c = #[trigger] escaped(text)[i];
                c != '<' && c != '>' && c != '"'
            },
    decreases text.len(),
{
    reveal_strlit("&amp;");
    reveal_strlit("&lt;");
    reveal_strlit("&gt;");
    reveal_strlit("&quot;");
    if text.len() > 0 {
        lemma_escaped_has_no_markup(text.drop_last());
        let front = escaped(text.drop_last());
        let tail = escaped_char(text.last());
        assert forall|i: int| 0 <= i < escaped(text).len() implies {
            let c = #[trigger] escaped(text)[i];
            c != '<' && c != '>' && c != '"'
        } by {
            if i < front.len() {
                assert(escaped(text)[i] == front[i]);
            } else {
                assert(escaped(text)[i] == tail[i - front.len()]);
            }
        }
    }
}

/// Text without any of the four characters is its own escape.
pub proof fn lemma_plain_text_is_kept(text: Seq<char>)
    requires
        forall|i: int|
            0 <= i < text.len() ==> {
                let c = #[trigger] text[i];
                c != '&' && c != '<' && c != '>' && c != '"'
            },
    ensures
        escaped(text) == text,
    decreases text.len(),
{
    if text.len() > 0 {
        lemma_plain_text_is_kept(text.drop_last());
        assert(escaped(text) =~= text);
    }
}

} // verus!
