use mdx_pages::error::AppError;
use mdx_pages::page::{yaml_from_ast, Frontmatter, Loaded};
use mdx_pages::parser::{parse_mdx, HeaderPolicy};
use mdx_pages::post::PostCandidate;
use mdx_pages::store::{build_record, render_document, render_post, PageSource, PageStore};
use mdx_pages::template::{render_page, render_post_list};
use mdx_pages::page::PageMeta;

fn front(title: &str, date: Option<&str>, draft: Option<bool>) -> Result<Frontmatter, String> {
    Ok(Frontmatter {
        title: title.to_string(),
        date: date.map(|d| d.to_string()),
        description: None,
        draft,
    })
}

fn load(content: &str, header: Result<Frontmatter, String>) -> Loaded {
    Loaded {
        content: content.to_string(),
        tree: parse_mdx(content, HeaderPolicy::Required),
        header,
    }
}

fn page(key: &str, title: &str, body: &str) -> PageSource {
    let content = format!("---\ntitle: {}\n---\n\n{}\n", title, body);
    PageSource { key: key.to_string(), document: load(&content, front(title, None, None)) }
}

fn candidate(slug: &str, title: &str, date: Option<&str>, draft: Option<bool>) -> PostCandidate {
    let content = format!("---\ntitle: {}\n---\n\nPost *{}* body.\n", title, slug);
    PostCandidate {
        slug: slug.to_string(),
        file: Some(load(&content, front(title, date, draft))),
    }
}

#[test]
fn document_is_rendered_into_its_record() {
    let content = "---\ntitle: About Me\n---\n\n# Introduction\n\nHello ~~old~~ world.\n";
    let doc = load(content, front("About Me", None, None));
    assert_eq!(yaml_from_ast(doc.tree.as_ref().unwrap()), "title: About Me");
    let record = render_document("about", &doc).unwrap();
    assert_eq!(record.key, "about");
    assert_eq!(record.title, "About Me");
    assert_eq!(record.read_time_mins, 1);
    assert!(record.rendered_html.contains("<h1>Introduction</h1>"));
    assert!(record.rendered_html.contains("<h1 class=\"page-title\">About Me</h1>"));
    assert!(record.rendered_html.contains("<p class=\"read-time\">1 min read</p>"));
    assert!(!record.rendered_html.contains("title: About Me"));
    let fragment = "<h1>Introduction</h1>\n<p>Hello <del>old</del> world.</p>\n";
    let meta = PageMeta { title: "About Me".to_string(), read_time_mins: 1 };
    assert_eq!(record.rendered_html, render_page(&meta, fragment));
}

#[test]
fn tables_and_bare_addresses_are_rendered() {
    let content = "---\ntitle: T\n---\n\n| a | b |\n|---|---|\n| 1 | 2 |\n\nSee www.example.com now.\n";
    let doc = load(content, front("T", None, None));
    let record = render_document("t", &doc).unwrap();
    assert!(record.rendered_html.contains("<table>"));
    assert!(record.rendered_html.contains("<td>1</td>"));
    assert!(record.rendered_html.contains("<a href=\"http://www.example.com\">www.example.com</a>"));
}

#[test]
fn component_tags_are_read_and_filtered_tags_are_not_written() {
    let content = "---\ntitle: T\n---\n\nText with <Note kind=\"x\">a tag</Note> inside.\n";
    let doc = load(content, front("T", None, None));
    let record = render_document("t", &doc).unwrap();
    assert!(record.rendered_html.contains("<p>Text with a tag inside.</p>"));
    assert!(!record.rendered_html.contains("<Note"));
}

#[test]
fn indented_lines_are_rendered_as_code() {
    let content = "---\ntitle: T\n---\n\n    let x = 1;\n";
    let doc = load(content, front("T", None, None));
    let record = render_document("t", &doc).unwrap();
    assert!(record.rendered_html.contains("<pre><code>let x = 1;\n</code></pre>"));
}

#[test]
fn record_is_built_from_a_given_fragment() {
    let doc = load("---\ntitle: T\n---\nbody", front("T <1>", None, None));
    let record = build_record("k", &doc, Ok("<p>given</p>".to_string())).unwrap();
    assert_eq!(record.key, "k");
    assert_eq!(record.title, "T <1>");
    assert!(record.rendered_html.contains("<div class=\"content\"><p>given</p></div>"));
    assert!(record.rendered_html.contains("<h1 class=\"page-title\">T &lt;1&gt;</h1>"));
}

#[test]
fn record_fails_with_the_first_failure_on_the_way() {
    let unparsed = Loaded {
        content: String::from("# x"),
        tree: Err("no header".to_string()),
        header: Err("not decoded".to_string()),
    };
    match build_record("k", &unparsed, Err("no html".to_string())) {
        Err(AppError::ParseError(reason)) => assert_eq!(reason, "no header"),
        other => panic!("expected a parse error, got {:?}", other),
    }
    let undecoded = load("---\ntitle: T\n---\nbody", Err("not decoded".to_string()));
    match build_record("k", &undecoded, Err("no html".to_string())) {
        Err(AppError::ParseError(reason)) => assert_eq!(reason, "not decoded"),
        other => panic!("expected a parse error, got {:?}", other),
    }
    let fine = load("---\ntitle: T\n---\nbody", front("T", None, None));
    match build_record("k", &fine, Err("no html".to_string())) {
        Err(AppError::ParseError(reason)) => assert_eq!(reason, "no html"),
        other => panic!("expected a parse error, got {:?}", other),
    }
}

#[test]
fn post_record_stands_under_the_key_of_the_post() {
    let record = render_post(&candidate("hello", "Hello", None, None)).unwrap().unwrap();
    assert_eq!(record.key, "blog/hello");
    assert!(record.rendered_html.contains("<p>Post <em>hello</em> body.</p>"));
    let gap = PostCandidate { slug: "gap".to_string(), file: None };
    assert!(render_post(&gap).unwrap().is_none());
    let mut broken = candidate("broken", "Broken", None, None);
    broken.file.as_mut().unwrap().header = Err("bad yaml".to_string());
    match render_post(&broken) {
        Err(AppError::ParseError(reason)) => assert_eq!(reason, "broken: bad yaml"),
        other => panic!("expected a parse error, got {:?}", other),
    }
}

#[test]
fn store_serves_what_was_built() {
    let pages = vec![page("index", "Home", "Welcome."), page("about", "About", "Me.")];
    let posts = vec![
        candidate("old", "Old", Some("2024-01-01"), None),
        PostCandidate { slug: "empty".to_string(), file: None },
        candidate("new", "New", Some("2025-06-01"), None),
        candidate("draft", "Draft", None, Some(true)),
    ];
    let store = PageStore::build(&pages, &posts).unwrap();

    let home = store.lookup("index").unwrap();
    assert_eq!(home.title, "Home");
    assert!(home.read_time_mins >= 1);
    assert!(home.rendered_html.contains("<p>Welcome.</p>"));
    assert_eq!(store.lookup("about").unwrap().title, "About");
    assert_eq!(store.lookup("blog/new").unwrap().title, "New");
    assert_eq!(store.lookup("blog/old").unwrap().title, "Old");
    assert_eq!(store.lookup("blog/draft").unwrap().title, "Draft");
    assert!(store.lookup("blog/empty").is_none());
    assert!(store.lookup("missing").is_none());
    assert!(store.lookup("").is_none());

    let listed: Vec<&str> = store.posts().iter().map(|p| p.title.as_str()).collect();
    assert_eq!(listed, vec!["New", "Old"]);
    assert_eq!(store.posts()[0].body, "Post  new  body.");
    assert_eq!(store.blog_listing(), render_post_list(store.posts()));
    assert!(store.blog_listing().contains("<a href=\"/blog/new\">New</a>"));
    assert!(!store.blog_listing().contains("Draft"));
}

#[test]
fn store_answers_a_missing_key_with_not_found() {
    let store = PageStore::build(&vec![page("index", "Home", "x")], &vec![]).unwrap();
    assert!(store.find("index").is_ok());
    match store.find("nowhere") {
        Err(AppError::NotFound(key)) => assert_eq!(key, "nowhere"),
        other => panic!("expected not found, got {:?}", other.map(|r| r.key.clone())),
    }
}

#[test]
fn store_of_nothing_has_an_empty_listing() {
    let store = PageStore::build(&vec![], &vec![]).unwrap();
    assert!(store.posts().is_empty());
    assert_eq!(store.blog_listing(), render_post_list(&vec![]));
    assert!(store.lookup("index").is_none());
}

#[test]
fn store_is_not_built_when_a_page_fails() {
    let mut bad = page("bad", "Bad", "x");
    bad.document.header = Err("missing field `title`".to_string());
    let pages = vec![page("index", "Home", "x"), bad];
    match PageStore::build(&pages, &vec![]) {
        Err(AppError::ParseError(reason)) => assert_eq!(reason, "missing field `title`"),
        Err(other) => panic!("expected a parse error, got {:?}", other),
        Ok(_) => panic!("expected the build to fail"),
    }
}

#[test]
fn store_is_not_built_when_a_post_fails() {
    let mut bad = candidate("bad", "Bad", None, None);
    bad.file.as_mut().unwrap().header = Err("bad yaml".to_string());
    let posts = vec![candidate("fine", "Fine", None, None), bad];
    match PageStore::build(&vec![page("index", "Home", "x")], &posts) {
        Err(AppError::ParseError(reason)) => assert_eq!(reason, "bad: bad yaml"),
        Err(other) => panic!("expected a parse error, got {:?}", other),
        Ok(_) => panic!("expected the build to fail"),
    }
}

#[test]
fn store_is_not_built_when_a_page_lacks_its_header() {
    let content = "# No frontmatter\n";
    let source = PageSource {
        key: "plain".to_string(),
        document: load(content, Err(String::new())),
    };
    match PageStore::build(&vec![source], &vec![]) {
        Err(AppError::ParseError(reason)) => {
            assert_eq!(reason, "frontmatter must be at the start of the file")
        }
        Err(other) => panic!("expected a parse error, got {:?}", other),
        Ok(_) => panic!("expected the build to fail"),
    }
}

#[test]
fn post_stored_after_a_page_of_the_same_key_is_the_one_served() {
    let pages = vec![page("blog/twice", "Flat", "x")];
    let posts = vec![candidate("twice", "Nested", None, None)];
    let store = PageStore::build(&pages, &posts).unwrap();
    assert_eq!(store.lookup("blog/twice").unwrap().title, "Nested");
}
