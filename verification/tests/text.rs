use mdx_pages::error::AppError;
use mdx_pages::mdx_options::default_mdx_compile_options;
use mdx_pages::store::{page_key, post_key};
use mdx_pages::text::{chars_of, code_point, decimal, is_less, is_same, text_of};

#[test]
fn chars_are_the_characters_in_order() {
    assert_eq!(chars_of(""), Vec::<char>::new());
    assert_eq!(chars_of("aé✓"), vec!['a', 'é', '✓']);
}

#[test]
fn text_of_takes_the_range() {
    let chars = chars_of("héllo wörld");
    assert_eq!(text_of(&chars, 0, 5), "héllo");
    assert_eq!(text_of(&chars, 6, 11), "wörld");
    assert_eq!(text_of(&chars, 3, 3), "");
}

#[test]
fn decimal_writes_numbers_without_leading_zeros() {
    assert_eq!(decimal(0), "0");
    assert_eq!(decimal(7), "7");
    assert_eq!(decimal(10), "10");
    assert_eq!(decimal(1234567890), "1234567890");
    assert_eq!(decimal(usize::MAX), usize::MAX.to_string());
}

#[test]
fn order_of_texts_is_that_of_std() {
    let samples = ["", "a", "ab", "b", "B", "2024-01-01", "2024-01-02", "2025-06-01", "é", "z", "日本", "\u{10000}", "\u{ffff}"];
    for a in samples {
        for b in samples {
            assert_eq!(is_less(a, b), a < b, "{:?} < {:?}", a, b);
            assert_eq!(is_same(a, b), a == b, "{:?} == {:?}", a, b);
        }
    }
}

#[test]
fn code_point_is_the_scalar_value() {
    assert_eq!(code_point('A'), 65);
    assert_eq!(code_point('é'), 0xe9);
    assert_eq!(code_point('\u{10ffff}'), 0x10ffff);
}

#[test]
fn default_options_are_those_of_a_site() {
    let options = default_mdx_compile_options();
    assert!(options.frontmatter);
    assert!(options.code_indented);
    assert!(options.tables);
    assert!(options.strikethrough);
    assert!(options.autolinks);
    assert!(options.components);
    assert!(!options.raw_html);
    assert!(!options.angle_autolinks);
    assert!(options.tag_filter);
}

#[test]
fn keys_follow_the_paths() {
    assert_eq!(page_key("about.mdx"), "about");
    assert_eq!(page_key("index.mdx"), "index");
    assert_eq!(page_key("docs/setup.mdx"), "docs/setup");
    assert_eq!(page_key("notes.md"), "notes.md");
    assert_eq!(page_key(".mdx"), "");
    assert_eq!(page_key("mdx"), "mdx");
    assert_eq!(post_key("hello-world"), "blog/hello-world");
    assert_eq!(post_key(""), "blog/");
}

#[test]
fn errors_describe_themselves() {
    let missing = AppError::NotFound("blog/none".to_string());
    assert_eq!(missing.message(), "page not found: blog/none");
    assert_eq!(missing.status_code(), 404);
    assert_eq!(missing.response_body(), "404 Not Found: blog/none");
    let broken = AppError::ParseError("bad header".to_string());
    assert_eq!(broken.message(), "parse error: bad header");
    assert_eq!(broken.status_code(), 500);
    assert_eq!(broken.response_body(), "500 Internal Server Error: bad header");
}
