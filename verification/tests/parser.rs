use mdx_pages::page::{count_words, strip_frontmatter, yaml_from_ast};
use mdx_pages::parser::{check_placement, parse_mdx, HeaderPolicy, MISPLACED_HEADER};
use mdx_pages::post::body_text_from_ast;
use mdx_pages::tree::ParsedTree;

#[test]
fn errors_on_missing_frontmatter() {
    assert!(parse_mdx("# No frontmatter here\n", HeaderPolicy::Required).is_err());
}

#[test]
fn errors_on_invalid_frontmatter() {
    assert!(parse_mdx(
        "--\ntitle: Invalid Frontmatter\n---\n\n# No frontmatter here\n",
        HeaderPolicy::Required
    )
    .is_err());
}

#[test]
fn parses_valid_frontmatter() {
    assert!(parse_mdx(
        "---\ntitle: About Me\n---\n\n# Introduction\n",
        HeaderPolicy::Required
    )
    .is_ok());
}

#[test]
fn missing_header_names_the_placement_rule() {
    let err = parse_mdx("# No frontmatter\n", HeaderPolicy::Required).unwrap_err();
    assert_eq!(err, "frontmatter must be at the start of the file");
    assert_eq!(err, MISPLACED_HEADER);
}

#[test]
fn missing_header_is_tolerated_when_optional() {
    let tree = parse_mdx("# No frontmatter\n", HeaderPolicy::Optional).unwrap();
    assert_eq!(yaml_from_ast(&tree), "");
    assert_eq!(body_text_from_ast(&tree), "No frontmatter");
}

#[test]
fn header_that_comes_later_is_not_the_metadata() {
    let text = "# Heading\n\n---\ntitle: Late\n---\n";
    assert!(parse_mdx(text, HeaderPolicy::Required).is_err());
    let tree = parse_mdx(text, HeaderPolicy::Optional).unwrap();
    assert_eq!(yaml_from_ast(&tree), "");
}

#[test]
fn header_payload_is_read_from_the_parsed_tree() {
    let tree = parse_mdx(
        "---\ntitle: About Me\ndate: 2024-01-01\n---\n\n# Introduction\n",
        HeaderPolicy::Required,
    )
    .unwrap();
    assert_eq!(yaml_from_ast(&tree), "title: About Me\ndate: 2024-01-01");
}

#[test]
fn parsed_tree_has_the_shape_of_the_document() {
    let tree = parse_mdx(
        "---\ntitle: T\n---\n\n# Intro\n\nSome `code` here.\n",
        HeaderPolicy::Required,
    )
    .unwrap();
    let children = tree.children().unwrap();
    assert_eq!(children.len(), 3);
    assert!(matches!(&children[0], ParsedTree::MetadataHeader(v) if v == "title: T"));
    match &children[1] {
        ParsedTree::Heading(inner) => {
            assert_eq!(inner.len(), 1);
            assert!(matches!(&inner[0], ParsedTree::Text(v) if v == "Intro"));
        }
        other => panic!("expected a heading, got {:?}", other),
    }
    match &children[2] {
        ParsedTree::Paragraph(inner) => {
            assert_eq!(inner.len(), 3);
            assert!(matches!(&inner[0], ParsedTree::Text(v) if v == "Some "));
            assert!(matches!(&inner[1], ParsedTree::InlineCode(v) if v == "code"));
            assert!(matches!(&inner[2], ParsedTree::Text(v) if v == " here."));
        }
        other => panic!("expected a paragraph, got {:?}", other),
    }
}

#[test]
fn parsed_tree_keeps_lists_links_and_code_blocks() {
    let tree = parse_mdx(
        "---\ntitle: T\n---\n\n- [site](https://example.com)\n\n```\nlet x = 1;\n```\n",
        HeaderPolicy::Required,
    )
    .unwrap();
    let children = tree.children().unwrap();
    assert_eq!(children.len(), 3);
    match &children[1] {
        ParsedTree::List(items) => {
            assert_eq!(items.len(), 1);
            let item = items[0].children().unwrap();
            let paragraph = item[0].children().unwrap();
            match &paragraph[0] {
                ParsedTree::Link(inner) => {
                    assert!(matches!(&inner[0], ParsedTree::Text(v) if v == "site"))
                }
                other => panic!("expected a link, got {:?}", other),
            }
        }
        other => panic!("expected a list, got {:?}", other),
    }
    assert!(matches!(&children[2], ParsedTree::CodeBlock(v) if v == "let x = 1;"));
    assert_eq!(body_text_from_ast(&tree), "site let x = 1;");
}

#[test]
fn grammar_errors_are_passed_on() {
    let err = parse_mdx("---\ntitle: T\n---\n\n<div>\n", HeaderPolicy::Required).unwrap_err();
    assert!(!err.is_empty());
    assert_ne!(err, MISPLACED_HEADER);
    assert!(parse_mdx("---\ntitle: T\n---\n\n<div>\n", HeaderPolicy::Optional).is_err());
}

#[test]
fn placement_is_checked_on_a_given_tree() {
    let with = ParsedTree::Container(vec![
        ParsedTree::MetadataHeader("title: A".to_string()),
        ParsedTree::Paragraph(vec![ParsedTree::Text("x".to_string())]),
    ]);
    assert!(check_placement(with, HeaderPolicy::Required).is_ok());
    let late = ParsedTree::Container(vec![
        ParsedTree::Paragraph(vec![ParsedTree::Text("x".to_string())]),
        ParsedTree::MetadataHeader("title: A".to_string()),
    ]);
    assert_eq!(
        check_placement(late, HeaderPolicy::Required).unwrap_err(),
        MISPLACED_HEADER
    );
    let empty = ParsedTree::Container(vec![]);
    assert!(check_placement(empty, HeaderPolicy::Required).is_err());
    let leaf = ParsedTree::Text("x".to_string());
    assert!(check_placement(leaf, HeaderPolicy::Required).is_err());
    let free = ParsedTree::Container(vec![]);
    assert!(check_placement(free, HeaderPolicy::Optional).is_ok());
}

#[test]
fn about_page_parses_with_its_title_payload() {
    let content = "---\ntitle: About Me\n---\n\n# Introduction\n";
    let tree = parse_mdx(content, HeaderPolicy::Required).unwrap();
    assert_eq!(yaml_from_ast(&tree), "title: About Me");
    assert_eq!(strip_frontmatter(content), "\n# Introduction\n");
    assert_eq!(count_words(strip_frontmatter(content)), 2);
    assert_eq!(body_text_from_ast(&tree), "Introduction");
}
