use mdx_pages::error::AppError;
use mdx_pages::page::{
    count_words, extract_meta, minutes_for, strip_frontmatter, yaml_from_ast, Frontmatter,
    EMPTY_TITLE, WORDS_PER_MINUTE,
};
use mdx_pages::tree::ParsedTree;

fn header(title: &str) -> Result<Frontmatter, String> {
    Ok(Frontmatter {
        title: title.to_string(),
        date: None,
        description: None,
        draft: None,
    })
}

fn words(n: usize) -> String {
    let mut out = String::from("---\ntitle: T\n---\n");
    for _ in 0..n {
        out.push_str("word ");
    }
    out
}

#[test]
fn strip_leaves_text_without_a_header_alone() {
    assert_eq!(strip_frontmatter("# Title\nbody"), "# Title\nbody");
    assert_eq!(strip_frontmatter(""), "");
    assert_eq!(strip_frontmatter("--\ntitle: x\n---\nbody"), "--\ntitle: x\n---\nbody");
}

#[test]
fn strip_leaves_an_open_header_alone() {
    assert_eq!(strip_frontmatter("---\ntitle: x\nbody"), "---\ntitle: x\nbody");
    assert_eq!(strip_frontmatter("---"), "---");
    assert_eq!(strip_frontmatter("------"), "------");
}

#[test]
fn strip_drops_the_header_and_the_one_break_after_it() {
    assert_eq!(strip_frontmatter("---\ntitle: x\n---\nbody"), "body");
    assert_eq!(strip_frontmatter("---\ntitle: x\n---\n\n\nbody\n"), "\n\nbody\n");
    assert_eq!(strip_frontmatter("---\ntitle: x\n---\r\n\r\nbody"), "\r\nbody");
    assert_eq!(strip_frontmatter("---\ntitle: x\n---"), "");
    assert_eq!(strip_frontmatter("---\ntitle: x\n---\n"), "");
    assert_eq!(strip_frontmatter("---\n---\nbody"), "body");
    assert_eq!(
        strip_frontmatter("---\ntitle: About Me\n---\n\n# Introduction\n"),
        "\n# Introduction\n"
    );
}

#[test]
fn strip_drops_no_break_but_a_whole_one() {
    assert_eq!(strip_frontmatter("---\ntitle: x\n---\rbody"), "\rbody");
    assert_eq!(strip_frontmatter("---\ntitle: x\n---\r"), "\r");
    assert_eq!(strip_frontmatter("---\ntitle: x\n---\n\rbody"), "\rbody");
    assert_eq!(strip_frontmatter("---\ntitle: x\n---\r\r\nbody"), "\r\r\nbody");
}

#[test]
fn strip_stops_at_the_first_closing_marker() {
    assert_eq!(strip_frontmatter("---\na: 1\n---\nbody\n---\nrest"), "body\n---\nrest");
    assert_eq!(strip_frontmatter("---\na: 1\n--- tail"), " tail");
    assert_eq!(strip_frontmatter("---\na: 1\n----\nbody"), "-\nbody");
}

#[test]
fn strip_handles_text_beyond_ascii() {
    assert_eq!(strip_frontmatter("---\ntitre: été\n---\nça va"), "ça va");
}

#[test]
fn words_are_runs_between_white_space() {
    assert_eq!(count_words(""), 0);
    assert_eq!(count_words("   \n\t "), 0);
    assert_eq!(count_words("one"), 1);
    assert_eq!(count_words("  one  two\nthree\t"), 3);
    assert_eq!(count_words("a\u{00a0}b\u{2003}c\u{3000}d"), 4);
    assert_eq!(count_words("# Introduction"), 2);
}

#[test]
fn white_space_is_the_unicode_property() {
    let listed = |n: u32| {
        (0x09..=0x0D).contains(&n)
            || n == 0x20
            || n == 0x85
            || n == 0xA0
            || n == 0x1680
            || (0x2000..=0x200A).contains(&n)
            || n == 0x2028
            || n == 0x2029
            || n == 0x202F
            || n == 0x205F
            || n == 0x3000
    };
    for n in 0..=0x10FFFFu32 {
        if let Some(c) = char::from_u32(n) {
            let mut word = String::from("a");
            word.push(c);
            word.push('b');
            let expected = if listed(n) { 2 } else { 1 };
            assert_eq!(count_words(&word), expected, "U+{:04X}", n);
        }
    }
}

#[test]
fn word_count_agrees_with_std() {
    let samples = ["", " ", "a", "a b", " a  b ", "x\ny\r\nz", "é à\tü", "tab\u{0b}form\u{0c}feed"];
    for s in samples {
        assert_eq!(count_words(s), s.split_whitespace().count(), "{:?}", s);
    }
}

#[test]
fn reading_time_is_words_over_two_hundred_and_at_least_one() {
    assert_eq!(WORDS_PER_MINUTE, 200);
    assert_eq!(minutes_for(0), 1);
    assert_eq!(minutes_for(1), 1);
    assert_eq!(minutes_for(199), 1);
    assert_eq!(minutes_for(200), 1);
    assert_eq!(minutes_for(399), 1);
    assert_eq!(minutes_for(400), 2);
    assert_eq!(minutes_for(1000), 5);
    assert_eq!(minutes_for(1199), 5);
}

#[test]
fn reading_time_never_falls_as_words_rise() {
    let mut last = 0;
    for n in 0..1500 {
        let m = minutes_for(n);
        assert!(m >= 1);
        assert!(m >= last);
        last = m;
    }
}

#[test]
fn meta_recovers_the_title_and_counts_the_body_alone() {
    let meta = extract_meta(&header("About Me"), "---\ntitle: About Me\n---\n\n# Introduction\n")
        .unwrap();
    assert_eq!(meta.title, "About Me");
    assert_eq!(meta.read_time_mins, 1);

    let meta = extract_meta(&header("T"), &words(400)).unwrap();
    assert_eq!(meta.read_time_mins, 2);
    let meta = extract_meta(&header("T"), &words(399)).unwrap();
    assert_eq!(meta.read_time_mins, 1);
    let meta = extract_meta(&header("T"), &words(398)).unwrap();
    assert_eq!(meta.read_time_mins, 1);
}

#[test]
fn meta_of_an_empty_body_reads_in_one_minute() {
    let meta = extract_meta(&header("T"), "---\ntitle: T\n---\n").unwrap();
    assert_eq!(meta.read_time_mins, 1);
    let meta = extract_meta(&header("T"), "").unwrap();
    assert_eq!(meta.read_time_mins, 1);
}

#[test]
fn meta_refuses_a_header_that_was_not_decoded() {
    let failed: Result<Frontmatter, String> = Err("missing field `title`".to_string());
    match extract_meta(&failed, "---\ndate: x\n---\nbody") {
        Err(AppError::ParseError(reason)) => assert_eq!(reason, "missing field `title`"),
        other => panic!("expected a parse error, got {:?}", other),
    }
}

#[test]
fn meta_refuses_an_empty_title() {
    match extract_meta(&header(""), "---\ntitle: ''\n---\nbody") {
        Err(AppError::ParseError(reason)) => {
            assert_eq!(reason, EMPTY_TITLE);
            assert_eq!(reason, "title must not be empty");
        }
        other => panic!("expected a parse error, got {:?}", other),
    }
}

#[test]
fn payload_is_that_of_the_first_header_among_the_children() {
    let tree = ParsedTree::Container(vec![
        ParsedTree::Paragraph(vec![ParsedTree::MetadataHeader("nested".to_string())]),
        ParsedTree::MetadataHeader("first".to_string()),
        ParsedTree::MetadataHeader("second".to_string()),
    ]);
    assert_eq!(yaml_from_ast(&tree), "first");
    assert_eq!(yaml_from_ast(&ParsedTree::Container(vec![])), "");
    assert_eq!(yaml_from_ast(&ParsedTree::Text("x".to_string())), "");
    assert_eq!(yaml_from_ast(&ParsedTree::MetadataHeader("self".to_string())), "");
}
