use flow_web::post::{BlogPost, ParseError};
use flow_web::timestamp::{parse_timestamp, Timestamp};

fn parsed(source: &str) -> BlogPost {
    let mut post = BlogPost::new("blog".to_string());
    post.parse_markdown_file(source).expect("source should parse");
    post
}

#[test]
fn full_front_matter() {
    let post = parsed(
        "author: Jane\npublished: 2024-03-05 10:20:30\nupdated: 2024-03-06 11:21:31\ntopics: Rust, Web\ntitle: My First Post\nsnippet: A start.\n---\n# Heading\n\nBody text.\n",
    );
    assert_eq!(post.author, "Jane");
    assert_eq!(
        post.published,
        Timestamp { year: 2024, month: 3, day: 5, hour: 10, minute: 20, second: 30 }
    );
    assert_eq!(post.published_for_feed, "2024-03-05T10:20:30.000Z");
    assert_eq!(post.updated_for_feed, "2024-03-06T11:21:31.000Z");
    assert_eq!(post.topics, vec!["Rust".to_string(), "Web".to_string()]);
    assert_eq!(post.topics_sanitized, vec!["rust".to_string(), "web".to_string()]);
    assert_eq!(post.title, "My First Post");
    assert_eq!(post.url, "my-first-post");
    assert_eq!(post.snippet, "A start.");
    assert!(post.html.contains("<h1>Heading</h1>"));
    assert!(post.html.contains("<p>Body text.</p>"));
    assert_ne!(post.html, "# Heading\n\nBody text.");
}

#[test]
fn line_without_colon_is_rejected() {
    let mut post = BlogPost::new("blog".to_string());
    let r = post.parse_markdown_file("author Jane\n---\nbody");
    assert_eq!(r, Err(ParseError::MalformedLine));
    // the post keeps its fresh state
    assert_eq!(post.author, "");
    assert_eq!(post.html, "");
}

#[test]
fn bad_timestamp_is_rejected() {
    let mut post = BlogPost::new("blog".to_string());
    let r = post.parse_markdown_file("published: not a date\n---\nbody");
    assert_eq!(r, Err(ParseError::BadTimestamp));
}

#[test]
fn unknown_keys_are_ignored() {
    let post = parsed("wibble: wobble\ntitle: Hi\n---\ntext");
    assert_eq!(post.title, "Hi");
    assert_eq!(post.url, "hi");
}

#[test]
fn repeated_topics_lines_accumulate() {
    let post = parsed("topics: a, b\ntopics: c\n---\n");
    assert_eq!(post.topics, vec!["a".to_string(), "b".to_string(), "c".to_string()]);
    assert_eq!(post.topics_comma_separated, "c");
}

#[test]
fn body_preserves_blank_lines_and_later_delimiters() {
    let post = parsed("title: T\n---\nline one\n\nline two\n---\nline three");
    // blank lines and a later delimiter belong to the body
    assert!(post.html.contains("line one"));
    assert!(post.html.contains("line two"));
    assert!(post.html.contains("line three"));
}

#[test]
fn empty_lines_before_delimiter_are_dropped() {
    let post = parsed("\n\ntitle: T\n---\nbody");
    assert_eq!(post.title, "T");
    assert!(post.html.contains("body"));
}

#[test]
fn no_delimiter_means_no_body() {
    let post = parsed("title: T");
    assert_eq!(post.title, "T");
    assert_eq!(post.html, "");
}

#[test]
fn fresh_post_defaults() {
    let post = BlogPost::new("blog".to_string());
    assert_eq!(post.base_dir, "blog");
    assert_eq!(post.topic_base_dir, "topic");
    assert_eq!(
        post.published,
        Timestamp { year: 2000, month: 1, day: 1, hour: 23, minute: 56, second: 4 }
    );
}

#[test]
fn getters_and_paths() {
    let post = parsed("title: A Page\npublished: 2021-12-31 23:59:59\n---\nx");
    assert_eq!(post.get_year(), "2021");
    assert_eq!(post.get_published_date().year, 2021);
    assert_eq!(post.page_path(), "blog/a-page/index.html");
    let stamp = Timestamp { year: 2024, month: 3, day: 5, hour: 1, minute: 2, second: 3 };
    assert_eq!(post.get_date_for_feed(&stamp), "2024-03-05T01:02:03.000Z");
    assert_eq!(post.get_topics().len(), 0);
}

#[test]
fn timestamp_parsing_direct() {
    let t = parse_timestamp("2024-03-05 10:20:30").expect("valid stamp");
    assert_eq!(t, Timestamp { year: 2024, month: 3, day: 5, hour: 10, minute: 20, second: 30 });
    assert!(parse_timestamp("2024-13-05 10:20:30").is_none());
    assert!(parse_timestamp("2024-02-30 10:20:30").is_none());
    assert!(parse_timestamp("nonsense").is_none());
}
