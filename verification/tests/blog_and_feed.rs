use flow_web::blog::{Blog, BlogShared};
use flow_web::feed::FeedError;
use flow_web::post::BlogPost;
use flow_web::sanitize::Helper;
use flow_web::timestamp::Timestamp;

fn make_post(title: &str, topics: &[&str], year: i32, month: u32, day: u32) -> BlogPost {
    let mut p = BlogPost::new("blog".to_string());
    p.title = title.to_string();
    p.url = Helper::sanitize_string(title);
    p.published = Timestamp { year, month, day, hour: 10, minute: 0, second: 0 };
    p.updated = p.published;
    p.published_for_feed = format!("{}-{:02}-{:02}T10:00:00.000Z", year, month, day);
    p.updated_for_feed = p.published_for_feed.clone();
    p.topics = topics.iter().map(|t| t.to_string()).collect();
    p.snippet = format!("About {}", title);
    p.html = format!("<p>{}</p>", title);
    p
}

#[test]
fn posts_sorted_latest_first() {
    let mut shared = BlogShared::new();
    shared.insert_post(make_post("A", &[], 2024, 1, 1));
    shared.insert_post(make_post("B", &[], 2024, 6, 1));
    shared.insert_post(make_post("C", &[], 2023, 12, 31));
    shared.sort_posts();
    let posts = shared.get_posts();
    let dates: Vec<(i32, u32, u32)> = posts
        .iter()
        .map(|p| (p.published.year, p.published.month, p.published.day))
        .collect();
    assert_eq!(dates, vec![(2024, 6, 1), (2024, 1, 1), (2023, 12, 31)]);
}

#[test]
fn topic_index_lists_positions() {
    let mut shared = BlogShared::new();
    shared.insert_post(make_post("A", &["rust", "web"], 2024, 1, 1));
    shared.insert_post(make_post("B", &["rust"], 2024, 6, 1));
    let mut blog = Blog::new("blog".to_string(), 20);
    blog.index_posts(&mut shared);
    // after sorting, B (June) is position 0, A (January) is position 1
    let rust = blog
        .topic_blog_indices
        .iter()
        .find(|e| e.key == "rust")
        .expect("rust entry");
    assert_eq!(rust.ids, vec![0, 1]);
    let web = blog
        .topic_blog_indices
        .iter()
        .find(|e| e.key == "web")
        .expect("web entry");
    assert_eq!(web.ids, vec![1]);
}

#[test]
fn topics_sorted_case_insensitively() {
    let mut shared = BlogShared::new();
    shared.insert_post(make_post("A", &["Zebra"], 2024, 1, 1));
    shared.insert_post(make_post("B", &["apple"], 2024, 2, 1));
    let mut blog = Blog::new("blog".to_string(), 20);
    blog.index_posts(&mut shared);
    assert_eq!(blog.topics, vec!["apple".to_string(), "Zebra".to_string()]);
    assert_eq!(blog.topics_sanitized, vec!["apple".to_string(), "zebra".to_string()]);
}

#[test]
fn years_sorted_ascending() {
    let mut shared = BlogShared::new();
    shared.insert_post(make_post("A", &["t"], 2024, 1, 1));
    shared.insert_post(make_post("B", &["t"], 2021, 2, 1));
    shared.insert_post(make_post("C", &["t"], 2023, 2, 1));
    let mut blog = Blog::new("blog".to_string(), 20);
    blog.index_posts(&mut shared);
    assert_eq!(blog.years, vec!["2021".to_string(), "2023".to_string(), "2024".to_string()]);
}

#[test]
fn get_latest_blog_posts_takes_prefix() {
    let mut shared = BlogShared::new();
    for i in 1..=5 {
        shared.insert_post(make_post(&format!("P{}", i), &[], 2024, i, 1));
    }
    let mut blog = Blog::new("blog".to_string(), 20);
    blog.index_posts(&mut shared);
    let latest = blog.get_latest_blog_posts(3);
    assert_eq!(latest.len(), 3);
    assert_eq!(latest[0].published.month, 5);
    assert_eq!(latest[2].published.month, 3);
    let all = blog.get_latest_blog_posts(99);
    assert_eq!(all.len(), 5);
}

#[test]
fn feed_for_empty_corpus_is_header_and_footer() {
    let blog = Blog::new("blog".to_string(), 20);
    let feed = blog.generate_atom_feed("NOW").expect("empty corpus is safe");
    let mut expected = String::new();
    expected.push_str("<?xml version=\"1.0\" encoding=\"utf-8\"?>\n");
    expected.push_str("<feed xmlns=\"http://www.w3.org/2005/Atom\">\n");
    expected.push_str("    <id>https:/www.luflow.net/feeds/blog.atom</id>\n");
    expected.push_str("    <title>luflow.net Blog</title>\n");
    expected.push_str("    <updated>NOW</updated>\n");
    expected.push_str("    <generator>https://codeberg.org/hfsoulz/flow-web.git</generator>\n");
    expected.push_str("    <author>\n");
    expected.push_str("        <name>luflow.net</name>\n");
    expected.push_str("        <uri>https://www.luflow.net/</uri>\n");
    expected.push_str("    </author>\n");
    expected.push_str("    <link rel=\"alternate\" href=\"https:/www.luflow.net/blog/\"/>\n");
    expected.push_str("    <link rel=\"self\" href=\"https:/www.luflow.net/feeds/blog.atom\"/>\n");
    expected.push_str(
        "    <subtitle>This blog is dedicated to free software in general.</subtitle>\n",
    );
    expected.push_str("    <logo>https:/www.luflow.net/static/img/icon.png</logo>\n");
    expected.push_str("    <icon>https:/www.luflow.net/favicon.ico</icon>\n");
    expected.push_str("</feed>");
    assert_eq!(feed, expected);
}

#[test]
fn feed_has_one_entry_per_post() {
    let mut shared = BlogShared::new();
    shared.insert_post(make_post("One", &["a", "b"], 2024, 1, 1));
    shared.insert_post(make_post("Two", &["c"], 2024, 2, 1));
    let mut blog = Blog::new("blog".to_string(), 20);
    blog.index_posts(&mut shared);
    let feed = blog.generate_atom_feed("NOW").expect("safe posts");
    assert_eq!(feed.matches("    <entry>\n").count(), 2);
    assert_eq!(feed.matches("    </entry>\n").count(), 2);
    assert!(feed.contains("<title type=\"html\"><![CDATA[One]]></title>"));
    assert!(feed.contains("<link href=\"https:/www.luflow.net/blog/two/\"/>"));
    assert!(feed.contains("<category term=\"a\"/>"));
    assert!(feed.contains("<summary type=\"html\"><![CDATA[About Two]]></summary>"));
    assert!(feed.contains("<content type=\"html\"><![CDATA[<p>One</p>]]></content>"));
    assert!(feed.ends_with("</feed>"));
}

#[test]
fn feed_rejects_cdata_delimiter_in_content() {
    let mut shared = BlogShared::new();
    let mut bad = make_post("Oops", &[], 2024, 1, 1);
    bad.html = "something ]]> dangerous".to_string();
    shared.insert_post(bad);
    let mut blog = Blog::new("blog".to_string(), 20);
    blog.index_posts(&mut shared);
    assert_eq!(blog.generate_atom_feed("NOW"), Err(FeedError::CdataDelimiter));
}

#[test]
fn date_now_for_feed_has_expected_shape() {
    let blog = Blog::new("blog".to_string(), 20);
    let now = blog.get_date_now_for_feed();
    assert!(now.contains('T'));
    assert!(now.ends_with('Z'));
    // zero-padded month and day keep the date part at ten characters
    assert_eq!(now.split('T').next().unwrap().len(), 10);
}

#[test]
fn generate_produces_whole_plan() {
    let mut shared = BlogShared::new();
    shared.insert_post(make_post("One", &["rust"], 2024, 1, 1));
    shared.insert_post(make_post("Two", &["web"], 2024, 2, 1));
    let mut blog = Blog::new("blog".to_string(), 20);
    let plan = blog.generate(&mut shared, "NOW").expect("safe posts");
    assert_eq!(plan.post_paths, vec![
        "blog/two/index.html".to_string(),
        "blog/one/index.html".to_string(),
    ]);
    assert_eq!(plan.overview.len(), 2);
    assert_eq!(plan.topic_pages.len(), 4);
    assert_eq!(plan.year_pages.len(), 2);
    assert!(plan.feed.contains("<![CDATA[One]]>"));
}
