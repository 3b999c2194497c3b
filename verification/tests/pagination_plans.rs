use flow_web::blog::{Blog, BlogShared, ScopeKind};
use flow_web::pagination::paginate;
use flow_web::post::BlogPost;
use flow_web::timestamp::Timestamp;

fn make_post(title: &str, topics: &[&str], year: i32, month: u32, day: u32) -> BlogPost {
    let mut p = BlogPost::new("blog".to_string());
    p.title = title.to_string();
    p.url = flow_web::sanitize::Helper::sanitize_string(title);
    p.published = Timestamp { year, month, day, hour: 10, minute: 0, second: 0 };
    p.updated = p.published;
    p.topics = topics.iter().map(|t| t.to_string()).collect();
    p.topics_sanitized = topics
        .iter()
        .map(|t| flow_web::sanitize::Helper::sanitize_string(t))
        .collect();
    p
}

fn blog_with_posts(posts: Vec<BlogPost>, per_page: usize) -> Blog {
    let mut shared = BlogShared::new();
    for p in posts {
        shared.insert_post(p);
    }
    let mut blog = Blog::new("blog".to_string(), per_page);
    blog.index_posts(&mut shared);
    blog
}

#[test]
fn pagination_counts_and_offsets() {
    let pages = paginate(45, 20);
    assert_eq!(pages.len(), 3);
    assert_eq!(pages[0].current_page, 1);
    assert_eq!(pages[0].offset, 0);
    assert_eq!(pages[0].num_posts, 20);
    assert_eq!(pages[1].offset, 20);
    assert_eq!(pages[1].num_posts, 20);
    assert_eq!(pages[2].offset, 40);
    assert_eq!(pages[2].num_posts, 5);
    let total: usize = pages.iter().map(|p| p.num_posts).sum();
    assert_eq!(total, 45);
}

#[test]
fn pagination_exact_multiple() {
    let pages = paginate(40, 20);
    assert_eq!(pages.len(), 2);
    assert_eq!(pages[1].num_posts, 20);
}

#[test]
fn pagination_one_more_than_full_page() {
    let pages = paginate(21, 20);
    assert_eq!(pages.len(), 2);
    assert_eq!(pages[1].num_posts, 1);
}

#[test]
fn pagination_empty_corpus_has_no_pages() {
    let pages = paginate(0, 20);
    assert_eq!(pages.len(), 0);
}

#[test]
fn pagination_single_post_single_page() {
    let pages = paginate(1, 20);
    assert_eq!(pages.len(), 1);
    assert_eq!(pages[0].num_posts, 1);
}

#[test]
fn overview_page_one_written_twice_with_same_context() {
    let blog = blog_with_posts(
        vec![make_post("One", &["Rust"], 2024, 1, 1), make_post("Two", &["Web"], 2024, 2, 1)],
        20,
    );
    let writes = blog.generate_overview_posts();
    assert_eq!(writes.len(), 2);
    assert_eq!(writes[0].path, "blog/index.html");
    assert_eq!(writes[1].path, "blog/page/1/index.html");
    let a = &writes[0].ctx;
    let b = &writes[1].ctx;
    assert_eq!(a.page_url, b.page_url);
    assert_eq!(a.current_page, b.current_page);
    assert_eq!(a.num_pages, b.num_pages);
    assert_eq!(a.offset, b.offset);
    assert_eq!(a.num_posts, b.num_posts);
    assert_eq!(a.keywords, b.keywords);
    assert_eq!(a.title, b.title);
    assert!(matches!(a.scope, ScopeKind::Overview));
}

#[test]
fn overview_contexts_follow_pagination() {
    let mut posts = Vec::new();
    for i in 0..45 {
        posts.push(make_post(&format!("Post {}", i), &["misc"], 2020, 1, 1 + (i % 28) as u32));
    }
    let blog = blog_with_posts(posts, 20);
    let writes = blog.generate_overview_posts();
    // canonical + 3 pages
    assert_eq!(writes.len(), 4);
    assert_eq!(writes[0].ctx.num_pages, 3);
    assert_eq!(writes[3].ctx.current_page, 3);
    assert_eq!(writes[3].ctx.offset, 40);
    assert_eq!(writes[3].ctx.num_posts, 5);
    assert_eq!(writes[3].path, "blog/page/3/index.html");
    assert_eq!(writes[3].ctx.page_url, "blog/page/3");
}

#[test]
fn topic_pages_use_sanitized_slugs() {
    let blog = blog_with_posts(vec![make_post("One", &["Cool Topic"], 2024, 1, 1)], 20);
    let writes = blog.generate_overview_topic();
    assert_eq!(writes.len(), 2);
    assert_eq!(writes[0].path, "blog/topic/cool-topic/index.html");
    assert_eq!(writes[1].path, "blog/topic/cool-topic/page/1/index.html");
    assert_eq!(writes[0].ctx.topic, "Cool Topic");
    assert_eq!(writes[0].ctx.topic_sanitized, "cool-topic");
    assert_eq!(writes[0].ctx.keywords, "topic, Cool Topic");
    assert_eq!(writes[0].ctx.title, "Blog posts by topic: Cool Topic");
    assert!(matches!(writes[0].ctx.scope, ScopeKind::Topic));
}

#[test]
fn year_pages_for_each_year() {
    let blog = blog_with_posts(
        vec![make_post("One", &["a"], 2023, 5, 1), make_post("Two", &["a"], 2024, 5, 1)],
        20,
    );
    let writes = blog.generate_overview_year();
    // two years, each with canonical + one page
    assert_eq!(writes.len(), 4);
    let paths: Vec<&str> = writes.iter().map(|w| w.path.as_str()).collect();
    assert!(paths.contains(&"blog/year/2023/index.html"));
    assert!(paths.contains(&"blog/year/2024/page/1/index.html"));
    assert_eq!(writes[0].ctx.title, format!("Blog posts by year: {}", writes[0].ctx.year));
}

#[test]
fn single_post_topic_yields_exactly_one_page() {
    let blog = blog_with_posts(vec![make_post("Solo", &["Lonely"], 2024, 1, 1)], 20);
    let writes = blog.generate_overview_topic();
    // one page plus its canonical duplicate
    assert_eq!(writes.len(), 2);
    assert_eq!(writes[1].ctx.num_pages, 1);
    assert_eq!(writes[1].ctx.num_posts, 1);
}

#[test]
fn pagination_page_size_one() {
    let pages = paginate(3, 1);
    assert_eq!(pages.len(), 3);
    for (k, p) in pages.iter().enumerate() {
        assert_eq!(p.current_page, k + 1);
        assert_eq!(p.offset, k);
        assert_eq!(p.num_posts, 1);
    }
}

#[test]
fn second_page_starts_where_the_first_ends() {
    let mut posts = Vec::new();
    for i in 0..25 {
        posts.push(make_post(&format!("N{}", i), &["t"], 2020, 1, 1 + (i % 28) as u32));
    }
    let blog = blog_with_posts(posts, 20);
    let writes = blog.generate_overview_posts();
    assert_eq!(writes.len(), 3);
    assert_eq!(writes[1].ctx.offset + writes[1].ctx.num_posts, writes[2].ctx.offset);
    assert_eq!(writes[2].ctx.num_posts, 5);
}
