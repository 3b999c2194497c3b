use flow_web::blog::{Blog, BlogShared};
use flow_web::post::{BlogPost, ParseError};
use flow_web::sanitize::Helper;
use flow_web::screenshots::{CatalogError, Screenshot, Screenshots, ScreenshotsInfo};
use flow_web::site::{required_dirs_present, Core, PlanError, SitePlan};
use flow_web::timestamp::Timestamp;

fn sample_catalog() -> Screenshots {
    let mut cat = Screenshots::new("screenshots".to_string());
    let source = "screenshots_title: HFGE Screenshots\nscreenshots_url: hfge-screens\n\ntitle: Shot One\nimage_min: a_min.png\nimage_big: a_big.png\nurl: shots/one\n\ntitle: Shot Two\nurl: shots/two\nimage_min: b_min.png\nimage_big: b_big.png\n";
    cat.parse_file(source).expect("catalog source parses");
    cat.link_siblings();
    cat
}

#[test]
fn record_completes_on_last_required_field_in_any_order() {
    let cat = sample_catalog();
    assert_eq!(cat.galleries.len(), 1);
    let gal = &cat.galleries[0];
    assert_eq!(gal.title, "HFGE Screenshots");
    assert_eq!(gal.url, "hfge-screens");
    assert_eq!(gal.screenshots.len(), 2);
    assert_eq!(gal.screenshots[0].title, "Shot One");
    assert_eq!(gal.screenshots[1].title, "Shot Two");
    assert_eq!(gal.screenshots[1].image_big, "b_big.png");
    assert_eq!(gal.screenshots[1].screenshots_title, "HFGE Screenshots");
    assert_eq!(gal.screenshots[1].screenshots_url, "hfge-screens");
}

#[test]
fn incomplete_record_is_not_filed() {
    let mut cat = Screenshots::new("screenshots".to_string());
    cat.parse_file("screenshots_title: G\nscreenshots_url: g\ntitle: Only A Title\nimage_min: m.png\n")
        .expect("parses");
    assert_eq!(cat.galleries.len(), 0);
}

#[test]
fn catalog_line_without_colon_is_rejected() {
    let mut cat = Screenshots::new("screenshots".to_string());
    assert_eq!(cat.parse_file("no colon here"), Err(ParseError::MalformedLine));
}

#[test]
fn gallery_url_keeps_first_value() {
    let mut cat = Screenshots::new("screenshots".to_string());
    cat.parse_file("screenshots_title: G\nscreenshots_url: first\ntitle: A\nimage_min: m\nimage_big: b\nurl: u1\n")
        .expect("parses");
    cat.parse_file("screenshots_title: G\nscreenshots_url: second\ntitle: B\nimage_min: m\nimage_big: b\nurl: u2\n")
        .expect("parses");
    assert_eq!(cat.galleries.len(), 1);
    assert_eq!(cat.galleries[0].url, "first");
    assert_eq!(cat.galleries[0].screenshots.len(), 2);
}

#[test]
fn sibling_lists_mirror_the_gallery() {
    let cat = sample_catalog();
    let gal = &cat.galleries[0];
    for (i, shot) in gal.screenshots.iter().enumerate() {
        assert_eq!(shot.screenshots.len(), gal.screenshots.len());
        // the screenshot itself sits at its own position, exactly once
        let mut self_count = 0;
        for sib in &shot.screenshots {
            if sib.title == shot.title && sib.url == shot.url {
                self_count += 1;
            }
        }
        assert_eq!(self_count, 1);
        assert_eq!(shot.screenshots[i].title, shot.title);
        // siblings preserve gallery order
        assert_eq!(shot.screenshots[0].title, "Shot One");
        assert_eq!(shot.screenshots[1].title, "Shot Two");
    }
}

#[test]
fn get_screenshots_takes_prefix_of_named_gallery() {
    let cat = sample_catalog();
    let two = cat.get_screenshots(6, "HFGE Screenshots").expect("gallery exists");
    assert_eq!(two.len(), 2);
    assert_eq!(two[0].title, "Shot One");
    let one = cat.get_screenshots(1, "HFGE Screenshots").expect("gallery exists");
    assert_eq!(one.len(), 1);
    assert!(matches!(
        cat.get_screenshots(6, "No Such Gallery"),
        Err(CatalogError::MissingGallery)
    ));
}

#[test]
fn catalog_page_plan_covers_galleries_and_screenshots() {
    let cat = sample_catalog();
    let plan = cat.page_plan();
    assert_eq!(plan.len(), 3);
    assert_eq!(plan[0].path, "hfge-screens/index.html");
    assert_eq!(plan[0].gallery, 0);
    assert_eq!(plan[0].shot, None);
    assert_eq!(plan[1].path, "shots/one/index.html");
    assert_eq!(plan[1].shot, Some(0));
    assert_eq!(plan[2].path, "shots/two/index.html");
    assert_eq!(plan[2].shot, Some(1));
}

#[test]
fn screenshot_new_and_page_path() {
    let mut s = Screenshot::new();
    assert_eq!(s.title, "");
    assert_eq!(s.screenshots.len(), 0);
    s.url = "shots/solo".to_string();
    assert_eq!(s.page_path(), "shots/solo/index.html");
    let info = ScreenshotsInfo::new();
    assert_eq!(info.title, "");
    assert_eq!(info.url, "");
}

fn small_blog() -> Blog {
    let mut shared = BlogShared::new();
    let mut p = BlogPost::new("blog".to_string());
    p.title = "Hello".to_string();
    p.url = Helper::sanitize_string("Hello");
    p.published = Timestamp { year: 2024, month: 1, day: 1, hour: 0, minute: 0, second: 0 };
    p.updated = p.published;
    shared.insert_post(p);
    let mut blog = Blog::new("blog".to_string(), 20);
    blog.index_posts(&mut shared);
    blog
}

#[test]
fn root_index_waits_for_both_generators() {
    let mut plan = SitePlan::new();
    assert!(!plan.root_index_ready());
    assert!(matches!(
        plan.core_for_root_index(3, 6, "HFGE Screenshots", "blog".to_string()),
        Err(PlanError::BlogPending)
    ));
    plan.finish_blog(small_blog());
    assert!(!plan.root_index_ready());
    assert!(matches!(
        plan.core_for_root_index(3, 6, "HFGE Screenshots", "blog".to_string()),
        Err(PlanError::ScreenshotsPending)
    ));
    plan.finish_screenshots(sample_catalog());
    assert!(plan.root_index_ready());
    let core = plan
        .core_for_root_index(3, 6, "HFGE Screenshots", "blog".to_string())
        .expect("both generators finished");
    assert_eq!(core.blog_posts.len(), 1);
    assert_eq!(core.screenshots.len(), 2);
    assert_eq!(core.blog_base_dir, "blog");
    assert_eq!(core.hfge_url, "projects/hfge");
}

#[test]
fn root_index_data_is_the_same_in_either_finish_order() {
    let mut first = SitePlan::new();
    first.finish_blog(small_blog());
    first.finish_screenshots(sample_catalog());
    let mut second = SitePlan::new();
    second.finish_screenshots(sample_catalog());
    second.finish_blog(small_blog());
    let a = first
        .core_for_root_index(3, 6, "HFGE Screenshots", "blog".to_string())
        .expect("ready");
    let b = second
        .core_for_root_index(3, 6, "HFGE Screenshots", "blog".to_string())
        .expect("ready");
    assert_eq!(a.blog_posts.len(), b.blog_posts.len());
    assert_eq!(a.blog_posts[0].title, b.blog_posts[0].title);
    assert_eq!(a.screenshots.len(), b.screenshots.len());
    assert_eq!(a.screenshots[0].title, b.screenshots[0].title);
}

#[test]
fn missing_gallery_is_reported() {
    let mut plan = SitePlan::new();
    plan.finish_blog(small_blog());
    plan.finish_screenshots(Screenshots::new("screenshots".to_string()));
    assert!(matches!(
        plan.core_for_root_index(3, 6, "HFGE Screenshots", "blog".to_string()),
        Err(PlanError::MissingGallery)
    ));
}

#[test]
fn core_new_defaults() {
    let core = Core::new();
    assert_eq!(core.blog_posts.len(), 0);
    assert_eq!(core.screenshots.len(), 0);
    assert_eq!(core.hfge_url, "projects/hfge");
    assert_eq!(core.blog_base_dir, "");
}

#[test]
fn preflight_requires_all_three_dirs() {
    assert!(required_dirs_present(true, true, true));
    assert!(!required_dirs_present(false, true, true));
    assert!(!required_dirs_present(true, false, true));
    assert!(!required_dirs_present(true, true, false));
}
