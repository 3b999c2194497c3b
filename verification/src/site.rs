use crate::blog::{post_models, Blog};
use crate::post::BlogPost;
use crate::screenshots::{
    gallery_index, gallery_models, shallow_sibs, shot_core, Screenshot, Screenshots,
};
use vstd::prelude::*;

verus! {

/// The root index page's data: the freshest posts, a slice of one
/// gallery, and the blog's base directory.
pub struct Core {
    pub blog_posts: Vec<BlogPost>,
    pub screenshots: Vec<Screenshot>,
    pub hfge_url: String,
    pub blog_base_dir: String,
}

impl Core {
    /// Core-page data with nothing filled in yet.
    pub fn new() -> (r: Core)
        ensures
            r.blog_posts@.len() == 0,
            r.screenshots@.len() == 0,
            r.hfge_url@ == "projects/hfge"@,
            r.blog_base_dir@ == Seq::<char>::empty(),
    {
        Core {
            blog_posts: Vec::new(),
            screenshots: Vec::new(),
            hfge_url: String::from_str("projects/hfge"),
            blog_base_dir: String::new(),
        }
    }
}

/// Why the root index data cannot be produced.
#[derive(Clone, Copy, PartialEq, Eq, Structural, Debug)]
pub enum PlanError {
    /// The blog generator has not finished.
    BlogPending,
    /// The screenshot generator has not finished.
    ScreenshotsPending,
    /// No gallery has the requested title.
    MissingGallery,
}

/// The barrier before the root index: it records each generator's
/// completed result, and hands out the root index data only when both
/// are in — never a partial snapshot.
pub struct SitePlan {
    pub blog: Option<Blog>,
    pub screenshots: Option<Screenshots>,
}

impl SitePlan {
    /// A plan with neither generator finished.
    pub fn new() -> (r: SitePlan)
        ensures
            r.blog is None,
            r.screenshots is None,
    {
        SitePlan { blog: None, screenshots: None }
    }

    /// Records the blog generator's completed result.
    pub fn finish_blog(&mut self, blog: Blog)
        ensures
            final(self).blog == Some(blog),
            final(self).screenshots == old(self).screenshots,
    {
        self.blog = Some(blog);
    }

    /// Records the screenshot generator's completed result.
    pub fn finish_screenshots(&mut self, screenshots: Screenshots)
        ensures
            final(self).screenshots == Some(screenshots),
            final(self).blog == old(self).blog,
    {
        self.screenshots = Some(screenshots);
    }

    /// Whether the root index may be generated.
    pub fn root_index_ready(&self) -> (r: bool)
        ensures
            r == (self.blog is Some && self.screenshots is Some),
    {
        self.blog.is_some() && self.screenshots.is_some()
    }

    /// The root index data, built only from the two finished results:
    /// the freshest posts of the completed blog and the head of the
    /// named gallery of the completed catalog.
    pub fn core_for_root_index(
        &self,
        num_posts: usize,
        num_screenshots: usize,
        gallery_key: &str,
        blog_base_dir: String,
    ) -> (r: Result<Core, PlanError>)
        requires
            self.screenshots matches Some(s) ==> shallow_sibs(s.galleries@),
        ensures
            self.blog is None ==> r == Err::<Core, PlanError>(PlanError::BlogPending),
            self.blog is Some && self.screenshots is None ==> r == Err::<Core, PlanError>(
                PlanError::ScreenshotsPending,
            ),
            self.blog matches Some(b) ==> self.screenshots matches Some(s) ==> {
                let gi = gallery_index(gallery_models(s.galleries@), gallery_key@);
                &&& gi >= s.galleries@.len() ==> r == Err::<Core, PlanError>(
                    PlanError::MissingGallery,
                )
                &&& gi < s.galleries@.len() ==> (r matches Ok(core) && {
                    let gal = s.galleries@[gi];
                    &&& core.blog_posts@.len() == vstd::math::min(
                        num_posts as int,
                        b.blog_posts@.len() as int,
                    )
                    &&& forall|i: int|
                        0 <= i < core.blog_posts@.len() ==> (#[trigger] core.blog_posts@[i])@
                            == post_models(b.blog_posts@)[i]
                    &&& core.screenshots@.len() == vstd::math::min(
                        num_screenshots as int,
                        gal.screenshots@.len() as int,
                    )
                    &&& forall|i: int|
                        0 <= i < core.screenshots@.len() ==> shot_core(
                            #[trigger] core.screenshots@[i],
                        ) == shot_core(gal.screenshots@[i])
                    &&& core.hfge_url@ == "projects/hfge"@
                    &&& core.blog_base_dir@ == blog_base_dir@
                })
            },
    {
        let blog = match &self.blog {
            Some(b) => b,
            None => {
                return Err(PlanError::BlogPending);
            },
        };
        let shots = match &self.screenshots {
            Some(s) => s,
            None => {
                return Err(PlanError::ScreenshotsPending);
            },
        };
        let latest = blog.get_latest_blog_posts(num_posts);
        let gallery = match shots.get_screenshots(num_screenshots, gallery_key) {
            Ok(v) => v,
            Err(_) => {
                return Err(PlanError::MissingGallery);
            },
        };
        let mut core = Core::new();
        core.blog_posts = latest;
        core.screenshots = gallery;
        core.blog_base_dir = blog_base_dir;
        Ok(core)
    }
}

/// The environment check before any work starts: the three input
/// directories must all be present.
pub fn required_dirs_present(
    blog_posts_dir: bool,
    screenshots_dir: bool,
    templates_dir: bool,
) -> (ok: bool)
    ensures
        ok == (blog_posts_dir && screenshots_dir && templates_dir),
{
    blog_posts_dir && screenshots_dir && templates_dir
}

} // verus!
