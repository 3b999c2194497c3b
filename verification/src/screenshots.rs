use crate::post::ParseError;
use crate::text::{find_char_from, spec_find, spec_split_lines, spec_trim, split_lines, str_equal, trim_str};
use vstd::prelude::*;

verus! {

/// A gallery header while a description file is read.
pub struct ScreenshotsInfo {
    pub title: String,
    pub url: String,
}

impl ScreenshotsInfo {
    /// A header with both fields still blank.
    pub fn new() -> (r: ScreenshotsInfo)
        ensures
            r.title@ == Seq::<char>::empty(),
            r.url@ == Seq::<char>::empty(),
    {
        ScreenshotsInfo { title: String::new(), url: String::new() }
    }
}

/// One screenshot; `screenshots` holds its gallery siblings once the
/// catalog has been linked.
pub struct Screenshot {
    pub screenshots_title: String,
    pub screenshots_url: String,
    pub title: String,
    pub image_min: String,
    pub image_big: String,
    pub url: String,
    pub screenshots: Vec<Screenshot>,
}

/// The plain fields of a screenshot, without its sibling list.
#[verifier::ext_equal]
pub struct ShotCore {
    pub screenshots_title: Seq<char>,
    pub screenshots_url: Seq<char>,
    pub title: Seq<char>,
    pub image_min: Seq<char>,
    pub image_big: Seq<char>,
    pub url: Seq<char>,
}

/// The plain fields of a screenshot.
pub open spec fn shot_core(s: Screenshot) -> ShotCore {
    ShotCore {
        screenshots_title: s.screenshots_title@,
        screenshots_url: s.screenshots_url@,
        title: s.title@,
        image_min: s.image_min@,
        image_big: s.image_big@,
        url: s.url@,
    }
}

/// The plain fields of each screenshot in a sequence.
pub open spec fn cores_of(v: Seq<Screenshot>) -> Seq<ShotCore> {
    v.map_values(|s: Screenshot| shot_core(s))
}

/// An entirely blank screenshot record.
pub open spec fn blank_core() -> ShotCore {
    ShotCore {
        screenshots_title: Seq::empty(),
        screenshots_url: Seq::empty(),
        title: Seq::empty(),
        image_min: Seq::empty(),
        image_big: Seq::empty(),
        url: Seq::empty(),
    }
}

impl Screenshot {
    /// A blank screenshot record.
    pub fn new() -> (r: Screenshot)
        ensures
            shot_core(r) == blank_core(),
            r.screenshots@.len() == 0,
    {
        Screenshot {
            screenshots_title: String::new(),
            screenshots_url: String::new(),
            title: String::new(),
            image_min: String::new(),
            image_big: String::new(),
            url: String::new(),
            screenshots: Vec::new(),
        }
    }

    /// The output path of this screenshot's page, under the output root.
    pub fn page_path(&self) -> (r: String)
        ensures
            r@ == self.url@ + "/index.html"@,
    {
        let mut r = self.url.clone();
        r.append("/index.html");
        r
    }
}

/// Copies the plain fields of a screenshot; the copy's sibling list is
/// empty.
fn clone_core(s: &Screenshot) -> (r: Screenshot)
    ensures
        shot_core(r) == shot_core(*s),
        r.screenshots@.len() == 0,
{
    Screenshot {
        screenshots_title: s.screenshots_title.clone(),
        screenshots_url: s.screenshots_url.clone(),
        title: s.title.clone(),
        image_min: s.image_min.clone(),
        image_big: s.image_big.clone(),
        url: s.url.clone(),
        screenshots: Vec::new(),
    }
}

/// Copies a list of screenshots field by field; the copies carry empty
/// sibling lists.
fn clone_core_vec(v: &Vec<Screenshot>) -> (r: Vec<Screenshot>)
    ensures
        r@.len() == v@.len(),
        cores_of(r@) == cores_of(v@),
        forall|i: int| 0 <= i < r@.len() ==> #[trigger] r@[i].screenshots@.len() == 0,
{
    let n = v.len();
    let mut r: Vec<Screenshot> = Vec::new();
    let mut i: usize = 0;
    while i < n
        invariant
            0 <= i <= n,
            n == v@.len(),
            r@.len() == i,
            forall|t: int| 0 <= t < i ==> shot_core(#[trigger] r@[t]) == shot_core(v@[t]),
            forall|t: int| 0 <= t < i ==> #[trigger] r@[t].screenshots@.len() == 0,
        decreases n - i,
    {
        r.push(clone_core(&v[i]));
        i = i + 1;
    }
    proof {
        assert(cores_of(r@) =~= cores_of(v@));
    }
    r
}

/// One gallery: its name, its landing URL, and its screenshots in
/// order of completion.
pub struct Gallery {
    pub title: String,
    pub url: String,
    pub screenshots: Vec<Screenshot>,
}

/// The mathematical value of a gallery: its header and the plain
/// fields of its screenshots.
#[verifier::ext_equal]
pub struct GalleryModel {
    pub title: Seq<char>,
    pub url: Seq<char>,
    pub shots: Seq<ShotCore>,
}

/// The value of a gallery.
pub open spec fn gallery_model(g: Gallery) -> GalleryModel {
    GalleryModel { title: g.title@, url: g.url@, shots: cores_of(g.screenshots@) }
}

/// The values of a sequence of galleries.
pub open spec fn gallery_models(gs: Seq<Gallery>) -> Seq<GalleryModel> {
    gs.map_values(|g: Gallery| gallery_model(g))
}

/// The first gallery with the given title, or `gs.len()` if none has
/// it.
pub open spec fn gallery_index(gs: Seq<GalleryModel>, title: Seq<char>) -> int
    decreases gs.len(),
{
    if gs.len() == 0 {
        0
    } else if gs[0].title == title {
        0
    } else {
        1 + gallery_index(gs.drop_first(), title)
    }
}

pub proof fn lemma_gallery_index_is(gs: Seq<GalleryModel>, title: Seq<char>, j: int)
    requires
        0 <= j <= gs.len(),
        forall|t: int| 0 <= t < j ==> gs[t].title != title,
        j < gs.len() ==> gs[j].title == title,
    ensures
        gallery_index(gs, title) == j,
    decreases gs.len(),
{
    if gs.len() > 0 && j > 0 {
        lemma_gallery_index_is(gs.drop_first(), title, j - 1);
    }
}

/// The accumulating state of a description-file parse.
#[verifier::ext_equal]
pub struct CatState {
    pub info_title: Seq<char>,
    pub info_url: Seq<char>,
    pub cur_title: Seq<char>,
    pub cur_image_min: Seq<char>,
    pub cur_image_big: Seq<char>,
    pub cur_url: Seq<char>,
    pub galleries: Seq<GalleryModel>,
}

/// Whether the record in flight has all four of its own fields and
/// both gallery fields set.
pub open spec fn cat_record_full(st: CatState) -> bool {
    &&& st.cur_title.len() > 0
    &&& st.cur_image_min.len() > 0
    &&& st.cur_image_big.len() > 0
    &&& st.cur_url.len() > 0
    &&& st.info_title.len() > 0
    &&& st.info_url.len() > 0
}

/// Appends a completed screenshot to its gallery: to the first gallery
/// with that title, or to a fresh gallery at the end, whose URL is the
/// header URL at completion time.
pub open spec fn append_shot(
    gs: Seq<GalleryModel>,
    title: Seq<char>,
    url: Seq<char>,
    core: ShotCore,
) -> Seq<GalleryModel> {
    let i = gallery_index(gs, title);
    if i < gs.len() {
        gs.update(i, GalleryModel { shots: gs[i].shots.push(core), ..gs[i] })
    } else {
        gs.push(GalleryModel { title: title, url: url, shots: seq![core] })
    }
}

/// If the record in flight just became complete, files it in its
/// gallery and starts a blank record; otherwise leaves the state as it
/// is.
pub open spec fn cat_complete(st: CatState) -> CatState {
    if cat_record_full(st) {
        let core = ShotCore {
            screenshots_title: st.info_title,
            screenshots_url: st.info_url,
            title: st.cur_title,
            image_min: st.cur_image_min,
            image_big: st.cur_image_big,
            url: st.cur_url,
        };
        CatState {
            cur_title: Seq::empty(),
            cur_image_min: Seq::empty(),
            cur_image_big: Seq::empty(),
            cur_url: Seq::empty(),
            galleries: append_shot(st.galleries, st.info_title, st.info_url, core),
            ..st
        }
    } else {
        st
    }
}

/// One line of a description file applied to the parse state.  Empty
/// lines are skipped; every other line must be a `key: value` pair;
/// recognized keys set their field (trimmed), unknown keys change
/// nothing, and after each such line the record is filed the moment it
/// is complete.
pub open spec fn cat_line(st: CatState, line: Seq<char>) -> Result<CatState, ParseError> {
    if line.len() == 0 {
        Ok(st)
    } else {
        let c = spec_find(line, ':', 0);
        if c == line.len() {
            Err(ParseError::MalformedLine)
        } else {
            let key = line.take(c);
            let value = spec_trim(line.skip(c + 1));
            let st1 = if key == "screenshots_title"@ {
                CatState { info_title: value, ..st }
            } else if key == "screenshots_url"@ {
                CatState { info_url: value, ..st }
            } else if key == "title"@ {
                CatState { cur_title: value, ..st }
            } else if key == "image_min"@ {
                CatState { cur_image_min: value, ..st }
            } else if key == "image_big"@ {
                CatState { cur_image_big: value, ..st }
            } else if key == "url"@ {
                CatState { cur_url: value, ..st }
            } else {
                st
            };
            Ok(cat_complete(st1))
        }
    }
}

/// All lines applied in order; the first rejection wins.
pub open spec fn cat_lines(st: CatState, lines: Seq<Seq<char>>) -> Result<CatState, ParseError>
    decreases lines.len(),
{
    if lines.len() == 0 {
        Ok(st)
    } else {
        match cat_line(st, lines[0]) {
            Ok(st2) => cat_lines(st2, lines.drop_first()),
            Err(e) => Err(e),
        }
    }
}

/// The state a description-file parse starts from, over the galleries
/// gathered so far.
pub open spec fn init_cat_state(galleries: Seq<GalleryModel>) -> CatState {
    CatState {
        info_title: Seq::empty(),
        info_url: Seq::empty(),
        cur_title: Seq::empty(),
        cur_image_min: Seq::empty(),
        cur_image_big: Seq::empty(),
        cur_url: Seq::empty(),
        galleries: galleries,
    }
}

/// Whether every screenshot's sibling list is empty: the state of a
/// catalog that has not been linked.
pub open spec fn sibs_empty(gs: Seq<Gallery>) -> bool {
    forall|g: int, i: int|
        0 <= g < gs.len() && 0 <= i < gs[g].screenshots@.len() ==> (#[trigger] gs[g].screenshots@[i]).screenshots@.len() == 0
}

/// Whether no sibling's own sibling list goes further down: the state
/// both before and after linking.
pub open spec fn shallow_sibs(gs: Seq<Gallery>) -> bool {
    forall|g: int, i: int, j: int|
        0 <= g < gs.len() && 0 <= i < gs[g].screenshots@.len() && 0 <= j
            < gs[g].screenshots@[i].screenshots@.len() ==> (#[trigger] gs[g].screenshots@[i].screenshots@[j]).screenshots@.len() == 0
}

/// Whether one screenshot's sibling list mirrors its whole gallery.
pub open spec fn shot_linked(s: Screenshot, gallery_cores: Seq<ShotCore>) -> bool {
    &&& cores_of(s.screenshots@) == gallery_cores
    &&& forall|j: int| 0 <= j < s.screenshots@.len() ==> (#[trigger] s.screenshots@[j]).screenshots@.len() == 0
}

/// Whether every screenshot of every gallery carries the full,
/// order-preserved list of its gallery as siblings.
pub open spec fn linked(gs: Seq<Gallery>) -> bool {
    forall|g: int, i: int|
        0 <= g < gs.len() && 0 <= i < gs[g].screenshots@.len() ==> shot_linked(
            #[trigger] gs[g].screenshots@[i],
            cores_of(gs[g].screenshots@),
        )
}

/// Sibling linking, stated for one screenshot: its sibling list is as
/// long as its gallery and holds the screenshot itself at its own
/// position.
pub proof fn lemma_sibling_lists(gs: Seq<Gallery>, g: int, i: int)
    requires
        linked(gs),
        0 <= g < gs.len(),
        0 <= i < gs[g].screenshots@.len(),
    ensures
        gs[g].screenshots@[i].screenshots@.len() == gs[g].screenshots@.len(),
        shot_core(gs[g].screenshots@[i].screenshots@[i]) == shot_core(gs[g].screenshots@[i]),
{
    assert(shot_linked(gs[g].screenshots@[i], cores_of(gs[g].screenshots@)));
    assert(cores_of(gs[g].screenshots@[i].screenshots@).len() == gs[g].screenshots@[i].screenshots@.len());
    assert(cores_of(gs[g].screenshots@[i].screenshots@)[i] == shot_core(
        gs[g].screenshots@[i].screenshots@[i],
    ));
    assert(cores_of(gs[g].screenshots@)[i] == shot_core(gs[g].screenshots@[i]));
}

/// Where the gallery's screenshots are pairwise distinct, a
/// screenshot occurs in its sibling list exactly once: at its own
/// position, and nowhere else.
pub proof fn lemma_sibling_self_once(gs: Seq<Gallery>, g: int, i: int, j: int)
    requires
        linked(gs),
        0 <= g < gs.len(),
        0 <= i < gs[g].screenshots@.len(),
        0 <= j < gs[g].screenshots@.len(),
        j != i,
        forall|k: int, l: int|
            0 <= k < gs[g].screenshots@.len() && 0 <= l < gs[g].screenshots@.len() && k != l
                ==> shot_core(#[trigger] gs[g].screenshots@[k]) != shot_core(
                #[trigger] gs[g].screenshots@[l]),
    ensures
        shot_core(gs[g].screenshots@[i].screenshots@[j]) != shot_core(gs[g].screenshots@[i]),
{
    assert(shot_linked(gs[g].screenshots@[i], cores_of(gs[g].screenshots@)));
    let sib = gs[g].screenshots@[i].screenshots@;
    assert(cores_of(sib).len() == sib.len());
    assert(sib.len() == gs[g].screenshots@.len());
    assert(cores_of(sib)[j] == shot_core(sib[j]));
    assert(cores_of(gs[g].screenshots@)[j] == shot_core(gs[g].screenshots@[j]));
    assert(shot_core(gs[g].screenshots@[j]) != shot_core(gs[g].screenshots@[i]));
}

/// Why a gallery lookup fails.
#[derive(Clone, Copy, PartialEq, Eq, Structural, Debug)]
pub enum CatalogError {
    /// No gallery has the requested title.
    MissingGallery,
}

/// One page of the catalog's output: a gallery's landing page when
/// `shot` is `None`, else one screenshot's page.
pub struct CatalogPage {
    pub path: String,
    pub gallery: usize,
    pub shot: Option<usize>,
}

/// The mathematical value of one catalog page.
#[verifier::ext_equal]
pub struct CatalogPageModel {
    pub path: Seq<char>,
    pub gallery: int,
    pub shot: Option<int>,
}

/// The values of a sequence of catalog pages.
pub open spec fn catalog_page_models(v: Seq<CatalogPage>) -> Seq<CatalogPageModel> {
    v.map_values(
        |p: CatalogPage|
            CatalogPageModel {
                path: p.path@,
                gallery: p.gallery as int,
                shot: match p.shot {
                    Some(j) => Some(j as int),
                    None => None,
                },
            },
    )
}

/// The pages of one gallery: its landing page, followed by one page
/// per screenshot, in gallery order.
pub open spec fn gallery_pages(g: Gallery, gi: int) -> Seq<CatalogPageModel> {
    seq![
        CatalogPageModel { path: g.url@ + "/index.html"@, gallery: gi, shot: None },
    ] + Seq::new(
        g.screenshots@.len(),
        |j: int|
            CatalogPageModel {
                path: g.screenshots@[j].url@ + "/index.html"@,
                gallery: gi,
                shot: Some(j),
            },
    )
}

/// The pages of the galleries from position `gi` on.
pub open spec fn spec_catalog_plan_from(gs: Seq<Gallery>, gi: int) -> Seq<CatalogPageModel>
    decreases gs.len() - gi when 0 <= gi <= gs.len()
{
    if gi >= gs.len() {
        Seq::empty()
    } else {
        gallery_pages(gs[gi], gi) + spec_catalog_plan_from(gs, gi + 1)
    }
}

/// The screenshot catalog: every gallery parsed from the description
/// files.
pub struct Screenshots {
    pub base_dir: String,
    pub galleries: Vec<Gallery>,
    pub title: String,
    pub url: String,
}

impl Screenshots {
    /// An empty catalog reading from the given directory.
    pub fn new(base_dir: String) -> (r: Screenshots)
        ensures
            r.base_dir@ == base_dir@,
            r.galleries@.len() == 0,
            r.title@ == Seq::<char>::empty(),
            r.url@ == Seq::<char>::empty(),
    {
        Screenshots {
            base_dir,
            galleries: Vec::new(),
            title: String::new(),
            url: String::new(),
        }
    }

    /// Reads one description file into the catalog, as `cat_lines`
    /// describes; a rejected file leaves the catalog unchanged.
    pub fn parse_file(&mut self, source: &str) -> (r: Result<(), ParseError>)
        ensures
            final(self).base_dir == old(self).base_dir,
            final(self).title == old(self).title,
            final(self).url == old(self).url,
            match cat_lines(
                init_cat_state(gallery_models(old(self).galleries@)),
                spec_split_lines(source@),
            ) {
                Ok(st) => r is Ok && gallery_models(final(self).galleries@) == st.galleries,
                Err(e) => r == Err::<(), ParseError>(e),
            },
            sibs_empty(old(self).galleries@) ==> sibs_empty(final(self).galleries@),
    {
        let ghost all_lines = spec_split_lines(source@);
        let lines = split_lines(source);
        let mut info_title = String::new();
        let mut info_url = String::new();
        let mut cur_title = String::new();
        let mut cur_image_min = String::new();
        let mut cur_image_big = String::new();
        let mut cur_url = String::new();
        let ghost mut st = init_cat_state(gallery_models(self.galleries@));
        proof {
            assert(all_lines.skip(0) =~= all_lines);
        }
        let n_lines = lines.len();
        let mut i: usize = 0;
        while i < n_lines
            invariant
                0 <= i <= n_lines,
                n_lines == lines@.len(),
                lines.deep_view() == all_lines,
                all_lines == spec_split_lines(source@),
                self.base_dir == old(self).base_dir,
                self.title == old(self).title,
                self.url == old(self).url,
                sibs_empty(old(self).galleries@) ==> sibs_empty(self.galleries@),
                st == (CatState {
                    info_title: info_title@,
                    info_url: info_url@,
                    cur_title: cur_title@,
                    cur_image_min: cur_image_min@,
                    cur_image_big: cur_image_big@,
                    cur_url: cur_url@,
                    galleries: gallery_models(self.galleries@),
                }),
                cat_lines(init_cat_state(gallery_models(old(self).galleries@)), all_lines)
                    == cat_lines(st, all_lines.skip(i as int)),
            decreases n_lines - i,
        {
            let line = &lines[i];
            let ghost line_view = line@;
            let ghost st0 = st;
            proof {
                assert(line.deep_view() == all_lines[i as int]);
                assert(all_lines.skip(i as int)[0] == all_lines[i as int]);
                assert(all_lines.skip(i as int).drop_first() =~= all_lines.skip(i + 1));
            }
            if !line.as_str().is_empty() {
                let n_line = line.as_str().unicode_len();
                let c = find_char_from(line.as_str(), ':', 0);
                if c == n_line {
                    proof {
                        assert(cat_line(st, line_view) == Err::<CatState, ParseError>(
                            ParseError::MalformedLine,
                        ));
                        assert(cat_lines(st, all_lines.skip(i as int)) == Err::<
                            CatState,
                            ParseError,
                        >(ParseError::MalformedLine));
                    }
                    return Err(ParseError::MalformedLine);
                }
                let key = line.as_str().substring_char(0, c);
                let value = trim_str(line.as_str().substring_char(c + 1, n_line));
                proof {
                    assert(key@ =~= line_view.take(c as int));
                    assert(line_view.subrange(c + 1, line_view.len() as int) =~= line_view.skip(
                        c + 1,
                    ));
                    assert(value@ == spec_trim(line_view.skip(c + 1)));
                }
                if str_equal(key, "screenshots_title") {
                    info_title = value;
                } else if str_equal(key, "screenshots_url") {
                    info_url = value;
                } else if str_equal(key, "title") {
                    cur_title = value;
                } else if str_equal(key, "image_min") {
                    cur_image_min = value;
                } else if str_equal(key, "image_big") {
                    cur_image_big = value;
                } else if str_equal(key, "url") {
                    cur_url = value;
                } else {
                }
                let ghost st1 = (CatState {
                    info_title: info_title@,
                    info_url: info_url@,
                    cur_title: cur_title@,
                    cur_image_min: cur_image_min@,
                    cur_image_big: cur_image_big@,
                    cur_url: cur_url@,
                    galleries: gallery_models(self.galleries@),
                });
                let complete = !cur_title.as_str().is_empty() && !cur_image_min.as_str().is_empty()
                    && !cur_image_big.as_str().is_empty() && !cur_url.as_str().is_empty()
                    && !info_title.as_str().is_empty() && !info_url.as_str().is_empty();
                if complete {
                    let shot = Screenshot {
                        screenshots_title: info_title.clone(),
                        screenshots_url: info_url.clone(),
                        title: cur_title,
                        image_min: cur_image_min,
                        image_big: cur_image_big,
                        url: cur_url,
                        screenshots: Vec::new(),
                    };
                    cur_title = String::new();
                    cur_image_min = String::new();
                    cur_image_big = String::new();
                    cur_url = String::new();
                    let ghost core = shot_core(shot);
                    // find the gallery with this title, if any
                    let n_g = self.galleries.len();
                    let mut gi: usize = 0;
                    while gi < n_g && !str_equal(self.galleries[gi].title.as_str(), info_title.as_str())
                        invariant
                            0 <= gi <= n_g,
                            n_g == self.galleries@.len(),
                            forall|t: int|
                                0 <= t < gi ==> (#[trigger] self.galleries@[t]).title@
                                    != info_title@,
                        decreases n_g - gi,
                    {
                        gi = gi + 1;
                    }
                    proof {
                        assert(forall|t: int|
                            0 <= t < gi ==> gallery_models(self.galleries@)[t].title == (
                            #[trigger] self.galleries@[t]).title@);
                        if gi < n_g {
                            assert(gallery_models(self.galleries@)[gi as int].title
                                == self.galleries@[gi as int].title@);
                        }
                        lemma_gallery_index_is(
                            gallery_models(self.galleries@),
                            info_title@,
                            gi as int,
                        );
                    }
                    let ghost gals0 = self.galleries@;
                    if gi < n_g {
                        let mut gal = self.galleries.remove(gi);
                        gal.screenshots.push(shot);
                        self.galleries.insert(gi, gal);
                        proof {
                            assert(self.galleries@ =~= gals0.update(
                                gi as int,
                                (Gallery {
                                    title: gals0[gi as int].title,
                                    url: gals0[gi as int].url,
                                    screenshots: self.galleries@[gi as int].screenshots,
                                }),
                            ));
                            assert(cores_of(self.galleries@[gi as int].screenshots@) =~= cores_of(
                                gals0[gi as int].screenshots@,
                            ).push(core));
                            assert(gallery_models(self.galleries@) =~= append_shot(
                                gallery_models(gals0),
                                info_title@,
                                info_url@,
                                core,
                            ));
                        }
                    } else {
                        let mut shots: Vec<Screenshot> = Vec::new();
                        shots.push(shot);
                        let gal = Gallery {
                            title: info_title.clone(),
                            url: info_url.clone(),
                            screenshots: shots,
                        };
                        self.galleries.push(gal);
                        proof {
                            assert(cores_of(self.galleries@[n_g as int].screenshots@) =~= seq![
                                core,
                            ]);
                            assert(gallery_models(self.galleries@) =~= append_shot(
                                gallery_models(gals0),
                                info_title@,
                                info_url@,
                                core,
                            ));
                        }
                    }
                    proof {
                        st = cat_line(st0, line_view)->Ok_0;
                        assert(cat_record_full(st1));
                        assert(st =~= cat_complete(st1));
                    }
                } else {
                    proof {
                        st = cat_line(st0, line_view)->Ok_0;
                        assert(!cat_record_full(st1));
                        assert(st =~= cat_complete(st1));
                    }
                }
            } else {
                proof {
                    st = cat_line(st0, line_view)->Ok_0;
                }
            }
            proof {
                assert(st =~= (CatState {
                    info_title: info_title@,
                    info_url: info_url@,
                    cur_title: cur_title@,
                    cur_image_min: cur_image_min@,
                    cur_image_big: cur_image_big@,
                    cur_url: cur_url@,
                    galleries: gallery_models(self.galleries@),
                }));
                assert(cat_line(st0, all_lines[i as int]) == Ok::<CatState, ParseError>(st));
                assert(cat_lines(st0, all_lines.skip(i as int)) == cat_lines(
                    st,
                    all_lines.skip(i + 1),
                ));
            }
            i = i + 1;
        }
        proof {
            assert(all_lines.skip(n_lines as int) =~= Seq::<Seq<char>>::empty());
            assert(cat_lines(init_cat_state(gallery_models(old(self).galleries@)), all_lines)
                == Ok::<CatState, ParseError>(st));
        }
        Ok(())
    }

    /// Gives every screenshot of every gallery the full ordered gallery
    /// list as its sibling list.
    pub fn link_siblings(&mut self)
        ensures
            final(self).base_dir == old(self).base_dir,
            final(self).title == old(self).title,
            final(self).url == old(self).url,
            gallery_models(final(self).galleries@) == gallery_models(old(self).galleries@),
            linked(final(self).galleries@),
    {
        let n_g = self.galleries.len();
        let mut g: usize = 0;
        while g < n_g
            invariant
                0 <= g <= n_g,
                n_g == self.galleries@.len(),
                self.base_dir == old(self).base_dir,
                self.title == old(self).title,
                self.url == old(self).url,
                gallery_models(self.galleries@) =~= gallery_models(old(self).galleries@),
                forall|t: int, i: int|
                    0 <= t < g && 0 <= i < self.galleries@[t].screenshots@.len() ==> shot_linked(
                        #[trigger] self.galleries@[t].screenshots@[i],
                        cores_of(self.galleries@[t].screenshots@),
                    ),
            decreases n_g - g,
        {
            let mut gal = self.galleries.remove(g);
            let bare = clone_core_vec(&gal.screenshots);
            let m = gal.screenshots.len();
            let mut fresh: Vec<Screenshot> = Vec::new();
            let mut i: usize = 0;
            while i < m
                invariant
                    0 <= i <= m,
                    m == gal.screenshots@.len(),
                    bare@.len() == m,
                    cores_of(bare@) == cores_of(gal.screenshots@),
                    forall|t: int| 0 <= t < m ==> (#[trigger] bare@[t]).screenshots@.len() == 0,
                    fresh@.len() == i,
                    forall|t: int|
                        0 <= t < i ==> shot_core(#[trigger] fresh@[t]) == shot_core(
                            gal.screenshots@[t],
                        ),
                    forall|t: int|
                        0 <= t < i ==> shot_linked(
                            #[trigger] fresh@[t],
                            cores_of(gal.screenshots@),
                        ),
                decreases m - i,
            {
                let mut s = clone_core(&gal.screenshots[i]);
                s.screenshots = clone_core_vec(&bare);
                proof {
                    assert(cores_of(s.screenshots@) =~= cores_of(gal.screenshots@));
                }
                fresh.push(s);
                i = i + 1;
            }
            let ghost old_shots = gal.screenshots@;
            gal.screenshots = fresh;
            proof {
                assert(cores_of(gal.screenshots@) =~= cores_of(old_shots));
            }
            self.galleries.insert(g, gal);
            proof {
                assert(gallery_models(self.galleries@) =~= gallery_models(old(self).galleries@));
            }
            g = g + 1;
        }
    }

    /// The catalog's pages in write order, as `spec_catalog_plan_from`
    /// describes: each gallery's landing page, followed by one page
    /// per screenshot of that gallery.
    pub fn page_plan(&self) -> (plan: Vec<CatalogPage>)
        ensures
            catalog_page_models(plan@) == spec_catalog_plan_from(self.galleries@, 0),
    {
        let n_g = self.galleries.len();
        let mut plan: Vec<CatalogPage> = Vec::new();
        proof {
            assert(spec_catalog_plan_from(self.galleries@, n_g as int)
                =~= Seq::<CatalogPageModel>::empty());
        }
        let mut g: usize = 0;
        while g < n_g
            invariant
                0 <= g <= n_g,
                n_g == self.galleries@.len(),
                spec_catalog_plan_from(self.galleries@, 0) == catalog_page_models(plan@)
                    + spec_catalog_plan_from(self.galleries@, g as int),
            decreases n_g - g,
        {
            let gal = &self.galleries[g];
            let m = gal.screenshots.len();
            let mut part: Vec<CatalogPage> = Vec::new();
            let mut landing = gal.url.clone();
            landing.append("/index.html");
            part.push(CatalogPage { path: landing, gallery: g, shot: None });
            let mut j: usize = 0;
            while j < m
                invariant
                    0 <= j <= m,
                    0 <= g < self.galleries@.len(),
                    gal == self.galleries@[g as int],
                    m == gal.screenshots@.len(),
                    part@.len() == j + 1,
                    catalog_page_models(part@)[0] == (CatalogPageModel {
                        path: gal.url@ + "/index.html"@,
                        gallery: g as int,
                        shot: Option::<int>::None,
                    }),
                    forall|t: int|
                        0 <= t < j ==> catalog_page_models(part@)[t + 1] == (CatalogPageModel {
                            path: gal.screenshots@[t].url@ + "/index.html"@,
                            gallery: g as int,
                            shot: Some(t),
                        }),
                decreases m - j,
            {
                let p = gal.screenshots[j].page_path();
                let ghost part0 = part@;
                part.push(CatalogPage { path: p, gallery: g, shot: Some(j) });
                proof {
                    assert(forall|t: int| 0 <= t < part0.len() ==> part@[t] == part0[t]);
                }
                j = j + 1;
            }
            let ghost w0 = plan@;
            let ghost part_view = part@;
            plan.append(&mut part);
            proof {
                assert(catalog_page_models(part_view) =~= gallery_pages(
                    self.galleries@[g as int],
                    g as int,
                ));
                assert(plan@ =~= w0 + part_view);
                assert(catalog_page_models(plan@) =~= catalog_page_models(w0)
                    + catalog_page_models(part_view));
                assert(spec_catalog_plan_from(self.galleries@, g as int) == gallery_pages(
                    self.galleries@[g as int],
                    g as int,
                ) + spec_catalog_plan_from(self.galleries@, g + 1));
            }
            g = g + 1;
        }
        plan
    }

    /// The first `num_screenshots` screenshots of the gallery with the
    /// given title; a title no gallery has is an error.
    pub fn get_screenshots(&self, num_screenshots: usize, key: &str) -> (r: Result<
        Vec<Screenshot>,
        CatalogError,
    >)
        requires
            shallow_sibs(self.galleries@),
        ensures
            (gallery_index(gallery_models(self.galleries@), key@) < self.galleries@.len()) <==> r
                is Ok,
            r matches Ok(v) ==> {
                let gal = self.galleries@[gallery_index(gallery_models(self.galleries@), key@)];
                &&& v@.len() == vstd::math::min(num_screenshots as int, gal.screenshots@.len() as int)
                &&& forall|t: int|
                    0 <= t < v@.len() ==> shot_core(#[trigger] v@[t]) == shot_core(
                        gal.screenshots@[t],
                    )
                &&& forall|t: int|
                    0 <= t < v@.len() ==> cores_of((#[trigger] v@[t]).screenshots@) == cores_of(
                        gal.screenshots@[t].screenshots@,
                    )
            },
            r matches Err(e) ==> e == CatalogError::MissingGallery,
    {
        let n_g = self.galleries.len();
        let mut gi: usize = 0;
        while gi < n_g && !str_equal(self.galleries[gi].title.as_str(), key)
            invariant
                0 <= gi <= n_g,
                n_g == self.galleries@.len(),
                forall|t: int| 0 <= t < gi ==> (#[trigger] self.galleries@[t]).title@ != key@,
            decreases n_g - gi,
        {
            gi = gi + 1;
        }
        proof {
            assert(forall|t: int|
                0 <= t < gi ==> gallery_models(self.galleries@)[t].title == (
                #[trigger] self.galleries@[t]).title@);
            if gi < n_g {
                assert(gallery_models(self.galleries@)[gi as int].title
                    == self.galleries@[gi as int].title@);
            }
            lemma_gallery_index_is(gallery_models(self.galleries@), key@, gi as int);
        }
        if gi == n_g {
            return Err(CatalogError::MissingGallery);
        }
        let gal = &self.galleries[gi];
        let m = gal.screenshots.len();
        let take = if num_screenshots < m {
            num_screenshots
        } else {
            m
        };
        let mut out: Vec<Screenshot> = Vec::new();
        let mut t: usize = 0;
        while t < take
            invariant
                0 <= t <= take,
                take <= m,
                m == gal.screenshots@.len(),
                gal == self.galleries@[gi as int],
                gi < self.galleries@.len(),
                shallow_sibs(self.galleries@),
                out@.len() == t,
                forall|k: int|
                    0 <= k < t ==> shot_core(#[trigger] out@[k]) == shot_core(
                        gal.screenshots@[k],
                    ),
                forall|k: int|
                    0 <= k < t ==> cores_of((#[trigger] out@[k]).screenshots@) == cores_of(
                        gal.screenshots@[k].screenshots@,
                    ),
            decreases take - t,
        {
            let s_old = &gal.screenshots[t];
            let mut s = clone_core(s_old);
            s.screenshots = clone_core_vec(&s_old.screenshots);
            proof {
                assert(cores_of(s.screenshots@) =~= cores_of(s_old.screenshots@));
            }
            out.push(s);
            t = t + 1;
        }
        Ok(out)
    }
}

} // verus!
