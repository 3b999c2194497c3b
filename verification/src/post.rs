use crate::sanitize::{spec_sanitize, Helper};
use crate::text::{
    find_char_from, push_char, spec_find, spec_split_lines, spec_split_on, spec_trim, split_lines,
    split_on, str_equal, trim_str,
};
use crate::timestamp::{
    format_feed_date, parse_timestamp, spec_feed_date, spec_parse_ts, Timestamp,
};
use vstd::prelude::*;

verus! {

/// The markdown compiler's output for a source text; it depends on the
/// text alone.
pub uninterp spec fn html_of_markdown(md: Seq<char>) -> Seq<char>;

/// Relies on `markdown::to_html`: compiles markdown to HTML, cannot
/// fail with the default options, and depends on the input text alone.
#[verifier::external_body]
pub(crate) fn markdown_to_html(md: &str) -> (r: String)
    ensures
        r@ == html_of_markdown(md@),
{
    markdown::to_html(md)
}

/// Why a post source is rejected.
#[derive(Clone, Copy, PartialEq, Eq, Structural, Debug)]
pub enum ParseError {
    /// A header line with no `:` separator.
    MalformedLine,
    /// A `published` or `updated` value that is not a timestamp.
    BadTimestamp,
}

/// One blog post, as parsed from a front-matter source file.
pub struct BlogPost {
    pub base_dir: String,
    pub author: String,
    pub published: Timestamp,
    pub published_for_feed: String,
    pub updated: Timestamp,
    pub updated_for_feed: String,
    pub topics_comma_separated: String,
    pub topics: Vec<String>,
    pub topics_sanitized: Vec<String>,
    pub topic_base_dir: String,
    pub title: String,
    pub snippet: String,
    pub html: String,
    pub url: String,
}

/// The mathematical value of a post.
#[verifier::ext_equal]
pub struct PostModel {
    pub base_dir: Seq<char>,
    pub author: Seq<char>,
    pub published: Timestamp,
    pub published_for_feed: Seq<char>,
    pub updated: Timestamp,
    pub updated_for_feed: Seq<char>,
    pub topics_comma_separated: Seq<char>,
    pub topics: Seq<Seq<char>>,
    pub topics_sanitized: Seq<Seq<char>>,
    pub topic_base_dir: Seq<char>,
    pub title: Seq<char>,
    pub snippet: Seq<char>,
    pub html: Seq<char>,
    pub url: Seq<char>,
}

impl View for BlogPost {
    type V = PostModel;

    open spec fn view(&self) -> PostModel {
        PostModel {
            base_dir: self.base_dir@,
            author: self.author@,
            published: self.published,
            published_for_feed: self.published_for_feed@,
            updated: self.updated,
            updated_for_feed: self.updated_for_feed@,
            topics_comma_separated: self.topics_comma_separated@,
            topics: self.topics.deep_view(),
            topics_sanitized: self.topics_sanitized.deep_view(),
            topic_base_dir: self.topic_base_dir@,
            title: self.title@,
            snippet: self.snippet@,
            html: self.html@,
            url: self.url@,
        }
    }
}

/// The placeholder timestamp a fresh post carries.
pub open spec fn default_ts() -> Timestamp {
    Timestamp { year: 2000, month: 1, day: 1, hour: 23, minute: 56, second: 4 }
}

/// The value of a fresh post for a base directory.
pub open spec fn spec_fresh_post(base_dir: Seq<char>) -> PostModel {
    PostModel {
        base_dir: base_dir,
        author: Seq::empty(),
        published: default_ts(),
        published_for_feed: Seq::empty(),
        updated: default_ts(),
        updated_for_feed: Seq::empty(),
        topics_comma_separated: Seq::empty(),
        topics: Seq::empty(),
        topics_sanitized: Seq::empty(),
        topic_base_dir: "topic"@,
        title: Seq::empty(),
        snippet: Seq::empty(),
        html: Seq::empty(),
        url: Seq::empty(),
    }
}

/// The accumulating state of a front-matter parse.
#[verifier::ext_equal]
pub struct ParseState {
    pub start_found: bool,
    pub author: Seq<char>,
    pub published: Timestamp,
    pub published_for_feed: Seq<char>,
    pub updated: Timestamp,
    pub updated_for_feed: Seq<char>,
    pub topics_comma_separated: Seq<char>,
    pub topics: Seq<Seq<char>>,
    pub topics_sanitized: Seq<Seq<char>>,
    pub title: Seq<char>,
    pub snippet: Seq<char>,
    pub url: Seq<char>,
    pub md: Seq<char>,
}

/// The state a parse starts from.
pub open spec fn init_parse_state() -> ParseState {
    ParseState {
        start_found: false,
        author: Seq::empty(),
        published: default_ts(),
        published_for_feed: Seq::empty(),
        updated: default_ts(),
        updated_for_feed: Seq::empty(),
        topics_comma_separated: Seq::empty(),
        topics: Seq::empty(),
        topics_sanitized: Seq::empty(),
        title: Seq::empty(),
        snippet: Seq::empty(),
        url: Seq::empty(),
        md: Seq::empty(),
    }
}

/// One line of a post source applied to the parse state.  Before the
/// `---` delimiter, non-empty lines are `key: value` headers: a line
/// with no `:` is rejected, recognized keys set their fields (trimmed),
/// a bad timestamp is rejected, and unknown keys are ignored.  The
/// delimiter itself and everything after it, as well as empty header
/// lines, accumulate into the markdown body, joined by newlines.
pub open spec fn parse_line(st: ParseState, line: Seq<char>) -> Result<ParseState, ParseError> {
    if !st.start_found && line.len() > 0 {
        if line == "---"@ {
            Ok(ParseState { start_found: true, ..st })
        } else {
            let c = spec_find(line, ':', 0);
            if c == line.len() {
                Err(ParseError::MalformedLine)
            } else {
                let key = line.take(c);
                let value = line.skip(c + 1);
                if key == "author"@ {
                    Ok(ParseState { author: spec_trim(value), ..st })
                } else if key == "published"@ {
                    match spec_parse_ts(value) {
                        Some(t) => Ok(
                            ParseState {
                                published: t,
                                published_for_feed: spec_feed_date(t),
                                ..st
                            },
                        ),
                        None => Err(ParseError::BadTimestamp),
                    }
                } else if key == "updated"@ {
                    match spec_parse_ts(value) {
                        Some(t) => Ok(
                            ParseState { updated: t, updated_for_feed: spec_feed_date(t), ..st },
                        ),
                        None => Err(ParseError::BadTimestamp),
                    }
                } else if key == "topics"@ {
                    let tcs = spec_trim(value);
                    let entries = spec_split_on(tcs, ',');
                    Ok(
                        ParseState {
                            topics_comma_separated: tcs,
                            topics: st.topics + entries.map_values(|e: Seq<char>| spec_trim(e)),
                            topics_sanitized: st.topics_sanitized + entries.map_values(
                                |e: Seq<char>| spec_sanitize(spec_trim(e)),
                            ),
                            ..st
                        },
                    )
                } else if key == "title"@ {
                    Ok(
                        ParseState {
                            title: spec_trim(value),
                            url: spec_sanitize(spec_trim(value)),
                            ..st
                        },
                    )
                } else if key == "snippet"@ {
                    Ok(ParseState { snippet: spec_trim(value), ..st })
                } else {
                    Ok(st)
                }
            }
        }
    } else {
        Ok(
            ParseState {
                md: if st.md.len() > 0 {
                    st.md + seq!['\n'] + line
                } else {
                    line
                },
                ..st
            },
        )
    }
}

/// All lines applied in order; the first rejection wins.
pub open spec fn parse_lines(st: ParseState, lines: Seq<Seq<char>>) -> Result<
    ParseState,
    ParseError,
>
    decreases lines.len(),
{
    if lines.len() == 0 {
        Ok(st)
    } else {
        match parse_line(st, lines[0]) {
            Ok(st2) => parse_lines(st2, lines.drop_first()),
            Err(e) => Err(e),
        }
    }
}

/// The post a parse of `source` yields for a post that carried `m0`:
/// the front matter's fields, with the body compiled to HTML, and the
/// directories kept from `m0`.
pub open spec fn spec_parse_post(m0: PostModel, source: Seq<char>) -> Result<
    PostModel,
    ParseError,
> {
    match parse_lines(init_parse_state(), spec_split_lines(source)) {
        Ok(st) => Ok(
            PostModel {
                base_dir: m0.base_dir,
                topic_base_dir: m0.topic_base_dir,
                author: st.author,
                published: st.published,
                published_for_feed: st.published_for_feed,
                updated: st.updated,
                updated_for_feed: st.updated_for_feed,
                topics_comma_separated: st.topics_comma_separated,
                topics: st.topics,
                topics_sanitized: st.topics_sanitized,
                title: st.title,
                snippet: st.snippet,
                html: html_of_markdown(st.md),
                url: st.url,
            },
        ),
        Err(e) => Err(e),
    }
}

impl Clone for BlogPost {
    /// A clone carries the same value.
    fn clone(&self) -> (res: Self)
        ensures
            res@ =~= self@,
    {
        let topics = self.topics.clone();
        let topics_sanitized = self.topics_sanitized.clone();
        proof {
            assert(topics@ =~= self.topics@);
            assert(topics_sanitized@ =~= self.topics_sanitized@);
        }
        BlogPost {
            base_dir: self.base_dir.clone(),
            author: self.author.clone(),
            published: self.published,
            published_for_feed: self.published_for_feed.clone(),
            updated: self.updated,
            updated_for_feed: self.updated_for_feed.clone(),
            topics_comma_separated: self.topics_comma_separated.clone(),
            topics,
            topics_sanitized,
            topic_base_dir: self.topic_base_dir.clone(),
            title: self.title.clone(),
            snippet: self.snippet.clone(),
            html: self.html.clone(),
            url: self.url.clone(),
        }
    }
}

impl BlogPost {
    /// A fresh post under the given base directory.
    pub fn new(base_dir: String) -> (post: BlogPost)
        ensures
            post@ == spec_fresh_post(base_dir@),
    {
        let post = BlogPost {
            base_dir,
            author: String::new(),
            published: Timestamp { year: 2000, month: 1, day: 1, hour: 23, minute: 56, second: 4 },
            published_for_feed: String::new(),
            updated: Timestamp { year: 2000, month: 1, day: 1, hour: 23, minute: 56, second: 4 },
            updated_for_feed: String::new(),
            topics_comma_separated: String::new(),
            topics: Vec::new(),
            topics_sanitized: Vec::new(),
            topic_base_dir: String::from_str("topic"),
            title: String::new(),
            snippet: String::new(),
            html: String::new(),
            url: String::new(),
        };
        proof {
            assert(post.topics.deep_view() =~= Seq::<Seq<char>>::empty());
            assert(post.topics_sanitized.deep_view() =~= Seq::<Seq<char>>::empty());
            assert(post@ =~= spec_fresh_post(post.base_dir@));
        }
        post
    }

    /// The topics named in the post's front matter.
    pub fn get_topics(&self) -> (r: &Vec<String>)
        ensures
            r.deep_view() == self@.topics,
    {
        &self.topics
    }

    /// The publication year, in decimal.
    pub fn get_year(&self) -> (r: String)
        ensures
            r@ == crate::text::dec_rep_signed(self.published.year as int),
    {
        crate::text::i32_to_dec_string(self.published.year)
    }

    /// The publication timestamp.
    pub fn get_published_date(&self) -> (r: &Timestamp)
        ensures
            *r == self.published,
    {
        &self.published
    }

    /// A timestamp in the form the feed uses.
    pub fn get_date_for_feed(&self, date: &Timestamp) -> (r: String)
        ensures
            r@ == spec_feed_date(*date),
    {
        format_feed_date(date)
    }

    /// The output path of the post's page, under the output root.
    pub fn page_path(&self) -> (r: String)
        ensures
            r@ == self@.base_dir + "/"@ + self@.url + "/index.html"@,
    {
        let mut r = self.base_dir.clone();
        r.append("/");
        r.append(self.url.as_str());
        r.append("/index.html");
        r
    }

    /// Reads a post source: front-matter headers up to the `---`
    /// delimiter, a markdown body after it.  On success the parsed
    /// fields replace the post's; a rejected source leaves it unchanged.
    pub fn parse_markdown_file(&mut self, source: &str) -> (r: Result<(), ParseError>)
        ensures
            match spec_parse_post(old(self)@, source@) {
                Ok(m) => r is Ok && final(self)@ == m,
                Err(e) => r == Err::<(), ParseError>(e) && final(self)@ == old(self)@,
            },
    {
        let ghost all_lines = spec_split_lines(source@);
        let lines = split_lines(source);
        let mut start_found = false;
        let mut author = String::new();
        let mut published = Timestamp {
            year: 2000,
            month: 1,
            day: 1,
            hour: 23,
            minute: 56,
            second: 4,
        };
        let mut published_for_feed = String::new();
        let mut updated = Timestamp { year: 2000, month: 1, day: 1, hour: 23, minute: 56, second: 4 };
        let mut updated_for_feed = String::new();
        let mut topics_comma_separated = String::new();
        let mut topics: Vec<String> = Vec::new();
        let mut topics_sanitized: Vec<String> = Vec::new();
        let mut title = String::new();
        let mut snippet = String::new();
        let mut url = String::new();
        let mut md = String::new();
        let ghost mut st = init_parse_state();
        proof {
            assert(topics.deep_view() =~= Seq::<Seq<char>>::empty());
            assert(topics_sanitized.deep_view() =~= Seq::<Seq<char>>::empty());
            assert(st =~= (ParseState {
                start_found: start_found,
                author: author@,
                published: published,
                published_for_feed: published_for_feed@,
                updated: updated,
                updated_for_feed: updated_for_feed@,
                topics_comma_separated: topics_comma_separated@,
                topics: topics.deep_view(),
                topics_sanitized: topics_sanitized.deep_view(),
                title: title@,
                snippet: snippet@,
                url: url@,
                md: md@,
            }));
        }
        proof {
            assert(all_lines.skip(0) =~= all_lines);
        }
        let n_lines = lines.len();
        let mut i: usize = 0;
        while i < n_lines
            invariant
                0 <= i <= n_lines,
                n_lines == lines@.len(),
                lines.deep_view() == all_lines,
                all_lines == spec_split_lines(source@),
                self@ == old(self)@,
                st == (ParseState {
                    start_found: start_found,
                    author: author@,
                    published: published,
                    published_for_feed: published_for_feed@,
                    updated: updated,
                    updated_for_feed: updated_for_feed@,
                    topics_comma_separated: topics_comma_separated@,
                    topics: topics.deep_view(),
                    topics_sanitized: topics_sanitized.deep_view(),
                    title: title@,
                    snippet: snippet@,
                    url: url@,
                    md: md@,
                }),
                parse_lines(init_parse_state(), all_lines) == parse_lines(
                    st,
                    all_lines.skip(i as int),
                ),
            decreases n_lines - i,
        {
            let line = &lines[i];
            let ghost line_view = line@;
            let ghost st0 = st;
            proof {
                assert(line.deep_view() == all_lines[i as int]);
                assert(line_view == all_lines[i as int]);
                assert(all_lines.skip(i as int)[0] == all_lines[i as int]);
                assert(all_lines.skip(i as int).drop_first() =~= all_lines.skip(i + 1));
            }
            if !start_found && !line.as_str().is_empty() {
                if str_equal(line.as_str(), "---") {
                    start_found = true;
                    proof {
                        st = parse_line(st, line_view)->Ok_0;
                    }
                } else {
                    let n_line = line.as_str().unicode_len();
                    let c = find_char_from(line.as_str(), ':', 0);
                    if c == n_line {
                        proof {
                            assert(parse_line(st, line_view) == Err::<ParseState, ParseError>(
                                ParseError::MalformedLine,
                            ));
                            assert(parse_lines(st, all_lines.skip(i as int)) == Err::<
                                ParseState,
                                ParseError,
                            >(ParseError::MalformedLine));
                        }
                        return Err(ParseError::MalformedLine);
                    }
                    let key = line.as_str().substring_char(0, c);
                    let value = line.as_str().substring_char(c + 1, n_line);
                    proof {
                        assert(key@ =~= line_view.take(c as int));
                        assert(value@ =~= line_view.skip(c + 1));
                    }
                    if str_equal(key, "author") {
                        author = trim_str(value);
                        proof {
                            st = parse_line(st, line_view)->Ok_0;
                        }
                    } else if str_equal(key, "published") {
                        match parse_timestamp(value) {
                            Some(t) => {
                                published = t;
                                published_for_feed = format_feed_date(&t);
                                proof {
                                    st = parse_line(st, line_view)->Ok_0;
                                }
                            },
                            None => {
                                proof {
                                    assert(parse_line(st, line_view) == Err::<
                                        ParseState,
                                        ParseError,
                                    >(ParseError::BadTimestamp));
                                    assert(parse_lines(st, all_lines.skip(i as int)) == Err::<
                                        ParseState,
                                        ParseError,
                                    >(ParseError::BadTimestamp));
                                }
                                return Err(ParseError::BadTimestamp);
                            },
                        }
                    } else if str_equal(key, "updated") {
                        match parse_timestamp(value) {
                            Some(t) => {
                                updated = t;
                                updated_for_feed = format_feed_date(&t);
                                proof {
                                    st = parse_line(st, line_view)->Ok_0;
                                }
                            },
                            None => {
                                proof {
                                    assert(parse_line(st, line_view) == Err::<
                                        ParseState,
                                        ParseError,
                                    >(ParseError::BadTimestamp));
                                    assert(parse_lines(st, all_lines.skip(i as int)) == Err::<
                                        ParseState,
                                        ParseError,
                                    >(ParseError::BadTimestamp));
                                }
                                return Err(ParseError::BadTimestamp);
                            },
                        }
                    } else if str_equal(key, "topics") {
                        topics_comma_separated = trim_str(value);
                        let entries = split_on(topics_comma_separated.as_str(), ',');
                        let ghost entries_view = spec_split_on(spec_trim(value@), ',');
                        let ghost base_topics = topics.deep_view();
                        let ghost base_sanitized = topics_sanitized.deep_view();
                        proof {
                            assert(entries.deep_view() == entries_view);
                        }
                        let n_entries = entries.len();
                        let mut j: usize = 0;
                        while j < n_entries
                            invariant
                                0 <= j <= n_entries,
                                n_entries == entries@.len(),
                                entries.deep_view() == entries_view,
                                topics.deep_view() =~= base_topics + entries_view.take(
                                    j as int,
                                ).map_values(|e: Seq<char>| spec_trim(e)),
                                topics_sanitized.deep_view() =~= base_sanitized
                                    + entries_view.take(j as int).map_values(
                                    |e: Seq<char>| spec_sanitize(spec_trim(e)),
                                ),
                            decreases n_entries - j,
                        {
                            let entry = &entries[j];
                            let tr = trim_str(entry.as_str());
                            let sa = Helper::sanitize_string(tr.as_str());
                            let ghost prev_topics = topics.deep_view();
                            let ghost prev_sanitized = topics_sanitized.deep_view();
                            topics.push(tr);
                            topics_sanitized.push(sa);
                            proof {
                                assert(entry.deep_view() == entries_view[j as int]);
                                assert(topics.deep_view() =~= prev_topics.push(
                                    spec_trim(entries_view[j as int]),
                                ));
                                assert(topics_sanitized.deep_view() =~= prev_sanitized.push(
                                    spec_sanitize(spec_trim(entries_view[j as int])),
                                ));
                                assert(entries_view.take(j + 1) =~= entries_view.take(
                                    j as int,
                                ).push(entries_view[j as int]));
                                assert(topics.deep_view() =~= base_topics + entries_view.take(
                                    j + 1,
                                ).map_values(|e: Seq<char>| spec_trim(e)));
                                assert(topics_sanitized.deep_view() =~= base_sanitized
                                    + entries_view.take(j + 1).map_values(
                                    |e: Seq<char>| spec_sanitize(spec_trim(e)),
                                ));
                            }
                            j = j + 1;
                        }
                        proof {
                            assert(entries_view.take(n_entries as int) =~= entries_view);
                            st = parse_line(st, line_view)->Ok_0;
                            assert(st.topics =~= topics.deep_view());
                            assert(st.topics_sanitized =~= topics_sanitized.deep_view());
                        }
                    } else if str_equal(key, "title") {
                        title = trim_str(value);
                        url = Helper::sanitize_string(title.as_str());
                        proof {
                            st = parse_line(st, line_view)->Ok_0;
                        }
                    } else if str_equal(key, "snippet") {
                        snippet = trim_str(value);
                        proof {
                            st = parse_line(st, line_view)->Ok_0;
                        }
                    } else {
                        proof {
                            st = parse_line(st, line_view)->Ok_0;
                        }
                    }
                }
            } else {
                if !md.as_str().is_empty() {
                    push_char(&mut md, '\n');
                    md.append(line.as_str());
                } else {
                    md.append(line.as_str());
                }
                proof {
                    st = parse_line(st, line_view)->Ok_0;
                    assert(st.md =~= md@);
                }
            }
            proof {
                assert(st =~= (ParseState {
                    start_found: start_found,
                    author: author@,
                    published: published,
                    published_for_feed: published_for_feed@,
                    updated: updated,
                    updated_for_feed: updated_for_feed@,
                    topics_comma_separated: topics_comma_separated@,
                    topics: topics.deep_view(),
                    topics_sanitized: topics_sanitized.deep_view(),
                    title: title@,
                    snippet: snippet@,
                    url: url@,
                    md: md@,
                }));
                assert(parse_line(st0, all_lines[i as int]) == Ok::<ParseState, ParseError>(st));
                assert(parse_lines(st0, all_lines.skip(i as int)) == parse_lines(
                    st,
                    all_lines.skip(i + 1),
                ));
            }
            i = i + 1;
        }
        proof {
            assert(all_lines.skip(n_lines as int) =~= Seq::<Seq<char>>::empty());
            assert(parse_lines(init_parse_state(), all_lines) == Ok::<ParseState, ParseError>(st));
        }
        let html = markdown_to_html(md.as_str());
        self.author = author;
        self.published = published;
        self.published_for_feed = published_for_feed;
        self.updated = updated;
        self.updated_for_feed = updated_for_feed;
        self.topics_comma_separated = topics_comma_separated;
        self.topics = topics;
        self.topics_sanitized = topics_sanitized;
        self.title = title;
        self.snippet = snippet;
        self.html = html;
        self.url = url;
        proof {
            assert(self@ =~= spec_parse_post(old(self)@, source@)->Ok_0);
        }
        Ok(())
    }
}

} // verus!
