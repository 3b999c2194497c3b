use crate::blog::post_models;
use crate::post::{BlogPost, PostModel};
use crate::text::{contains_sub, has_sub};
use vstd::prelude::*;

verus! {

/// The three characters that close a CDATA section.
pub open spec fn cdata_end() -> Seq<char> {
    seq![']', ']', '>']
}

/// Whether all CDATA payloads of a post are free of the closing mark,
/// so that the entry's CDATA sections stay correctly delimited.
pub open spec fn post_cdata_safe(m: PostModel) -> bool {
    &&& !has_sub(m.title, cdata_end())
    &&& !has_sub(m.snippet, cdata_end())
    &&& !has_sub(m.html, cdata_end())
}

/// The fixed head of the feed, with the given current-moment stamp.
pub open spec fn feed_header(date_now: Seq<char>) -> Seq<char> {
    "<?xml version=\"1.0\" encoding=\"utf-8\"?>\n"@
        + "<feed xmlns=\"http://www.w3.org/2005/Atom\">\n"@
        + "    <id>https:/www.luflow.net/feeds/blog.atom</id>\n"@
        + "    <title>luflow.net Blog</title>\n"@ + "    <updated>"@ + date_now + "</updated>\n"@
        + "    <generator>https://codeberg.org/hfsoulz/flow-web.git</generator>\n"@
        + "    <author>\n"@ + "        <name>luflow.net</name>\n"@
        + "        <uri>https://www.luflow.net/</uri>\n"@ + "    </author>\n"@
        + "    <link rel=\"alternate\" href=\"https:/www.luflow.net/blog/\"/>\n"@
        + "    <link rel=\"self\" href=\"https:/www.luflow.net/feeds/blog.atom\"/>\n"@
        + "    <subtitle>This blog is dedicated to free software in general.</subtitle>\n"@
        + "    <logo>https:/www.luflow.net/static/img/icon.png</logo>\n"@
        + "    <icon>https:/www.luflow.net/favicon.ico</icon>\n"@
}

/// One `<category>` element per topic, in order.
pub open spec fn feed_categories(topics: Seq<Seq<char>>) -> Seq<char>
    decreases topics.len(),
{
    if topics.len() == 0 {
        Seq::empty()
    } else {
        "        <category term=\""@ + topics[0] + "\"/>\n"@ + feed_categories(topics.drop_first())
    }
}

/// One `<entry>` block for one post.
pub open spec fn feed_entry(m: PostModel, base_dir: Seq<char>) -> Seq<char> {
    "    <entry>\n"@ + "        <author>\n"@ + "            <name>Andreas</name>\n"@
        + "        </author>\n"@ + "        <title type=\"html\"><![CDATA["@ + m.title
        + "]]></title>\n"@ + "        <link href=\"https:/www.luflow.net/"@ + base_dir + "/"@
        + m.url + "/\"/>\n"@ + "        <id>https:/www.luflow.net/"@ + base_dir + "/"@ + m.url
        + "/</id>\n"@ + "        <updated>"@ + m.updated_for_feed + "</updated>\n"@
        + "        <published>"@ + m.published_for_feed + "</published>\n"@ + feed_categories(
        m.topics,
    ) + "        <summary type=\"html\"><![CDATA["@ + m.snippet + "]]></summary>\n"@
        + "        <content type=\"html\"><![CDATA["@ + m.html + "]]></content>\n"@
        + "    </entry>\n"@
}

/// The entry blocks of all posts, in order, laid end to end.
pub open spec fn feed_entries(ms: Seq<PostModel>, base_dir: Seq<char>) -> Seq<char>
    decreases ms.len(),
{
    if ms.len() == 0 {
        Seq::empty()
    } else {
        feed_entry(ms[0], base_dir) + feed_entries(ms.drop_first(), base_dir)
    }
}

/// The whole Atom document for a corpus.
pub open spec fn spec_feed(ms: Seq<PostModel>, base_dir: Seq<char>, date_now: Seq<char>) -> Seq<
    char,
> {
    feed_header(date_now) + feed_entries(ms, base_dir) + "</feed>"@
}

/// Blocks laid end to end.
pub open spec fn seq_join(blocks: Seq<Seq<char>>) -> Seq<char>
    decreases blocks.len(),
{
    if blocks.len() == 0 {
        Seq::empty()
    } else {
        blocks[0] + seq_join(blocks.drop_first())
    }
}

/// The feed body is one entry block per post: as many blocks as
/// posts, in their order, laid end to end.
pub proof fn lemma_feed_one_block_per_post(ms: Seq<PostModel>, base_dir: Seq<char>)
    ensures
        ms.map_values(|m: PostModel| feed_entry(m, base_dir)).len() == ms.len(),
        feed_entries(ms, base_dir) == seq_join(
            ms.map_values(|m: PostModel| feed_entry(m, base_dir)),
        ),
    decreases ms.len(),
{
    if ms.len() > 0 {
        lemma_feed_one_block_per_post(ms.drop_first(), base_dir);
        assert(ms.map_values(|m: PostModel| feed_entry(m, base_dir)).drop_first()
            =~= ms.drop_first().map_values(|m: PostModel| feed_entry(m, base_dir)));
        assert(feed_entries(ms, base_dir) =~= seq_join(
            ms.map_values(|m: PostModel| feed_entry(m, base_dir)),
        ));
    }
}

proof fn lemma_categories_snoc(topics: Seq<Seq<char>>, t: Seq<char>)
    ensures
        feed_categories(topics.push(t)) == feed_categories(topics) + (
        "        <category term=\""@ + t + "\"/>\n"@),
    decreases topics.len(),
{
    if topics.len() == 0 {
        assert(topics.push(t)[0] == t);
        assert(topics.push(t).drop_first() =~= Seq::<Seq<char>>::empty());
        assert(feed_categories(Seq::<Seq<char>>::empty()) == Seq::<char>::empty());
        assert(feed_categories(topics.push(t)) =~= feed_categories(topics) + (
        "        <category term=\""@ + t + "\"/>\n"@));
    } else {
        assert(topics.push(t).drop_first() =~= topics.drop_first().push(t));
        lemma_categories_snoc(topics.drop_first(), t);
        assert(feed_categories(topics.push(t)) =~= feed_categories(topics) + (
        "        <category term=\""@ + t + "\"/>\n"@));
    }
}

proof fn lemma_entries_snoc(ms: Seq<PostModel>, m: PostModel, base_dir: Seq<char>)
    ensures
        feed_entries(ms.push(m), base_dir) == feed_entries(ms, base_dir) + feed_entry(m, base_dir),
    decreases ms.len(),
{
    if ms.len() == 0 {
        assert(ms.push(m)[0] == m);
        assert(ms.push(m).drop_first() =~= Seq::<PostModel>::empty());
        assert(feed_entries(Seq::<PostModel>::empty(), base_dir) == Seq::<char>::empty());
        assert(feed_entries(ms.push(m), base_dir) =~= feed_entries(ms, base_dir) + feed_entry(
            m,
            base_dir,
        ));
    } else {
        assert(ms.push(m).drop_first() =~= ms.drop_first().push(m));
        lemma_entries_snoc(ms.drop_first(), m, base_dir);
        assert(feed_entries(ms.push(m), base_dir) =~= feed_entries(ms, base_dir) + feed_entry(
            m,
            base_dir,
        ));
    }
}

/// Why a feed cannot be written.
#[derive(Clone, Copy, PartialEq, Eq, Structural, Debug)]
pub enum FeedError {
    /// Some post's title, snippet or body holds a CDATA closing mark.
    CdataDelimiter,
}

/// Appends the `<category>` elements for a post's topics.
fn append_categories(s: &mut String, topics: &Vec<String>)
    ensures
        final(s)@ == old(s)@ + feed_categories(topics.deep_view()),
{
    let n = topics.len();
    let mut j: usize = 0;
    while j < n
        invariant
            0 <= j <= n,
            n == topics@.len(),
            s@ == old(s)@ + feed_categories(topics.deep_view().take(j as int)),
        decreases n - j,
    {
        s.append("        <category term=\"");
        s.append(topics[j].as_str());
        s.append("\"/>\n");
        proof {
            lemma_categories_snoc(topics.deep_view().take(j as int), topics@[j as int]@);
            assert(topics.deep_view().take(j + 1) =~= topics.deep_view().take(j as int).push(
                topics.deep_view()[j as int],
            ));
            assert(s@ =~= old(s)@ + feed_categories(topics.deep_view().take(j + 1)));
        }
        j = j + 1;
    }
    proof {
        assert(topics.deep_view().take(n as int) =~= topics.deep_view());
    }
}

/// Appends one post's entry block.
fn append_entry(s: &mut String, post: &BlogPost, base_dir: &str)
    ensures
        final(s)@ == old(s)@ + feed_entry(post@, base_dir@),
{
    s.append("    <entry>\n");
    s.append("        <author>\n");
    s.append("            <name>Andreas</name>\n");
    s.append("        </author>\n");
    s.append("        <title type=\"html\"><![CDATA[");
    s.append(post.title.as_str());
    s.append("]]></title>\n");
    s.append("        <link href=\"https:/www.luflow.net/");
    s.append(base_dir);
    s.append("/");
    s.append(post.url.as_str());
    s.append("/\"/>\n");
    s.append("        <id>https:/www.luflow.net/");
    s.append(base_dir);
    s.append("/");
    s.append(post.url.as_str());
    s.append("/</id>\n");
    s.append("        <updated>");
    s.append(post.updated_for_feed.as_str());
    s.append("</updated>\n");
    s.append("        <published>");
    s.append(post.published_for_feed.as_str());
    s.append("</published>\n");
    append_categories(s, &post.topics);
    s.append("        <summary type=\"html\"><![CDATA[");
    s.append(post.snippet.as_str());
    s.append("]]></summary>\n");
    s.append("        <content type=\"html\"><![CDATA[");
    s.append(post.html.as_str());
    s.append("]]></content>\n");
    s.append("    </entry>\n");
    proof {
        assert(s@ =~= old(s)@ + feed_entry(post@, base_dir@));
    }
}

/// Writes the whole Atom document, or rejects the corpus when a CDATA
/// payload would break its delimiters.
pub fn build_feed(posts: &Vec<BlogPost>, base_dir: &str, date_now: &str) -> (r: Result<
    String,
    FeedError,
>)
    ensures
        (r is Ok) <==> (forall|i: int|
            0 <= i < posts@.len() ==> post_cdata_safe(#[trigger] post_models(posts@)[i])),
        r matches Ok(s) ==> s@ == spec_feed(post_models(posts@), base_dir@, date_now@),
        r matches Err(e) ==> e == FeedError::CdataDelimiter,
{
    let n = posts.len();
    let mut i: usize = 0;
    while i < n
        invariant
            0 <= i <= n,
            n == posts@.len(),
            forall|t: int| 0 <= t < i ==> post_cdata_safe(#[trigger] post_models(posts@)[t]),
        decreases n - i,
    {
        let p = &posts[i];
        let bad = contains_sub(p.title.as_str(), "]]>") || contains_sub(p.snippet.as_str(), "]]>")
            || contains_sub(p.html.as_str(), "]]>");
        proof {
            reveal_strlit("]]>");
            assert("]]>"@ =~= cdata_end());
            assert(post_models(posts@)[i as int] == posts@[i as int]@);
        }
        if bad {
            return Err(FeedError::CdataDelimiter);
        }
        i = i + 1;
    }
    let mut s = String::from_str("<?xml version=\"1.0\" encoding=\"utf-8\"?>\n");
    s.append("<feed xmlns=\"http://www.w3.org/2005/Atom\">\n");
    s.append("    <id>https:/www.luflow.net/feeds/blog.atom</id>\n");
    s.append("    <title>luflow.net Blog</title>\n");
    s.append("    <updated>");
    s.append(date_now);
    s.append("</updated>\n");
    s.append("    <generator>https://codeberg.org/hfsoulz/flow-web.git</generator>\n");
    s.append("    <author>\n");
    s.append("        <name>luflow.net</name>\n");
    s.append("        <uri>https://www.luflow.net/</uri>\n");
    s.append("    </author>\n");
    s.append("    <link rel=\"alternate\" href=\"https:/www.luflow.net/blog/\"/>\n");
    s.append("    <link rel=\"self\" href=\"https:/www.luflow.net/feeds/blog.atom\"/>\n");
    s.append("    <subtitle>This blog is dedicated to free software in general.</subtitle>\n");
    s.append("    <logo>https:/www.luflow.net/static/img/icon.png</logo>\n");
    s.append("    <icon>https:/www.luflow.net/favicon.ico</icon>\n");
    proof {
        assert(s@ =~= feed_header(date_now@));
        assert(post_models(posts@).take(0) =~= Seq::<PostModel>::empty());
    }
    let mut j: usize = 0;
    while j < n
        invariant
            0 <= j <= n,
            n == posts@.len(),
            s@ == feed_header(date_now@) + feed_entries(
                post_models(posts@).take(j as int),
                base_dir@,
            ),
        decreases n - j,
    {
        append_entry(&mut s, &posts[j], base_dir);
        proof {
            lemma_entries_snoc(
                post_models(posts@).take(j as int),
                post_models(posts@)[j as int],
                base_dir@,
            );
            assert(post_models(posts@).take(j + 1) =~= post_models(posts@).take(j as int).push(
                post_models(posts@)[j as int],
            ));
            assert(posts@[j as int]@ == post_models(posts@)[j as int]);
            assert(s@ =~= feed_header(date_now@) + feed_entries(
                post_models(posts@).take(j + 1),
                base_dir@,
            ));
        }
        j = j + 1;
    }
    s.append("</feed>");
    proof {
        assert(post_models(posts@).take(n as int) =~= post_models(posts@));
        assert(s@ =~= spec_feed(post_models(posts@), base_dir@, date_now@));
    }
    Ok(s)
}

} // verus!
