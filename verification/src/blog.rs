use crate::post::{BlogPost, PostModel};
use crate::text::{
    dec_rep_signed, lemma_insert_to_multiset, lemma_lex_total, lemma_lex_trans, lex_le,
    lower_chars, str_equal, str_lex_le, to_lowercase_string,
};
use crate::timestamp::{timestamp_le, ts_le};
use vstd::multiset::Multiset;
use vstd::prelude::*;

verus! {

/// The values of a sequence of posts.
pub open spec fn post_models(s: Seq<BlogPost>) -> Seq<PostModel> {
    s.map_values(|p: BlogPost| p@)
}

/// Posts in reverse chronological order of publication.
pub open spec fn sorted_desc(ms: Seq<PostModel>) -> bool {
    forall|a: int, b: int|
        0 <= a < b < ms.len() ==> ts_le((#[trigger] ms[b]).published, (#[trigger] ms[a]).published)
}

/// The pool of parsed posts that the parse tasks fill.
pub struct BlogShared {
    pub posts: Vec<BlogPost>,
}

impl BlogShared {
    /// An empty pool.
    pub fn new() -> (r: BlogShared)
        ensures
            r.posts@.len() == 0,
    {
        BlogShared { posts: Vec::new() }
    }

    /// Adds one parsed post at the end.
    pub fn insert_post(&mut self, post: BlogPost)
        ensures
            final(self).posts@ == old(self).posts@.push(post),
    {
        self.posts.push(post);
    }

    /// The posts gathered so far.
    pub fn get_posts(&self) -> (r: Vec<BlogPost>)
        ensures
            r@.len() == self.posts@.len(),
            post_models(r@) == post_models(self.posts@),
    {
        let r = self.posts.clone();
        proof {
            assert forall|i: int| 0 <= i < r@.len() implies r@[i]@ == self.posts@[i]@ by {
                assert(cloned::<BlogPost>(self.posts@[i], r@[i]));
            }
            assert(post_models(r@) =~= post_models(self.posts@));
        }
        r
    }

    /// Sorts the pool latest-published first; posts with equal stamps
    /// keep their order.
    pub fn sort_posts(&mut self)
        ensures
            final(self).posts@.len() == old(self).posts@.len(),
            sorted_desc(post_models(final(self).posts@)),
            post_models(final(self).posts@).to_multiset() == post_models(
                old(self).posts@,
            ).to_multiset(),
    {
        let ghost orig = post_models(old(self).posts@);
        let mut out: Vec<BlogPost> = Vec::new();
        proof {
            assert(post_models(out@) =~= Seq::<PostModel>::empty());
            Seq::<PostModel>::empty().to_multiset_ensures();
            assert(post_models(out@).to_multiset().add(post_models(self.posts@).to_multiset())
                =~= orig.to_multiset());
        }
        while self.posts.len() > 0
            invariant
                orig == post_models(old(self).posts@),
                sorted_desc(post_models(out@)),
                post_models(out@).to_multiset().add(post_models(self.posts@).to_multiset())
                    == orig.to_multiset(),
                out@.len() + self.posts@.len() == orig.len(),
            decreases self.posts@.len(),
        {
            let ghost rem0 = post_models(self.posts@);
            let p = self.posts.remove(0);
            proof {
                assert(post_models(self.posts@) =~= rem0.remove(0));
                rem0.to_multiset_ensures();
                assert(rem0.remove(0).to_multiset() =~= rem0.to_multiset().remove(rem0[0]));
                assert(rem0[0] == p@);
                assert(rem0.contains(p@));
            }
            let n_out = out.len();
            let mut k: usize = 0;
            loop
                invariant
                    0 <= k <= n_out,
                    n_out == out@.len(),
                    forall|t: int|
                        0 <= t < k ==> ts_le(p@.published, post_models(out@)[t].published),
                ensures
                    0 <= k <= out@.len(),
                    forall|t: int|
                        0 <= t < k ==> ts_le(p@.published, post_models(out@)[t].published),
                    k < out@.len() ==> !ts_le(p@.published, post_models(out@)[k as int].published),
                decreases n_out - k,
            {
                if k == n_out {
                    break ;
                }
                let cont = timestamp_le(&p.published, &out[k].published);
                proof {
                    assert(out[k as int]@.published == post_models(out@)[k as int].published);
                }
                if !cont {
                    break ;
                }
                k = k + 1;
            }
            let ghost outm0 = post_models(out@);
            out.insert(k, p);
            proof {
                assert(post_models(out@) =~= outm0.insert(k as int, p@));
                lemma_insert_to_multiset(outm0, k as int, p@);
                let newm = post_models(out@);
                assert forall|a: int, b: int| 0 <= a < b < newm.len() implies ts_le(
                    newm[b].published,
                    newm[a].published,
                ) by {
                    if b < k {
                    } else if a > k {
                    } else if a == k {
                        assert(newm[a] == p@);
                        assert(k < outm0.len());
                        assert(!ts_le(p@.published, outm0[k as int].published));
                        assert(ts_le(outm0[k as int].published, p@.published));
                        assert(newm[b] == outm0[b - 1]);
                        assert(ts_le(outm0[b - 1].published, outm0[k as int].published));
                    } else if b == k {
                        assert(newm[b] == p@);
                        assert(ts_le(p@.published, outm0[a].published));
                    } else {
                        // a < k < b
                        assert(newm[a] == outm0[a]);
                        assert(newm[b] == outm0[b - 1]);
                        assert(k < outm0.len());
                        assert(ts_le(outm0[k as int].published, p@.published));
                        assert(ts_le(p@.published, outm0[a].published));
                        assert(ts_le(outm0[b - 1].published, outm0[k as int].published));
                    }
                }
                assert(post_models(out@).to_multiset().add(post_models(self.posts@).to_multiset())
                    =~= orig.to_multiset());
            }
        }
        proof {
            assert(post_models(self.posts@) =~= Seq::<PostModel>::empty());
            Seq::<PostModel>::empty().to_multiset_ensures();
            assert(Seq::<PostModel>::empty().to_multiset() =~= Multiset::<PostModel>::empty());
            assert(post_models(out@).to_multiset().add(Multiset::<PostModel>::empty())
                =~= post_models(out@).to_multiset());
        }
        self.posts = out;
        proof {
            assert(post_models(self.posts@).to_multiset() =~= orig.to_multiset());
        }
    }
}

/// An element stays present when something is appended.
proof fn lemma_push_contains<A>(s: Seq<A>, x: A, y: A)
    requires
        s.contains(x),
    ensures
        s.push(y).contains(x),
{
    let w = choose|w: int| 0 <= w < s.len() && s[w] == x;
    assert(s.push(y)[w] == x);
}

// ---------------------------------------------------------------------------
// Topic and year indices
// ---------------------------------------------------------------------------

/// One index entry: a key and the positions of the posts under it.
pub struct IndexEntry {
    pub key: String,
    pub ids: Vec<usize>,
}

/// Whether a post falls under a key: by topic membership, or by its
/// publication year written in decimal.
pub open spec fn post_matches(m: PostModel, key: Seq<char>, by_topic: bool) -> bool {
    if by_topic {
        m.topics.contains(key)
    } else {
        dec_rep_signed(m.published.year as int) == key
    }
}

/// The keys one post contributes.
pub open spec fn post_keys(m: PostModel, by_topic: bool) -> Seq<Seq<char>> {
    if by_topic {
        m.topics
    } else {
        seq![dec_rep_signed(m.published.year as int)]
    }
}

/// `ids` lists, in ascending order, exactly the positions of the posts
/// under `key`.
pub open spec fn ids_exact(
    ids: Seq<usize>,
    ms: Seq<PostModel>,
    key: Seq<char>,
    by_topic: bool,
) -> bool {
    &&& forall|a: int, b: int| 0 <= a < b < ids.len() ==> ids[a] < ids[b]
    &&& forall|a: int|
        0 <= a < ids.len() ==> (#[trigger] ids[a]) < ms.len() && post_matches(
            ms[ids[a] as int],
            key,
            by_topic,
        )
    &&& forall|i: int|
        0 <= i < ms.len() && post_matches(#[trigger] ms[i], key, by_topic) ==> ids.contains(
            i as usize,
        )
}

/// Some post of the corpus falls under the key.
pub open spec fn key_witnessed(key: Seq<char>, ms: Seq<PostModel>, by_topic: bool) -> bool {
    exists|i: int| 0 <= i < ms.len() && post_matches(#[trigger] ms[i], key, by_topic)
}

/// `keys` lists each key of the corpus exactly once, and nothing else.
pub open spec fn keys_exact(keys: Seq<Seq<char>>, ms: Seq<PostModel>, by_topic: bool) -> bool {
    &&& forall|a: int, b: int| 0 <= a < b < keys.len() ==> keys[a] != keys[b]
    &&& forall|i: int, t: int|
        0 <= i < ms.len() && 0 <= t < post_keys(ms[i], by_topic).len() ==> keys.contains(
            #[trigger] post_keys(ms[i], by_topic)[t],
        )
    &&& forall|k: int|
        0 <= k < keys.len() ==> key_witnessed(#[trigger] keys[k], ms, by_topic)
}

/// The keys of an index, in order.
pub open spec fn entry_keys(entries: Seq<IndexEntry>) -> Seq<Seq<char>> {
    entries.map_values(|e: IndexEntry| e.key@)
}

/// A full index of the corpus: sound and complete keys, each with the
/// exact ascending positions of its posts.
pub open spec fn index_exact(entries: Seq<IndexEntry>, ms: Seq<PostModel>, by_topic: bool) -> bool {
    &&& keys_exact(entry_keys(entries), ms, by_topic)
    &&& forall|e: int|
        0 <= e < entries.len() ==> ids_exact(
            (#[trigger] entries[e]).ids@,
            ms,
            entries[e].key@,
            by_topic,
        )
}

/// Whether some element of `v` holds the characters of `s`.
fn contains_string(v: &Vec<String>, s: &str) -> (r: bool)
    ensures
        r == v.deep_view().contains(s@),
{
    let n = v.len();
    let mut i: usize = 0;
    while i < n
        invariant
            0 <= i <= n,
            n == v@.len(),
            forall|t: int| 0 <= t < i ==> v.deep_view()[t] != s@,
        decreases n - i,
    {
        if str_equal(v[i].as_str(), s) {
            proof {
                assert(v.deep_view()[i as int] == s@);
            }
            return true;
        }
        i = i + 1;
    }
    false
}

/// The positions, in ascending order, of the posts under `key`.
fn positions_for_key(posts: &Vec<BlogPost>, key: &str, by_topic: bool) -> (ids: Vec<usize>)
    ensures
        ids_exact(ids@, post_models(posts@), key@, by_topic),
{
    let n = posts.len();
    let mut ids: Vec<usize> = Vec::new();
    let mut i: usize = 0;
    while i < n
        invariant
            0 <= i <= n,
            n == posts@.len(),
            forall|a: int, b: int| 0 <= a < b < ids@.len() ==> ids@[a] < ids@[b],
            forall|a: int|
                0 <= a < ids@.len() ==> (#[trigger] ids@[a]) < i && post_matches(
                    post_models(posts@)[ids@[a] as int],
                    key@,
                    by_topic,
                ),
            forall|t: int|
                0 <= t < i && post_matches(#[trigger] post_models(posts@)[t], key@, by_topic)
                    ==> ids@.contains(t as usize),
        decreases n - i,
    {
        let hit = if by_topic {
            contains_string(&posts[i].topics, key)
        } else {
            let y = posts[i].get_year();
            str_equal(y.as_str(), key)
        };
        proof {
            assert(post_models(posts@)[i as int] == posts@[i as int]@);
            if by_topic {
                assert(posts@[i as int]@.topics == posts@[i as int].topics.deep_view());
            }
        }
        let ghost ids0 = ids@;
        if hit {
            ids.push(i);
            proof {
                assert(ids@ =~= ids0.push(i as usize));
            }
        }
        proof {
            assert forall|t: int|
                0 <= t < i + 1 && post_matches(
                    #[trigger] post_models(posts@)[t],
                    key@,
                    by_topic,
                ) implies ids@.contains(t as usize) by {
                if t < i {
                    assert(ids0.contains(t as usize));
                    let w = choose|w: int| 0 <= w < ids0.len() && ids0[w] == t as usize;
                    assert(ids@[w] == t as usize);
                } else {
                    assert(ids@[ids@.len() - 1] == t as usize);
                }
            }
        }
        i = i + 1;
    }
    ids
}

/// Every distinct key of the corpus, in order of first appearance.
fn collect_keys(posts: &Vec<BlogPost>, by_topic: bool) -> (keys: Vec<String>)
    ensures
        keys_exact(keys.deep_view(), post_models(posts@), by_topic),
{
    let n = posts.len();
    let mut keys: Vec<String> = Vec::new();
    let mut i: usize = 0;
    while i < n
        invariant
            0 <= i <= n,
            n == posts@.len(),
            forall|a: int, b: int|
                0 <= a < b < keys.deep_view().len() ==> keys.deep_view()[a] != keys.deep_view()[b],
            forall|t: int, u: int|
                0 <= t < i && 0 <= u < post_keys(post_models(posts@)[t], by_topic).len()
                    ==> keys.deep_view().contains(
                    #[trigger] post_keys(post_models(posts@)[t], by_topic)[u],
                ),
            forall|k: int|
                0 <= k < keys.deep_view().len() ==> key_witnessed(
                    #[trigger] keys.deep_view()[k],
                    post_models(posts@),
                    by_topic,
                ),
        decreases n - i,
    {
        proof {
            assert(post_models(posts@)[i as int] == posts@[i as int]@);
        }
        if by_topic {
            let m = posts[i].topics.len();
            let mut u: usize = 0;
            while u < m
                invariant
                    0 <= u <= m,
                    by_topic,
                    0 <= i < n,
                    n == posts@.len(),
                    m == posts@[i as int].topics@.len(),
                    post_keys(post_models(posts@)[i as int], by_topic) == posts@[
                        i as int
                    ].topics.deep_view(),
                    forall|a: int, b: int|
                        0 <= a < b < keys.deep_view().len() ==> keys.deep_view()[a]
                            != keys.deep_view()[b],
                    forall|t: int, w: int|
                        0 <= t < i && 0 <= w < post_keys(post_models(posts@)[t], by_topic).len()
                            ==> keys.deep_view().contains(
                            #[trigger] post_keys(post_models(posts@)[t], by_topic)[w],
                        ),
                    forall|w: int|
                        0 <= w < u ==> keys.deep_view().contains(
                            #[trigger] posts@[i as int].topics.deep_view()[w],
                        ),
                    forall|k: int|
                        0 <= k < keys.deep_view().len() ==> key_witnessed(
                            #[trigger] keys.deep_view()[k],
                            post_models(posts@),
                            by_topic,
                        ),
                decreases m - u,
            {
                let topic = &posts[i].topics[u];
                proof {
                    assert(topic@ == posts@[i as int].topics.deep_view()[u as int]);
                }
                if !contains_string(&keys, topic.as_str()) {
                    let ghost keys0 = keys.deep_view();
                    keys.push(topic.clone());
                    proof {
                        assert(keys.deep_view() =~= keys0.push(topic@));
                        assert(post_models(posts@)[i as int].topics[u as int] == topic@);
                        assert(post_models(posts@)[i as int].topics.contains(topic@));
                        assert(post_matches(post_models(posts@)[i as int], topic@, by_topic));
                        assert(key_witnessed(topic@, post_models(posts@), by_topic));
                        assert forall|k: int| 0 <= k < keys.deep_view().len() implies key_witnessed(
                            #[trigger] keys.deep_view()[k],
                            post_models(posts@),
                            by_topic,
                        ) by {
                            if k < keys0.len() {
                                assert(keys.deep_view()[k] == keys0[k]);
                            } else {
                                assert(keys.deep_view()[k] == topic@);
                            }
                        }
                        assert forall|t: int, w: int|
                            0 <= t < i && 0 <= w < post_keys(
                                post_models(posts@)[t],
                                by_topic,
                            ).len() implies keys.deep_view().contains(
                            #[trigger] post_keys(post_models(posts@)[t], by_topic)[w],
                        ) by {
                            lemma_push_contains(
                                keys0,
                                post_keys(post_models(posts@)[t], by_topic)[w],
                                topic@,
                            );
                        }
                        assert forall|w: int| 0 <= w < u + 1 implies keys.deep_view().contains(
                            #[trigger] posts@[i as int].topics.deep_view()[w],
                        ) by {
                            if w < u {
                                lemma_push_contains(
                                    keys0,
                                    posts@[i as int].topics.deep_view()[w],
                                    topic@,
                                );
                            } else {
                                assert(keys.deep_view()[keys0.len() as int] == posts@[
                                    i as int
                                ].topics.deep_view()[w]);
                            }
                        }
                    }
                } else {
                    proof {
                        assert(keys.deep_view().contains(
                            posts@[i as int].topics.deep_view()[u as int],
                        ));
                    }
                }
                u = u + 1;
            }
            proof {
                assert forall|t: int, w: int|
                    0 <= t < i + 1 && 0 <= w < post_keys(
                        post_models(posts@)[t],
                        by_topic,
                    ).len() implies keys.deep_view().contains(
                    #[trigger] post_keys(post_models(posts@)[t], by_topic)[w],
                ) by {
                    if t == i {
                        assert(post_keys(post_models(posts@)[i as int], by_topic) == posts@[
                            i as int
                        ].topics.deep_view());
                    }
                }
            }
        } else {
            let y = posts[i].get_year();
            let ghost yv = y@;
            proof {
                assert(post_keys(post_models(posts@)[i as int], by_topic) =~= seq![yv]);
            }
            if !contains_string(&keys, y.as_str()) {
                let ghost keys0 = keys.deep_view();
                keys.push(y);
                proof {
                    assert(keys.deep_view() =~= keys0.push(yv));
                    assert(post_matches(post_models(posts@)[i as int], yv, by_topic));
                    assert(key_witnessed(yv, post_models(posts@), by_topic));
                    assert forall|k: int| 0 <= k < keys.deep_view().len() implies key_witnessed(
                        #[trigger] keys.deep_view()[k],
                        post_models(posts@),
                        by_topic,
                    ) by {
                        if k < keys0.len() {
                            assert(keys.deep_view()[k] == keys0[k]);
                        } else {
                            assert(keys.deep_view()[k] == yv);
                        }
                    }
                    assert forall|t: int, w: int|
                        0 <= t < i && 0 <= w < post_keys(
                            post_models(posts@)[t],
                            by_topic,
                        ).len() implies keys.deep_view().contains(
                        #[trigger] post_keys(post_models(posts@)[t], by_topic)[w],
                    ) by {
                        lemma_push_contains(
                            keys0,
                            post_keys(post_models(posts@)[t], by_topic)[w],
                            yv,
                        );
                    }
                    assert(keys.deep_view()[keys0.len() as int] == yv);
                    assert(keys.deep_view().contains(yv));
                }
            } else {
                proof {
                    assert(keys.deep_view().contains(yv));
                }
            }
            proof {
                assert forall|t: int, w: int|
                    0 <= t < i + 1 && 0 <= w < post_keys(
                        post_models(posts@)[t],
                        by_topic,
                    ).len() implies keys.deep_view().contains(
                    #[trigger] post_keys(post_models(posts@)[t], by_topic)[w],
                ) by {
                    if t == i {
                        assert(post_keys(post_models(posts@)[t], by_topic)[w] == yv);
                    }
                }
            }
        }
        i = i + 1;
    }
    keys
}


/// The full index of the corpus, keys in order of first appearance.
fn build_index(posts: &Vec<BlogPost>, by_topic: bool) -> (entries: Vec<IndexEntry>)
    ensures
        index_exact(entries@, post_models(posts@), by_topic),
{
    let keys = collect_keys(posts, by_topic);
    let n_k = keys.len();
    let mut entries: Vec<IndexEntry> = Vec::new();
    let mut e: usize = 0;
    while e < n_k
        invariant
            0 <= e <= n_k,
            n_k == keys@.len(),
            keys_exact(keys.deep_view(), post_models(posts@), by_topic),
            entries@.len() == e,
            forall|t: int| 0 <= t < e ==> (#[trigger] entries@[t]).key@ == keys.deep_view()[t],
            forall|t: int|
                0 <= t < e ==> ids_exact(
                    (#[trigger] entries@[t]).ids@,
                    post_models(posts@),
                    entries@[t].key@,
                    by_topic,
                ),
        decreases n_k - e,
    {
        let key = keys[e].clone();
        proof {
            assert(key@ == keys.deep_view()[e as int]);
        }
        let ids = positions_for_key(posts, key.as_str(), by_topic);
        entries.push(IndexEntry { key, ids });
        e = e + 1;
    }
    proof {
        assert(entry_keys(entries@) =~= keys.deep_view());
    }
    entries
}

// ---------------------------------------------------------------------------
// Key-order sorting
// ---------------------------------------------------------------------------

/// The key a string is ordered by: its lowercase form, or itself.
pub open spec fn sort_key(s: Seq<char>, by_lower: bool) -> Seq<char> {
    if by_lower {
        lower_chars(s)
    } else {
        s
    }
}

/// Ascending code-point order of the sort keys.
pub open spec fn sorted_by_key(vs: Seq<Seq<char>>, by_lower: bool) -> bool {
    forall|a: int, b: int|
        0 <= a < b < vs.len() ==> lex_le(
            sort_key(#[trigger] vs[a], by_lower),
            sort_key(#[trigger] vs[b], by_lower),
        )
}

/// Sorts strings ascending, comparing lowercase forms when `by_lower`
/// is set; strings with equal keys keep their order.
fn sort_strings_by(v: Vec<String>, by_lower: bool) -> (r: Vec<String>)
    ensures
        r@.len() == v@.len(),
        sorted_by_key(r.deep_view(), by_lower),
        r.deep_view().to_multiset() == v.deep_view().to_multiset(),
{
    let ghost orig = v.deep_view();
    let mut v = v;
    let mut out: Vec<String> = Vec::new();
    proof {
        assert(out.deep_view() =~= Seq::<Seq<char>>::empty());
        Seq::<Seq<char>>::empty().to_multiset_ensures();
        assert(out.deep_view().to_multiset().add(v.deep_view().to_multiset())
            =~= orig.to_multiset());
    }
    while v.len() > 0
        invariant
            sorted_by_key(out.deep_view(), by_lower),
            out.deep_view().to_multiset().add(v.deep_view().to_multiset()) == orig.to_multiset(),
            out@.len() + v@.len() == orig.len(),
        decreases v@.len(),
    {
        let ghost rem0 = v.deep_view();
        let p = v.remove(0);
        proof {
            assert(v.deep_view() =~= rem0.remove(0));
            rem0.to_multiset_ensures();
            assert(rem0.remove(0).to_multiset() =~= rem0.to_multiset().remove(rem0[0]));
            assert(rem0[0] == p@);
        }
        let key_p = if by_lower {
            to_lowercase_string(p.as_str())
        } else {
            p.clone()
        };
        proof {
            assert(key_p@ == sort_key(p@, by_lower));
        }
        let n_out = out.len();
        let mut k: usize = 0;
        loop
            invariant
                0 <= k <= n_out,
                n_out == out@.len(),
                key_p@ == sort_key(p@, by_lower),
                forall|t: int|
                    0 <= t < k ==> lex_le(
                        sort_key(#[trigger] out.deep_view()[t], by_lower),
                        key_p@,
                    ),
            ensures
                0 <= k <= out@.len(),
                forall|t: int|
                    0 <= t < k ==> lex_le(
                        sort_key(#[trigger] out.deep_view()[t], by_lower),
                        key_p@,
                    ),
                k < out@.len() ==> !lex_le(sort_key(out.deep_view()[k as int], by_lower), key_p@),
            decreases n_out - k,
        {
            if k == n_out {
                break ;
            }
            let key_o = if by_lower {
                to_lowercase_string(out[k].as_str())
            } else {
                out[k].clone()
            };
            proof {
                assert(key_o@ == sort_key(out.deep_view()[k as int], by_lower));
            }
            if !str_lex_le(key_o.as_str(), key_p.as_str()) {
                break ;
            }
            k = k + 1;
        }
        let ghost outm0 = out.deep_view();
        out.insert(k, p);
        proof {
            assert(out.deep_view() =~= outm0.insert(k as int, p@));
            lemma_insert_to_multiset(outm0, k as int, p@);
            let newm = out.deep_view();
            assert forall|a: int, b: int| 0 <= a < b < newm.len() implies lex_le(
                sort_key(newm[a], by_lower),
                sort_key(newm[b], by_lower),
            ) by {
                if b < k {
                } else if a > k {
                } else if a == k {
                    assert(newm[a] == p@);
                    assert(k < outm0.len());
                    assert(newm[b] == outm0[b - 1]);
                    lemma_lex_total(sort_key(outm0[k as int], by_lower), key_p@);
                    assert(lex_le(key_p@, sort_key(outm0[k as int], by_lower)));
                    if b - 1 > k {
                        assert(lex_le(
                            sort_key(outm0[k as int], by_lower),
                            sort_key(outm0[b - 1], by_lower),
                        ));
                        lemma_lex_trans(
                            key_p@,
                            sort_key(outm0[k as int], by_lower),
                            sort_key(outm0[b - 1], by_lower),
                        );
                    }
                } else if b == k {
                    assert(newm[b] == p@);
                    assert(lex_le(sort_key(outm0[a], by_lower), key_p@));
                } else {
                    assert(newm[a] == outm0[a]);
                    assert(newm[b] == outm0[b - 1]);
                    assert(k < outm0.len());
                    lemma_lex_total(sort_key(outm0[k as int], by_lower), key_p@);
                    assert(lex_le(sort_key(outm0[a], by_lower), key_p@));
                    assert(lex_le(key_p@, sort_key(outm0[k as int], by_lower)));
                    lemma_lex_trans(
                        sort_key(outm0[a], by_lower),
                        key_p@,
                        sort_key(outm0[k as int], by_lower),
                    );
                    if b - 1 > k {
                        lemma_lex_trans(
                            sort_key(outm0[a], by_lower),
                            sort_key(outm0[k as int], by_lower),
                            sort_key(outm0[b - 1], by_lower),
                        );
                    }
                }
            }
            assert(out.deep_view().to_multiset().add(v.deep_view().to_multiset())
                =~= orig.to_multiset());
        }
    }
    proof {
        assert(v.deep_view() =~= Seq::<Seq<char>>::empty());
        Seq::<Seq<char>>::empty().to_multiset_ensures();
        assert(Seq::<Seq<char>>::empty().to_multiset() =~= Multiset::<Seq<char>>::empty());
        assert(out.deep_view().to_multiset().add(Multiset::<Seq<char>>::empty())
            =~= out.deep_view().to_multiset());
        assert(out.deep_view().to_multiset() =~= orig.to_multiset());
    }
    out
}


// ---------------------------------------------------------------------------
// Overview page plans
// ---------------------------------------------------------------------------

/// Which listing a page belongs to.
#[derive(Clone, Copy, PartialEq, Eq, Structural, Debug)]
pub enum ScopeKind {
    Overview,
    Topic,
    Year,
}

/// The transient parameters one overview page is rendered from.
pub struct OverviewCtx {
    pub page_url: String,
    pub current_page: usize,
    pub num_pages: usize,
    pub offset: usize,
    pub num_posts: usize,
    pub keywords: String,
    pub title: String,
    pub topic: String,
    pub topic_sanitized: String,
    pub year: String,
    pub scope: ScopeKind,
}

/// The mathematical value of a page context.
#[verifier::ext_equal]
pub struct CtxModel {
    pub page_url: Seq<char>,
    pub current_page: int,
    pub num_pages: int,
    pub offset: int,
    pub num_posts: int,
    pub keywords: Seq<char>,
    pub title: Seq<char>,
    pub topic: Seq<char>,
    pub topic_sanitized: Seq<char>,
    pub year: Seq<char>,
    pub scope: ScopeKind,
}

impl View for OverviewCtx {
    type V = CtxModel;

    open spec fn view(&self) -> CtxModel {
        CtxModel {
            page_url: self.page_url@,
            current_page: self.current_page as int,
            num_pages: self.num_pages as int,
            offset: self.offset as int,
            num_posts: self.num_posts as int,
            keywords: self.keywords@,
            title: self.title@,
            topic: self.topic@,
            topic_sanitized: self.topic_sanitized@,
            year: self.year@,
            scope: self.scope,
        }
    }
}

/// One page to write: its output path and its context.
pub struct PageWrite {
    pub path: String,
    pub ctx: OverviewCtx,
}

/// The mathematical value of one page write.
#[verifier::ext_equal]
pub struct PageWriteModel {
    pub path: Seq<char>,
    pub ctx: CtxModel,
}

impl View for PageWrite {
    type V = PageWriteModel;

    open spec fn view(&self) -> PageWriteModel {
        PageWriteModel { path: self.path@, ctx: self.ctx@ }
    }
}

/// The values of a sequence of page writes.
pub open spec fn write_models(v: Seq<PageWrite>) -> Seq<PageWriteModel> {
    v.map_values(|w: PageWrite| w@)
}

/// What identifies one listing scope: its URL pieces and the fixed
/// context fields its pages share.
#[verifier::ext_equal]
pub struct ScopeSpec {
    pub url_prefix: Seq<char>,
    pub canonical_dir: Seq<char>,
    pub keywords: Seq<char>,
    pub title: Seq<char>,
    pub topic: Seq<char>,
    pub topic_sanitized: Seq<char>,
    pub year: Seq<char>,
    pub scope: ScopeKind,
}

/// The executable form of a scope.
pub struct ScopeArgs {
    pub url_prefix: String,
    pub canonical_dir: String,
    pub keywords: String,
    pub title: String,
    pub topic: String,
    pub topic_sanitized: String,
    pub year: String,
    pub scope: ScopeKind,
}

impl View for ScopeArgs {
    type V = ScopeSpec;

    open spec fn view(&self) -> ScopeSpec {
        ScopeSpec {
            url_prefix: self.url_prefix@,
            canonical_dir: self.canonical_dir@,
            keywords: self.keywords@,
            title: self.title@,
            topic: self.topic@,
            topic_sanitized: self.topic_sanitized@,
            year: self.year@,
            scope: self.scope,
        }
    }
}

/// The context of page `i` (1-based) of a scope.
pub open spec fn ctx_for(sc: ScopeSpec, count: nat, per: nat, i: nat) -> CtxModel {
    CtxModel {
        page_url: sc.url_prefix + crate::text::dec_rep(i),
        current_page: i as int,
        num_pages: crate::pagination::spec_num_pages(count, per) as int,
        offset: (i - 1) * per,
        num_posts: crate::pagination::spec_posts_on_page(count, per, i) as int,
        keywords: sc.keywords,
        title: sc.title,
        topic: sc.topic,
        topic_sanitized: sc.topic_sanitized,
        year: sc.year,
        scope: sc.scope,
    }
}

/// The output path of page `i` of a scope.
pub open spec fn page_path_for(sc: ScopeSpec, i: nat) -> Seq<char> {
    sc.url_prefix + crate::text::dec_rep(i) + "/index.html"@
}

/// The output path of a scope's canonical index.
pub open spec fn canonical_path_for(sc: ScopeSpec) -> Seq<char> {
    sc.canonical_dir + "/index.html"@
}

/// The writes one scope produces: none for an empty scope; otherwise
/// the canonical index first, and every page under `page/<i>`, page 1
/// appearing at both places with the same context.
pub open spec fn spec_scope_plan(sc: ScopeSpec, count: nat, per: nat) -> Seq<PageWriteModel> {
    let n = crate::pagination::spec_num_pages(count, per);
    if n == 0 {
        Seq::empty()
    } else {
        seq![
            PageWriteModel { path: canonical_path_for(sc), ctx: ctx_for(sc, count, per, 1) },
        ] + Seq::new(
            n,
            |j: int|
                PageWriteModel {
                    path: page_path_for(sc, (j + 1) as nat),
                    ctx: ctx_for(sc, count, per, (j + 1) as nat),
                },
        )
    }
}

/// Page 1 is written twice, at the canonical index and under
/// `page/1`, with equal contexts: a rendering that is a function of
/// the context gives both files the same bytes.
pub proof fn lemma_page_one_duplicate(sc: ScopeSpec, count: nat, per: nat)
    requires
        per >= 1,
        count > 0,
    ensures
        spec_scope_plan(sc, count, per).len() >= 2,
        spec_scope_plan(sc, count, per)[0].ctx == spec_scope_plan(sc, count, per)[1].ctx,
        spec_scope_plan(sc, count, per)[0].path == canonical_path_for(sc),
        spec_scope_plan(sc, count, per)[1].path == page_path_for(sc, 1),
{
    crate::pagination::lemma_num_pages(count, per);
}

/// Builds one page context.
fn make_ctx(sc: &ScopeArgs, n_pages: usize, slice: &crate::pagination::PageSlice) -> (c:
    OverviewCtx)
    ensures
        c@ == (CtxModel {
            page_url: sc@.url_prefix + crate::text::dec_rep(slice.current_page as nat),
            current_page: slice.current_page as int,
            num_pages: n_pages as int,
            offset: slice.offset as int,
            num_posts: slice.num_posts as int,
            keywords: sc@.keywords,
            title: sc@.title,
            topic: sc@.topic,
            topic_sanitized: sc@.topic_sanitized,
            year: sc@.year,
            scope: sc@.scope,
        }),
{
    let mut page_url = sc.url_prefix.clone();
    let num = crate::text::u64_to_dec_string(slice.current_page as u64);
    page_url.append(num.as_str());
    let c = OverviewCtx {
        page_url,
        current_page: slice.current_page,
        num_pages: n_pages,
        offset: slice.offset,
        num_posts: slice.num_posts,
        keywords: sc.keywords.clone(),
        title: sc.title.clone(),
        topic: sc.topic.clone(),
        topic_sanitized: sc.topic_sanitized.clone(),
        year: sc.year.clone(),
        scope: sc.scope,
    };
    proof {
        assert(c@ =~= (CtxModel {
            page_url: sc@.url_prefix + crate::text::dec_rep(slice.current_page as nat),
            current_page: slice.current_page as int,
            num_pages: n_pages as int,
            offset: slice.offset as int,
            num_posts: slice.num_posts as int,
            keywords: sc@.keywords,
            title: sc@.title,
            topic: sc@.topic,
            topic_sanitized: sc@.topic_sanitized,
            year: sc@.year,
            scope: sc@.scope,
        }));
    }
    c
}

/// Builds the writes of one scope, as `spec_scope_plan` describes.
fn build_scope_plan(sc: &ScopeArgs, count: usize, per: usize) -> (w: Vec<PageWrite>)
    requires
        per >= 1,
        count + per <= usize::MAX,
    ensures
        write_models(w@) == spec_scope_plan(sc@, count as nat, per as nat),
{
    let pages = crate::pagination::paginate(count, per);
    let n_pages = pages.len();
    let mut w: Vec<PageWrite> = Vec::new();
    if n_pages == 0 {
        proof {
            assert(write_models(w@) =~= spec_scope_plan(sc@, count as nat, per as nat));
        }
        return w;
    }
    let ctx1 = make_ctx(sc, n_pages, &pages[0]);
    let mut canonical = sc.canonical_dir.clone();
    canonical.append("/index.html");
    w.push(PageWrite { path: canonical, ctx: ctx1 });
    proof {
        assert(w@[0]@.ctx =~= ctx_for(sc@, count as nat, per as nat, 1));
        assert(w@[0]@.path == canonical_path_for(sc@));
    }
    let mut k: usize = 0;
    while k < n_pages
        invariant
            0 <= k <= n_pages,
            per >= 1,
            count + per <= usize::MAX,
            n_pages == pages@.len(),
            n_pages == crate::pagination::spec_num_pages(count as nat, per as nat),
            forall|t: int|
                0 <= t < pages@.len() ==> (#[trigger] pages@[t]).current_page == t + 1
                    && pages@[t].offset == t * per && pages@[t].num_posts
                    == crate::pagination::spec_posts_on_page(
                    count as nat,
                    per as nat,
                    (t + 1) as nat,
                ),
            w@.len() == k + 1,
            w@[0]@.ctx == ctx_for(sc@, count as nat, per as nat, 1),
            w@[0]@.path == canonical_path_for(sc@),
            forall|t: int|
                0 <= t < k ==> (#[trigger] w@[t + 1]@).ctx == ctx_for(
                    sc@,
                    count as nat,
                    per as nat,
                    (t + 1) as nat,
                ) && w@[t + 1]@.path == page_path_for(sc@, (t + 1) as nat),
        decreases n_pages - k,
    {
        let ctx = make_ctx(sc, n_pages, &pages[k]);
        let mut path = sc.url_prefix.clone();
        let num = crate::text::u64_to_dec_string(pages[k].current_page as u64);
        path.append(num.as_str());
        path.append("/index.html");
        let ghost w0 = w@;
        w.push(PageWrite { path, ctx });
        proof {
            assert(w@[k + 1]@.ctx =~= ctx_for(sc@, count as nat, per as nat, (k + 1) as nat));
            assert(w@[k + 1]@.path =~= page_path_for(sc@, (k + 1) as nat));
            assert(forall|t: int| 0 <= t < w0.len() ==> w@[t] == w0[t]);
        }
        k = k + 1;
    }
    proof {
        assert(write_models(w@) =~= spec_scope_plan(sc@, count as nat, per as nat));
    }
    w
}

/// The scope of the flat, all-posts listing.
pub open spec fn overview_scope(base: Seq<char>) -> ScopeSpec {
    ScopeSpec {
        url_prefix: base + "/page/"@,
        canonical_dir: base,
        keywords: "overview"@,
        title: "Blog Overview"@,
        topic: Seq::empty(),
        topic_sanitized: Seq::empty(),
        year: Seq::empty(),
        scope: ScopeKind::Overview,
    }
}

/// The scope of one topic's listing.
pub open spec fn topic_scope(base: Seq<char>, key: Seq<char>) -> ScopeSpec {
    ScopeSpec {
        url_prefix: base + "/topic/"@ + crate::sanitize::spec_sanitize(key) + "/page/"@,
        canonical_dir: base + "/topic/"@ + crate::sanitize::spec_sanitize(key),
        keywords: "topic, "@ + key,
        title: "Blog posts by topic: "@ + key,
        topic: key,
        topic_sanitized: crate::sanitize::spec_sanitize(key),
        year: Seq::empty(),
        scope: ScopeKind::Topic,
    }
}

/// The scope of one year's listing.
pub open spec fn year_scope(base: Seq<char>, key: Seq<char>) -> ScopeSpec {
    ScopeSpec {
        url_prefix: base + "/year/"@ + crate::sanitize::spec_sanitize(key) + "/page/"@,
        canonical_dir: base + "/year/"@ + crate::sanitize::spec_sanitize(key),
        keywords: "year, "@ + key,
        title: "Blog posts by year: "@ + key,
        topic: Seq::empty(),
        topic_sanitized: Seq::empty(),
        year: key,
        scope: ScopeKind::Year,
    }
}

/// The scope of one index entry.
pub open spec fn keyed_scope(base: Seq<char>, key: Seq<char>, by_topic: bool) -> ScopeSpec {
    if by_topic {
        topic_scope(base, key)
    } else {
        year_scope(base, key)
    }
}

/// The writes of every entry of an index, in index order.
pub open spec fn spec_keyed_plan(
    entries: Seq<IndexEntry>,
    base: Seq<char>,
    per: nat,
    by_topic: bool,
) -> Seq<PageWriteModel>
    decreases entries.len(),
{
    if entries.len() == 0 {
        Seq::empty()
    } else {
        spec_scope_plan(keyed_scope(base, entries[0].key@, by_topic), entries[0].ids@.len() as nat, per)
            + spec_keyed_plan(entries.drop_first(), base, per, by_topic)
    }
}

proof fn lemma_keyed_plan_snoc(
    entries: Seq<IndexEntry>,
    e: IndexEntry,
    base: Seq<char>,
    per: nat,
    by_topic: bool,
)
    ensures
        spec_keyed_plan(entries.push(e), base, per, by_topic) == spec_keyed_plan(
            entries,
            base,
            per,
            by_topic,
        ) + spec_scope_plan(keyed_scope(base, e.key@, by_topic), e.ids@.len() as nat, per),
    decreases entries.len(),
{
    if entries.len() == 0 {
        assert(entries.push(e)[0] == e);
        assert(entries.push(e).drop_first() =~= Seq::<IndexEntry>::empty());
        assert(spec_keyed_plan(Seq::<IndexEntry>::empty(), base, per, by_topic)
            == Seq::<PageWriteModel>::empty());
        assert(spec_keyed_plan(entries.push(e), base, per, by_topic) =~= spec_keyed_plan(
            entries,
            base,
            per,
            by_topic,
        ) + spec_scope_plan(keyed_scope(base, e.key@, by_topic), e.ids@.len() as nat, per));
    } else {
        assert(entries.push(e).drop_first() =~= entries.drop_first().push(e));
        lemma_keyed_plan_snoc(entries.drop_first(), e, base, per, by_topic);
        assert(spec_keyed_plan(entries.push(e), base, per, by_topic) =~= spec_keyed_plan(
            entries,
            base,
            per,
            by_topic,
        ) + spec_scope_plan(keyed_scope(base, e.key@, by_topic), e.ids@.len() as nat, per));
    }
}

proof fn lemma_ascending_lower(ids: Seq<usize>, a: int)
    requires
        forall|x: int, y: int| 0 <= x < y < ids.len() ==> ids[x] < ids[y],
        0 <= a < ids.len(),
    ensures
        ids[a] >= a,
    decreases a,
{
    if a > 0 {
        lemma_ascending_lower(ids, a - 1);
    }
}

/// An index entry never lists more positions than there are posts.
pub proof fn lemma_ids_len(ids: Seq<usize>, ms: Seq<PostModel>, key: Seq<char>, by_topic: bool)
    requires
        ids_exact(ids, ms, key, by_topic),
    ensures
        ids.len() <= ms.len(),
{
    if ids.len() > 0 {
        lemma_ascending_lower(ids, ids.len() - 1);
        assert(ids[ids.len() - 1] < ms.len());
    }
}

/// Builds the writes of every entry of an index.
fn build_keyed_plan(entries: &Vec<IndexEntry>, base: &str, per: usize, by_topic: bool) -> (w: Vec<
    PageWrite,
>)
    requires
        per >= 1,
        forall|e: int| 0 <= e < entries@.len() ==> (#[trigger] entries@[e]).ids@.len() + per
            <= usize::MAX,
    ensures
        write_models(w@) == spec_keyed_plan(entries@, base@, per as nat, by_topic),
{
    let n = entries.len();
    let mut w: Vec<PageWrite> = Vec::new();
    proof {
        assert(entries@.take(0) =~= Seq::<IndexEntry>::empty());
        assert(write_models(w@) =~= spec_keyed_plan(entries@.take(0), base@, per as nat, by_topic));
    }
    let mut e: usize = 0;
    while e < n
        invariant
            0 <= e <= n,
            per >= 1,
            n == entries@.len(),
            forall|t: int| 0 <= t < entries@.len() ==> (#[trigger] entries@[t]).ids@.len() + per
                <= usize::MAX,
            write_models(w@) == spec_keyed_plan(entries@.take(e as int), base@, per as nat, by_topic),
        decreases n - e,
    {
        let key = &entries[e].key;
        let slug = crate::sanitize::Helper::sanitize_string(key.as_str());
        let mid: &str = if by_topic {
            "/topic/"
        } else {
            "/year/"
        };
        let mut url_prefix = String::from_str(base);
        url_prefix.append(mid);
        url_prefix.append(slug.as_str());
        let mut canonical_dir = url_prefix.clone();
        url_prefix.append("/page/");
        let mut keywords = String::from_str(if by_topic {
            "topic, "
        } else {
            "year, "
        });
        keywords.append(key.as_str());
        let mut title = String::from_str(if by_topic {
            "Blog posts by topic: "
        } else {
            "Blog posts by year: "
        });
        title.append(key.as_str());
        let args = ScopeArgs {
            url_prefix,
            canonical_dir,
            keywords,
            title,
            topic: if by_topic {
                key.clone()
            } else {
                String::new()
            },
            topic_sanitized: if by_topic {
                slug
            } else {
                String::new()
            },
            year: if by_topic {
                String::new()
            } else {
                key.clone()
            },
            scope: if by_topic {
                ScopeKind::Topic
            } else {
                ScopeKind::Year
            },
        };
        proof {
            assert(args@ =~= keyed_scope(base@, entries@[e as int].key@, by_topic));
        }
        let count = entries[e].ids.len();
        let mut part = build_scope_plan(&args, count, per);
        let ghost w0 = w@;
        let ghost part0 = part@;
        w.append(&mut part);
        proof {
            assert(w@ =~= w0 + part0);
            assert(write_models(w@) =~= write_models(w0) + write_models(part0));
            lemma_keyed_plan_snoc(
                entries@.take(e as int),
                entries@[e as int],
                base@,
                per as nat,
                by_topic,
            );
            assert(entries@.take(e + 1) =~= entries@.take(e as int).push(entries@[e as int]));
            assert(write_models(w@) =~= spec_keyed_plan(
                entries@.take(e + 1),
                base@,
                per as nat,
                by_topic,
            ));
        }
        e = e + 1;
    }
    proof {
        assert(entries@.take(n as int) =~= entries@);
    }
    w
}

// ---------------------------------------------------------------------------
// The blog generator
// ---------------------------------------------------------------------------

/// Whether a blog's indices and navigation lists describe exactly the
/// corpus `src`, sorted latest-first.
pub open spec fn blog_indexed(b: Blog, src: Seq<PostModel>) -> bool {
    let ms = post_models(b.blog_posts@);
    &&& ms.to_multiset() == src.to_multiset()
    &&& sorted_desc(ms)
    &&& index_exact(b.topic_blog_indices@, ms, true)
    &&& index_exact(b.year_blog_indices@, ms, false)
    &&& b.topics.deep_view().to_multiset() == entry_keys(b.topic_blog_indices@).to_multiset()
    &&& sorted_by_key(b.topics.deep_view(), true)
    &&& b.topics_sanitized.deep_view().to_multiset() == entry_keys(
        b.topic_blog_indices@,
    ).map_values(|k: Seq<char>| crate::sanitize::spec_sanitize(k)).to_multiset()
    &&& sorted_by_key(b.topics_sanitized.deep_view(), false)
    &&& b.years.deep_view().to_multiset() == entry_keys(b.year_blog_indices@).to_multiset()
    &&& sorted_by_key(b.years.deep_view(), false)
}

/// The blog generator: the sorted corpus, its indices, and its
/// navigation lists.
pub struct Blog {
    pub base_dir: String,
    pub num_previews_per_page: usize,
    pub blog_posts: Vec<BlogPost>,
    pub topic_blog_indices: Vec<IndexEntry>,
    pub topics: Vec<String>,
    pub topics_sanitized: Vec<String>,
    pub year_blog_indices: Vec<IndexEntry>,
    pub years: Vec<String>,
}

/// Everything the blog writes: the path of each post page, the three
/// listing plans, and the feed document.
pub struct BlogPlan {
    pub post_paths: Vec<String>,
    pub overview: Vec<PageWrite>,
    pub topic_pages: Vec<PageWrite>,
    pub year_pages: Vec<PageWrite>,
    pub feed: String,
}

impl Blog {
    /// An empty blog generator.
    pub fn new(base_dir: String, num_previews_per_page: usize) -> (b: Blog)
        requires
            num_previews_per_page >= 1,
        ensures
            b.base_dir@ == base_dir@,
            b.num_previews_per_page == num_previews_per_page,
            b.blog_posts@.len() == 0,
            b.topic_blog_indices@.len() == 0,
            b.topics@.len() == 0,
            b.topics_sanitized@.len() == 0,
            b.year_blog_indices@.len() == 0,
            b.years@.len() == 0,
    {
        Blog {
            base_dir,
            num_previews_per_page,
            blog_posts: Vec::new(),
            topic_blog_indices: Vec::new(),
            topics: Vec::new(),
            topics_sanitized: Vec::new(),
            year_blog_indices: Vec::new(),
            years: Vec::new(),
        }
    }

    /// Sorts the pool and takes its posts over, building the topic and
    /// year indices and the sorted navigation lists.
    pub fn index_posts(&mut self, shared: &mut BlogShared)
        ensures
            final(self).base_dir == old(self).base_dir,
            final(self).num_previews_per_page == old(self).num_previews_per_page,
            final(self).blog_posts@.len() == old(shared).posts@.len(),
            blog_indexed(*final(self), post_models(old(shared).posts@)),
    {
        shared.sort_posts();
        self.blog_posts = shared.get_posts();
        self.topic_blog_indices = build_index(&self.blog_posts, true);
        self.year_blog_indices = build_index(&self.blog_posts, false);
        let n_t = self.topic_blog_indices.len();
        let mut tkeys: Vec<String> = Vec::new();
        let mut skeys: Vec<String> = Vec::new();
        let mut e: usize = 0;
        while e < n_t
            invariant
                0 <= e <= n_t,
                n_t == self.topic_blog_indices@.len(),
                tkeys@.len() == e,
                skeys@.len() == e,
                forall|t: int|
                    0 <= t < e ==> tkeys.deep_view()[t] == entry_keys(self.topic_blog_indices@)[t],
                forall|t: int|
                    0 <= t < e ==> skeys.deep_view()[t] == crate::sanitize::spec_sanitize(
                        entry_keys(self.topic_blog_indices@)[t],
                    ),
            decreases n_t - e,
        {
            let ghost tk0 = tkeys.deep_view();
            let ghost sk0 = skeys.deep_view();
            tkeys.push(self.topic_blog_indices[e].key.clone());
            skeys.push(
                crate::sanitize::Helper::sanitize_string(self.topic_blog_indices[e].key.as_str()),
            );
            proof {
                let kv = self.topic_blog_indices@[e as int].key@;
                assert(entry_keys(self.topic_blog_indices@)[e as int] == kv);
                assert(tkeys.deep_view() =~= tk0.push(kv));
                assert(skeys.deep_view() =~= sk0.push(crate::sanitize::spec_sanitize(kv)));
            }
            e = e + 1;
        }
        proof {
            assert(tkeys.deep_view() =~= entry_keys(self.topic_blog_indices@));
            assert(skeys.deep_view() =~= entry_keys(self.topic_blog_indices@).map_values(
                |k: Seq<char>| crate::sanitize::spec_sanitize(k),
            ));
        }
        self.topics = sort_strings_by(tkeys, true);
        self.topics_sanitized = sort_strings_by(skeys, false);
        let n_y = self.year_blog_indices.len();
        let mut ykeys: Vec<String> = Vec::new();
        let mut y: usize = 0;
        while y < n_y
            invariant
                0 <= y <= n_y,
                n_y == self.year_blog_indices@.len(),
                ykeys@.len() == y,
                forall|t: int|
                    0 <= t < y ==> ykeys.deep_view()[t] == entry_keys(self.year_blog_indices@)[t],
            decreases n_y - y,
        {
            let ghost yk0 = ykeys.deep_view();
            ykeys.push(self.year_blog_indices[y].key.clone());
            proof {
                let kv = self.year_blog_indices@[y as int].key@;
                assert(entry_keys(self.year_blog_indices@)[y as int] == kv);
                assert(ykeys.deep_view() =~= yk0.push(kv));
            }
            y = y + 1;
        }
        proof {
            assert(ykeys.deep_view() =~= entry_keys(self.year_blog_indices@));
        }
        self.years = sort_strings_by(ykeys, false);
    }

    /// The latest `num_posts` posts, fewer when the corpus is smaller.
    pub fn get_latest_blog_posts(&self, num_posts: usize) -> (r: Vec<BlogPost>)
        ensures
            r@.len() == vstd::math::min(num_posts as int, self.blog_posts@.len() as int),
            forall|i: int| 0 <= i < r@.len() ==> (#[trigger] r@[i])@ == post_models(
                self.blog_posts@,
            )[i],
    {
        let n = self.blog_posts.len();
        let take = if num_posts < n {
            num_posts
        } else {
            n
        };
        let mut r: Vec<BlogPost> = Vec::new();
        let mut i: usize = 0;
        while i < take
            invariant
                0 <= i <= take,
                take <= n,
                n == self.blog_posts@.len(),
                r@.len() == i,
                forall|t: int| 0 <= t < i ==> (#[trigger] r@[t])@ == post_models(
                    self.blog_posts@,
                )[t],
            decreases take - i,
        {
            r.push(self.blog_posts[i].clone());
            proof {
                assert(post_models(self.blog_posts@)[i as int] == self.blog_posts@[i as int]@);
            }
            i = i + 1;
        }
        r
    }

    /// The writes of the flat all-posts listing.
    pub fn generate_overview_posts(&self) -> (w: Vec<PageWrite>)
        requires
            self.num_previews_per_page >= 1,
            self.blog_posts@.len() + self.num_previews_per_page <= usize::MAX,
        ensures
            write_models(w@) == spec_scope_plan(
                overview_scope(self.base_dir@),
                self.blog_posts@.len(),
                self.num_previews_per_page as nat,
            ),
    {
        let mut url_prefix = self.base_dir.clone();
        url_prefix.append("/page/");
        let args = ScopeArgs {
            url_prefix,
            canonical_dir: self.base_dir.clone(),
            keywords: String::from_str("overview"),
            title: String::from_str("Blog Overview"),
            topic: String::new(),
            topic_sanitized: String::new(),
            year: String::new(),
            scope: ScopeKind::Overview,
        };
        proof {
            assert(args@ =~= overview_scope(self.base_dir@));
        }
        build_scope_plan(&args, self.blog_posts.len(), self.num_previews_per_page)
    }

    /// The writes of every topic listing, in index order.
    pub fn generate_overview_topic(&self) -> (w: Vec<PageWrite>)
        requires
            self.num_previews_per_page >= 1,
            self.blog_posts@.len() + self.num_previews_per_page <= usize::MAX,
            index_exact(self.topic_blog_indices@, post_models(self.blog_posts@), true),
        ensures
            write_models(w@) == spec_keyed_plan(
                self.topic_blog_indices@,
                self.base_dir@,
                self.num_previews_per_page as nat,
                true,
            ),
    {
        proof {
            assert forall|e: int| 0 <= e < self.topic_blog_indices@.len() implies (
            #[trigger] self.topic_blog_indices@[e]).ids@.len() + self.num_previews_per_page
                <= usize::MAX by {
                lemma_ids_len(
                    self.topic_blog_indices@[e].ids@,
                    post_models(self.blog_posts@),
                    self.topic_blog_indices@[e].key@,
                    true,
                );
            }
        }
        build_keyed_plan(
            &self.topic_blog_indices,
            self.base_dir.as_str(),
            self.num_previews_per_page,
            true,
        )
    }

    /// The writes of every year listing, in index order.
    pub fn generate_overview_year(&self) -> (w: Vec<PageWrite>)
        requires
            self.num_previews_per_page >= 1,
            self.blog_posts@.len() + self.num_previews_per_page <= usize::MAX,
            index_exact(self.year_blog_indices@, post_models(self.blog_posts@), false),
        ensures
            write_models(w@) == spec_keyed_plan(
                self.year_blog_indices@,
                self.base_dir@,
                self.num_previews_per_page as nat,
                false,
            ),
    {
        proof {
            assert forall|e: int| 0 <= e < self.year_blog_indices@.len() implies (
            #[trigger] self.year_blog_indices@[e]).ids@.len() + self.num_previews_per_page
                <= usize::MAX by {
                lemma_ids_len(
                    self.year_blog_indices@[e].ids@,
                    post_models(self.blog_posts@),
                    self.year_blog_indices@[e].key@,
                    false,
                );
            }
        }
        build_keyed_plan(
            &self.year_blog_indices,
            self.base_dir.as_str(),
            self.num_previews_per_page,
            false,
        )
    }

    /// The path of each post page, in corpus order.
    pub fn post_page_paths(&self) -> (paths: Vec<String>)
        ensures
            paths@.len() == self.blog_posts@.len(),
            forall|i: int|
                0 <= i < paths@.len() ==> paths.deep_view()[i] == post_models(self.blog_posts@)[i].base_dir
                    + "/"@ + post_models(self.blog_posts@)[i].url + "/index.html"@,
    {
        let n = self.blog_posts.len();
        let mut paths: Vec<String> = Vec::new();
        let mut i: usize = 0;
        while i < n
            invariant
                0 <= i <= n,
                n == self.blog_posts@.len(),
                paths@.len() == i,
                forall|t: int|
                    0 <= t < i ==> paths.deep_view()[t] == post_models(self.blog_posts@)[t].base_dir
                        + "/"@ + post_models(self.blog_posts@)[t].url + "/index.html"@,
            decreases n - i,
        {
            let ghost pv0 = paths.deep_view();
            let path = self.blog_posts[i].page_path();
            let ghost path_view = path@;
            paths.push(path);
            proof {
                assert(post_models(self.blog_posts@)[i as int] == self.blog_posts@[i as int]@);
                assert(paths.deep_view() =~= pv0.push(path_view));
            }
            i = i + 1;
        }
        paths
    }

    /// The whole Atom document for the corpus, or a rejection when a
    /// CDATA payload would break its delimiters.
    pub fn generate_atom_feed(&self, date_now: &str) -> (r: Result<
        String,
        crate::feed::FeedError,
    >)
        ensures
            (r is Ok) <==> (forall|i: int|
                0 <= i < self.blog_posts@.len() ==> crate::feed::post_cdata_safe(
                    #[trigger] post_models(self.blog_posts@)[i],
                )),
            r matches Ok(s) ==> s@ == crate::feed::spec_feed(
                post_models(self.blog_posts@),
                self.base_dir@,
                date_now@,
            ),
            r matches Err(e) ==> e == crate::feed::FeedError::CdataDelimiter,
    {
        crate::feed::build_feed(&self.blog_posts, self.base_dir.as_str(), date_now)
    }

    /// The moment of writing, in the feed header's form; the clock
    /// decides the value.
    pub fn get_date_now_for_feed(&self) -> (r: String)
        ensures
            exists|y: int, mo: nat, d: nat, tm: Seq<char>|
                1 <= mo <= 12 && 1 <= d <= 31 && r@ == #[trigger] crate::timestamp::spec_now_line(
                    y,
                    mo,
                    d,
                    tm,
                ),
    {
        let parts = crate::timestamp::local_now_parts();
        let r = crate::timestamp::format_now_line(parts.0, parts.1, parts.2, parts.3.as_str());
        proof {
            assert(1 <= parts.1 as nat <= 12);
            assert(r@ == crate::timestamp::spec_now_line(
                parts.0 as int,
                parts.1 as nat,
                parts.2 as nat,
                parts.3@,
            ));
        }
        r
    }

    /// Indexes the pool's posts and computes everything the blog
    /// writes: post page paths, the three listing plans, and the feed.
    pub fn generate(&mut self, shared: &mut BlogShared, date_now: &str) -> (r: Result<
        BlogPlan,
        crate::feed::FeedError,
    >)
        requires
            old(self).num_previews_per_page >= 1,
            old(shared).posts@.len() + old(self).num_previews_per_page <= usize::MAX,
        ensures
            final(self).base_dir == old(self).base_dir,
            final(self).num_previews_per_page == old(self).num_previews_per_page,
            blog_indexed(*final(self), post_models(old(shared).posts@)),
            (r is Ok) <==> (forall|i: int|
                0 <= i < final(self).blog_posts@.len() ==> crate::feed::post_cdata_safe(
                    #[trigger] post_models(final(self).blog_posts@)[i],
                )),
            r matches Ok(plan) ==> {
                let ms = post_models(final(self).blog_posts@);
                let per = final(self).num_previews_per_page as nat;
                let base = final(self).base_dir@;
                &&& plan.post_paths@.len() == ms.len()
                &&& forall|i: int|
                    0 <= i < ms.len() ==> plan.post_paths.deep_view()[i] == (#[trigger] ms[i]).base_dir
                        + "/"@ + ms[i].url + "/index.html"@
                &&& write_models(plan.overview@) == spec_scope_plan(
                    overview_scope(base),
                    ms.len(),
                    per,
                )
                &&& write_models(plan.topic_pages@) == spec_keyed_plan(
                    final(self).topic_blog_indices@,
                    base,
                    per,
                    true,
                )
                &&& write_models(plan.year_pages@) == spec_keyed_plan(
                    final(self).year_blog_indices@,
                    base,
                    per,
                    false,
                )
                &&& plan.feed@ == crate::feed::spec_feed(ms, base, date_now@)
            },
            r matches Err(e) ==> e == crate::feed::FeedError::CdataDelimiter,
    {
        self.index_posts(shared);
        let feed = match self.generate_atom_feed(date_now) {
            Ok(f) => f,
            Err(e) => {
                return Err(e);
            },
        };
        let post_paths = self.post_page_paths();
        let overview = self.generate_overview_posts();
        let topic_pages = self.generate_overview_topic();
        let year_pages = self.generate_overview_year();
        Ok(BlogPlan { post_paths, overview, topic_pages, year_pages, feed })
    }
}

} // verus!
