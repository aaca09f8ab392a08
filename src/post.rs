//! Posts: their metadata, the frontmatter that holds it, and their order.
use vstd::prelude::*;
use std::sync::Arc;
use crate::tag::{Tag, lower_of, tag_named};
use crate::text::{chars_of, is_white, is_white_char, same_chars, slice_chars, string_of, trim_start, trim_start_chars};
use crate::url::{decoded, percent_decode};

verus! {

broadcast use vstd::seq_lib::group_to_multiset_ensures;

/// The metadata of one post.
pub struct PostMetadata {
    pub title: String,
    pub date: String,
    pub slug: String,
    pub tags: Option<Vec<Tag>>,
    pub word_count: usize,
}

/// What the metadata of a post is, seen from the contracts.
pub ghost struct PostView {
    pub title: Seq<char>,
    pub date: Seq<char>,
    pub slug: Seq<char>,
    pub tags: Option<Seq<Tag>>,
    pub word_count: nat,
}

impl View for PostMetadata {
    type V = PostView;

    open spec fn view(&self) -> PostView {
        PostView {
            title: self.title@,
            date: self.date@,
            slug: self.slug@,
            tags: match self.tags {
                Some(t) => Some(t@),
                None => None,
            },
            word_count: self.word_count as nat,
        }
    }
}

fn copy_tags(v: &Vec<Tag>) -> (r: Vec<Tag>)
    ensures
        r@ == v@,
{
    let mut out: Vec<Tag> = Vec::new();
    for i in 0..v.len()
        invariant
            out@ =~= v@.take(i as int),
    {
        out.push(v[i]);
    }
    assert(v@.take(v@.len() as int) =~= v@);
    out
}

impl PostMetadata {
    /// A copy of the metadata.
    pub fn copy(&self) -> (r: PostMetadata)
        ensures
            r@ == self@,
    {
        PostMetadata {
            title: self.title.clone(),
            date: self.date.clone(),
            slug: self.slug.clone(),
            tags: match &self.tags {
                Some(t) => Some(copy_tags(t)),
                None => None,
            },
            word_count: self.word_count,
        }
    }
}

/// Whether a word starts at position `i` of `s`.
pub open spec fn word_starts_at(s: Seq<char>, i: int) -> bool {
    !is_white(s[i]) && (i == 0 || is_white(s[i - 1]))
}

/// The number of words among the first `n` characters of `s`: the maximal
/// runs of characters that are not white space.
pub open spec fn words_in(s: Seq<char>, n: int) -> nat
    decreases n,
{
    if n <= 0 {
        0
    } else {
        words_in(s, n - 1) + if word_starts_at(s, n - 1) {
            1nat
        } else {
            0nat
        }
    }
}

/// The number of words of `s`, as `split_whitespace` counts them.
pub open spec fn word_count(s: Seq<char>) -> nat {
    words_in(s, s.len() as int)
}

pub fn calculate_word_count(content: &str) -> (r: usize)
    ensures
        r == word_count(content@),
{
    let cs = chars_of(content);
    let mut count: usize = 0;
    let mut i: usize = 0;
    while i < cs.len()
        invariant
            i <= cs@.len(),
            cs@ == content@,
            count == words_in(cs@, i as int),
            count <= i,
        decreases cs@.len() - i,
    {
        if !is_white_char(cs[i]) && (i == 0 || is_white_char(cs[i - 1])) {
            count = count + 1;
        }
        i = i + 1;
    }
    count
}

/// Whether `---` stands at position `i` of `s`.
pub open spec fn dashes_at(s: Seq<char>, i: int) -> bool {
    0 <= i && i + 3 <= s.len() && s[i] == '-' && s[i + 1] == '-' && s[i + 2] == '-'
}

/// The first position from `from` on where `---` stands.
#[verifier::opaque]
pub open spec fn first_dashes(s: Seq<char>, from: int) -> Option<int> {
    if exists|i: int| from <= i && dashes_at(s, i) {
        Some(choose|i: int| from <= i && dashes_at(s, i) && forall|j: int| from <= j < i ==> !dashes_at(s, j))
    } else {
        None
    }
}

/// The frontmatter of a post and its body: the text between the first two
/// `---` markers, and what follows the second without leading white space.
pub open spec fn frontmatter_of(s: Seq<char>) -> Option<(Seq<char>, Seq<char>)> {
    match first_dashes(s, 0) {
        Some(a) => match first_dashes(s, a + 3) {
            Some(b) => Some((s.subrange(a + 3, b), trim_start(s.subrange(b + 3, s.len() as int)))),
            None => None,
        },
        None => None,
    }
}

fn find_dashes(v: &Vec<char>, from: usize) -> (r: Option<usize>)
    ensures
        r matches Some(i) ==> first_dashes(v@, from as int) == Some(i as int) && from <= i && i + 3 <= v@.len(),
        r is None ==> first_dashes(v@, from as int) is None,
{
    reveal(first_dashes);
    let mut i: usize = from;
    while i < v.len() && v.len() - i >= 3
        invariant
            from <= i,
            forall|j: int| from <= j < i ==> !dashes_at(v@, j),
        decreases v@.len() - i,
    {
        if v[i] == '-' && v[i + 1] == '-' && v[i + 2] == '-' {
            proof {
                reveal(first_dashes);
                assert(dashes_at(v@, i as int));
                let k = choose|k: int| from <= k && dashes_at(v@, k) && forall|j: int| from <= j < k ==> !dashes_at(v@, j);
                if k < i {
                    assert(!dashes_at(v@, k));
                } else if k > i {
                    assert(!dashes_at(v@, i as int));
                }
                assert(k == i);
                assert(first_dashes(v@, from as int) == Some(i as int));
            }
            return Some(i);
        }
        i = i + 1;
    }
    proof {
        reveal(first_dashes);
        assert forall|j: int| from <= j implies !dashes_at(v@, j) by {
            if j >= i {
                assert(j + 3 > v@.len());
            }
        }
    }
    None
}

/// Splits a post file into its frontmatter and its body; `None` where it has
/// no frontmatter between two `---` markers.
pub fn split_frontmatter(content: &str) -> (r: Option<(String, String)>)
    ensures
        r matches Some((f, b)) ==> frontmatter_of(content@) == Some((f@, b@)),
        r is None ==> frontmatter_of(content@) is None,
{
    let cs = chars_of(content);
    assert(cs@.len() == cs.len());
    match find_dashes(&cs, 0) {
        Some(a) => match find_dashes(&cs, a + 3) {
            Some(b) => {
                let front = string_of(&slice_chars(&cs, a + 3, b));
                let body = string_of(&trim_start_chars(&slice_chars(&cs, b + 3, cs.len())));
                Some((front, body))
            },
            None => None,
        },
        None => None,
    }
}

/// The tags that the names stand for, in order, unknown names left out.
pub open spec fn tags_named(names: Seq<Seq<char>>) -> Seq<Tag>
    decreases names.len(),
{
    if names.len() == 0 {
        Seq::empty()
    } else {
        match tag_named(lower_of(names.last())) {
            Some(t) => tags_named(names.drop_last()).push(t),
            None => tags_named(names.drop_last()),
        }
    }
}

/// The texts of a list of strings.
pub open spec fn string_views(v: Seq<String>) -> Seq<Seq<char>> {
    v.map_values(|s: String| s@)
}

/// Builds the metadata of a post from its frontmatter fields and its body:
/// the tags it names that are known, or none where that leaves no tag, and
/// the number of words of the body.
pub fn post_metadata(title: String, date: String, slug: String, tags: Option<Vec<String>>, body: &str) -> (r: PostMetadata)
    ensures
        r.title@ == title@,
        r.date@ == date@,
        r.slug@ == slug@,
        r.word_count == word_count(body@),
        r.tags matches Some(t) ==> tags matches Some(names) && t@ == tags_named(string_views(names@)) && t@.len() > 0,
        r.tags is None ==> (tags matches Some(names) ==> tags_named(string_views(names@)).len() == 0),
{
    let word_count = calculate_word_count(body);
    let known = match tags {
        Some(names) => {
            let mut out: Vec<Tag> = Vec::new();
            for i in 0..names.len()
                invariant
                    out@ == tags_named(string_views(names@).take(i as int)),
            {
                assert(string_views(names@).take(i + 1).drop_last() =~= string_views(names@).take(i as int));
                match Tag::from_name(names[i].as_str()) {
                    Ok(t) => out.push(t),
                    Err(_) => {},
                }
            }
            assert(string_views(names@).take(names@.len() as int) =~= string_views(names@));
            if out.len() > 0 {
                Some(out)
            } else {
                None
            }
        },
        None => None,
    };
    PostMetadata { title, date, slug, tags: known, word_count }
}

/// What `NaiveDate::parse_from_str(s, "%Y-%m-%d")` makes of a text, as year,
/// month and day.
pub uninterp spec fn ymd_of(s: Seq<char>) -> Option<(i32, u32, u32)>;

/// Relies on chrono's `NaiveDate::parse_from_str` with the format
/// `%Y-%m-%d`, and on `Datelike` for the fields of the date it returns: the
/// result depends on the text alone.
#[verifier::external_body]
fn parse_ymd(s: &str) -> (r: Option<(i32, u32, u32)>)
    ensures
        r == ymd_of(s@),
{
    match chrono::NaiveDate::parse_from_str(s, "%Y-%m-%d") {
        Ok(d) => Some((chrono::Datelike::year(&d), chrono::Datelike::month(&d), chrono::Datelike::day(&d))),
        Err(_) => None,
    }
}

/// The date by which a post sorts: the parsed date, or 1970-01-01 where its
/// date does not parse.
pub open spec fn sort_date(date: Seq<char>) -> (i32, u32, u32) {
    match ymd_of(date) {
        Some(d) => d,
        None => (1970, 1, 1),
    }
}

/// Whether date `a` comes after date `b`.
pub open spec fn later_date(a: (i32, u32, u32), b: (i32, u32, u32)) -> bool {
    a.0 > b.0 || (a.0 == b.0 && (a.1 > b.1 || (a.1 == b.1 && a.2 > b.2)))
}

/// "Not later" orders dates totally.
pub proof fn lemma_date_order(a: (i32, u32, u32), b: (i32, u32, u32), c: (i32, u32, u32))
    ensures
        !later_date(a, b) && !later_date(b, c) ==> !later_date(a, c),
        later_date(a, b) ==> !later_date(b, a),
        !later_date(a, b) ==> later_date(b, a) || a == b,
{
}

fn is_later(a: (i32, u32, u32), b: (i32, u32, u32)) -> (r: bool)
    ensures
        r == later_date(a, b),
{
    a.0 > b.0 || (a.0 == b.0 && (a.1 > b.1 || (a.1 == b.1 && a.2 > b.2)))
}

/// The views of a list of posts.
pub open spec fn post_views(posts: Seq<(PostMetadata, String)>) -> Seq<(PostView, Seq<char>)> {
    posts.map_values(|p: (PostMetadata, String)| (p.0@, p.1@))
}

/// A post with the date it sorts by.
type Keyed = ((i32, u32, u32), PostMetadata, String);

/// The posts of a list of keyed posts.
pub open spec fn keyed_views(items: Seq<((i32, u32, u32), PostMetadata, String)>) -> Seq<(PostView, Seq<char>)> {
    items.map_values(|t: ((i32, u32, u32), PostMetadata, String)| (t.1@, t.2@))
}

/// Sorts keyed posts by key, latest first.
fn sort_keyed(v: &mut Vec<Keyed>)
    requires
        forall|m: int| 0 <= m < old(v)@.len() ==> (#[trigger] old(v)@[m]).0 == sort_date(old(v)@[m].1.date@),
    ensures
        keyed_views(final(v)@).to_multiset() == keyed_views(old(v)@).to_multiset(),
        forall|m: int| 0 <= m < final(v)@.len() ==> (#[trigger] final(v)@[m]).0 == sort_date(final(v)@[m].1.date@),
        forall|a: int, b: int| 0 <= a < b < final(v)@.len() ==> !later_date(final(v)@[b].0, final(v)@[a].0),
{
    let ghost orig = keyed_views(v@);
    let mut i: usize = 1;
    while i < v.len()
        invariant
            1 <= i,
            keyed_views(v@).to_multiset() == orig.to_multiset(),
            forall|m: int| 0 <= m < v@.len() ==> (#[trigger] v@[m]).0 == sort_date(v@[m].1.date@),
            forall|a: int, b: int| 0 <= a < b < i && b < v@.len() ==> !later_date(v@[b].0, v@[a].0),
        decreases v@.len() - i,
    {
        let ghost before = v@;
        let x = v.remove(i);
        proof {
            assert(keyed_views(v@) =~= keyed_views(before).remove(i as int));
        }
        let mut j: usize = i;
        while j > 0 && is_later(x.0, v[j - 1].0)
            invariant
                j <= i,
                i <= v@.len(),
                v@ == before.remove(i as int),
                forall|k: int| j <= k < i ==> later_date(x.0, v@[k].0),
            decreases j,
        {
            j = j - 1;
        }
        let ghost mid = v@;
        v.insert(j, x);
        proof {
            assert(keyed_views(v@) =~= keyed_views(mid).insert(j as int, (x.1@, x.2@)));
            mid.insert_ensures(j as int, x);
            assert forall|m: int| 0 <= m < v@.len() implies (#[trigger] v@[m]).0 == sort_date(v@[m].1.date@) by {
                if m < j {
                    assert(v@[m] == mid[m]);
                } else if m > j {
                    assert(v@[m] == mid[m - 1]);
                }
            }
            assert forall|a: int, b: int| 0 <= a < b < i + 1 && b < v@.len() implies !later_date(v@[b].0, v@[a].0) by {
                if b < j {
                    assert(v@[a] == mid[a] && v@[b] == mid[b]);
                    assert(mid[a] == before[a] && mid[b] == before[b]);
                } else if b == j {
                    if a < j {
                        assert(v@[a] == mid[a]);
                        assert(mid[a] == before[a]);
                        assert(mid[j - 1] == before[j - 1]);
                        lemma_date_order(x.0, mid[j - 1].0, mid[a].0);
                    }
                } else if a < j {
                    assert(v@[a] == mid[a]);
                    assert(v@[b] == mid[b - 1]);
                    assert(mid[a] == before[a]);
                    assert(mid[b - 1] == before[b - 1]);
                } else if a == j {
                    assert(v@[b] == mid[b - 1]);
                    lemma_date_order(mid[b - 1].0, x.0, x.0);
                } else {
                    assert(v@[a] == mid[a - 1]);
                    assert(v@[b] == mid[b - 1]);
                    assert(mid[a - 1] == before[a - 1]);
                    assert(mid[b - 1] == before[b - 1]);
                }
            }
        }
        i = i + 1;
    }
}

/// Sorts posts newest first, by the date each one parses to; a post whose
/// date does not parse sorts as of 1970-01-01.
pub fn sort_posts_by_date(posts: &mut Vec<(PostMetadata, String)>)
    ensures
        post_views(final(posts)@).to_multiset() == post_views(old(posts)@).to_multiset(),
        forall|a: int, b: int|
            0 <= a < b < final(posts)@.len() ==> !later_date(
                sort_date(final(posts)@[b].0.date@),
                sort_date(final(posts)@[a].0.date@),
            ),
{
    let ghost orig = post_views(posts@);
    let mut items: Vec<Keyed> = Vec::new();
    assert(keyed_views(items@) + post_views(posts@) =~= orig);
    while posts.len() > 0
        invariant
            keyed_views(items@) + post_views(posts@) == orig,
            forall|m: int| 0 <= m < items@.len() ==> (#[trigger] items@[m]).0 == sort_date(items@[m].1.date@),
        decreases posts@.len(),
    {
        let ghost before = posts@;
        let (meta, content) = posts.remove(0);
        let key = match parse_ymd(meta.date.as_str()) {
            Some(d) => d,
            None => (1970, 1, 1),
        };
        let ghost old_items = items@;
        items.push((key, meta, content));
        proof {
            assert(post_views(before) =~= seq![post_views(before)[0]] + post_views(posts@));
            assert(keyed_views(items@) =~= keyed_views(old_items).push(post_views(before)[0]));
            assert(keyed_views(items@) + post_views(posts@) =~= keyed_views(old_items) + post_views(before));
        }
    }
    assert(post_views(posts@) =~= Seq::<(PostView, Seq<char>)>::empty());
    assert(keyed_views(items@) =~= orig);
    sort_keyed(&mut items);
    let ghost sorted = items@;
    assert(post_views(posts@) + keyed_views(items@) =~= keyed_views(sorted));
    while items.len() > 0
        invariant
            post_views(posts@) + keyed_views(items@) == keyed_views(sorted),
            posts@.len() + items@.len() == sorted.len(),
            forall|m: int| 0 <= m < posts@.len() ==> (#[trigger] posts@[m]).0.date@ == sorted[m].1.date@,
            forall|m: int| 0 <= m < items@.len() ==> (#[trigger] items@[m]) == sorted[posts@.len() + m],
        decreases items@.len(),
    {
        let ghost before = items@;
        let ghost old_posts = posts@;
        let (_, meta, content) = items.remove(0);
        posts.push((meta, content));
        proof {
            assert(keyed_views(before) =~= seq![keyed_views(before)[0]] + keyed_views(items@));
            assert(post_views(posts@) =~= post_views(old_posts).push(keyed_views(before)[0]));
            assert(post_views(posts@) + keyed_views(items@) =~= post_views(old_posts) + keyed_views(before));
            assert forall|m: int| 0 <= m < items@.len() implies (#[trigger] items@[m]) == sorted[posts@.len() + m] by {
                assert(items@[m] == before[m + 1]);
            }
        }
    }
    proof {
        assert(post_views(posts@) =~= keyed_views(sorted));
        assert forall|a: int, b: int| 0 <= a < b < posts@.len() implies !later_date(
            sort_date(posts@[b].0.date@),
            sort_date(posts@[a].0.date@),
        ) by {
            assert(sorted[a].0 == sort_date(sorted[a].1.date@));
            assert(sorted[b].0 == sort_date(sorted[b].1.date@));
        }
    }
}

/// Whether a post carries tag `t`.
pub open spec fn has_tag(p: PostView, t: Tag) -> bool {
    p.tags matches Some(ts) && ts.contains(t)
}

fn carries(meta: &PostMetadata, t: Tag) -> (r: bool)
    ensures
        r == has_tag(meta@, t),
{
    match &meta.tags {
        Some(ts) => {
            assert(meta@.tags == Some(ts@));
            let mut i: usize = 0;
            while i < ts.len()
                invariant
                    meta@.tags == Some(ts@),
                    i <= ts@.len(),
                    forall|k: int| 0 <= k < i ==> ts@[k] != t,
                decreases ts@.len() - i,
            {
                if ts[i] == t {
                    assert(ts@.contains(t) && ts@[i as int] == t);
                    return true;
                }
                i = i + 1;
            }
            false
        },
        None => false,
    }
}

/// The indices of the posts that carry tag `t`, in ascending order.
pub open spec fn tagged(posts: Seq<(PostMetadata, String)>, t: Tag, n: int) -> Seq<usize>
    decreases n,
{
    if n <= 0 {
        Seq::empty()
    } else if has_tag(posts[n - 1].0@, t) {
        tagged(posts, t, n - 1).push((n - 1) as usize)
    } else {
        tagged(posts, t, n - 1)
    }
}

/// The positions of the posts that carry `tag`, in the order of `posts`.
pub fn posts_with_tag(posts: &Vec<(PostMetadata, String)>, tag: Tag) -> (r: Vec<usize>)
    ensures
        r@ == tagged(posts@, tag, posts@.len() as int),
{
    let mut out: Vec<usize> = Vec::new();
    for i in 0..posts.len()
        invariant
            out@ == tagged(posts@, tag, i as int),
    {
        if carries(&posts[i].0, tag) {
            out.push(i);
        }
    }
    out
}

/// The tags in the alphabetical order of their URL names.
pub open spec fn tags_by_name() -> Seq<Tag> {
    seq![Tag::AsyncProgramming, Tag::Book, Tag::DevKit, Tag::Dioxus, Tag::Rust, Tag::Talk, Tag::Web]
}

/// The tag index of the site: each tag that some post carries, in the
/// alphabetical order of tag names, with the positions of its posts.
pub fn posts_by_tag(posts: &Vec<(PostMetadata, String)>) -> (r: Vec<(Tag, Vec<usize>)>)
    ensures
        forall|k: int| 0 <= k < r@.len() ==> (#[trigger] r@[k]).1@ == tagged(posts@, r@[k].0, posts@.len() as int) && r@[k].1@.len() > 0,
        forall|t: Tag| tagged(posts@, t, posts@.len() as int).len() > 0 ==> exists|k: int| 0 <= k < r@.len() && (#[trigger] r@[k]).0 == t,
        forall|a: int, b: int| 0 <= a < b < r@.len() ==> tags_by_name().index_of(r@[a].0) < tags_by_name().index_of(r@[b].0),
{
    let order = [Tag::AsyncProgramming, Tag::Book, Tag::DevKit, Tag::Dioxus, Tag::Rust, Tag::Talk, Tag::Web];
    assert(order@ =~= tags_by_name());
    let mut out: Vec<(Tag, Vec<usize>)> = Vec::new();
    for i in 0..7
        invariant
            order@ == tags_by_name(),
            forall|k: int| 0 <= k < out@.len() ==> (#[trigger] out@[k]).1@ == tagged(posts@, out@[k].0, posts@.len() as int) && out@[k].1@.len() > 0,
            forall|k: int| 0 <= k < out@.len() ==> exists|j: int| 0 <= j < i && order@[j] == (#[trigger] out@[k]).0 && tags_by_name().index_of(out@[k].0) == j,
            forall|j: int| 0 <= j < i && tagged(posts@, order@[j], posts@.len() as int).len() > 0 ==> exists|k: int| 0 <= k < out@.len() && (#[trigger] out@[k]).0 == order@[j],
            forall|a: int, b: int| 0 <= a < b < out@.len() ==> tags_by_name().index_of(out@[a].0) < tags_by_name().index_of(out@[b].0),
    {
        proof {
            tags_by_name_distinct();
        }
        let t = order[i];
        let found = posts_with_tag(posts, t);
        if found.len() > 0 {
            let ghost before = out@;
            out.push((t, found));
            proof {
                assert(tags_by_name().index_of(t) == i) by {
                    tags_by_name_distinct();
                    tags_by_name().index_of_first(t);
                }
                assert forall|k: int| 0 <= k < out@.len() implies exists|j: int| 0 <= j < i + 1 && order@[j] == (#[trigger] out@[k]).0 && tags_by_name().index_of(out@[k].0) == j by {
                    if k < before.len() {
                        assert(out@[k] == before[k]);
                    } else {
                        assert(order@[i as int] == out@[k].0);
                    }
                }
                assert forall|j: int| 0 <= j < i + 1 && tagged(posts@, order@[j], posts@.len() as int).len() > 0 implies exists|k: int| 0 <= k < out@.len() && (#[trigger] out@[k]).0 == order@[j] by {
                    if j < i {
                        let k = choose|k: int| 0 <= k < before.len() && (#[trigger] before[k]).0 == order@[j];
                        assert(out@[k] == before[k]);
                    } else {
                        assert(out@[before.len() as int].0 == order@[j]);
                    }
                }
                assert forall|a: int, b: int| 0 <= a < b < out@.len() implies tags_by_name().index_of(out@[a].0) < tags_by_name().index_of(out@[b].0) by {
                    assert(out@[a] == before[a] || b < before.len());
                    if b == before.len() {
                        assert(out@[a] == before[a]);
                    } else {
                        assert(out@[a] == before[a] && out@[b] == before[b]);
                    }
                }
            }
        }
    }
    proof {
        assert forall|t: Tag| tagged(posts@, t, posts@.len() as int).len() > 0 implies exists|k: int| 0 <= k < out@.len() && (#[trigger] out@[k]).0 == t by {
            let j: int = match t {
                Tag::AsyncProgramming => 0,
                Tag::Book => 1,
                Tag::DevKit => 2,
                Tag::Dioxus => 3,
                Tag::Rust => 4,
                Tag::Talk => 5,
                Tag::Web => 6,
            };
            assert(order@[j] == t);
        }
    }
    out
}

proof fn tags_by_name_distinct()
    ensures
        tags_by_name().no_duplicates(),
{
}

/// The first post whose slug is the decoded `slug`, with its content.
pub fn get_post_by_slug(posts: &Vec<(PostMetadata, String)>, slug: &str) -> (r: Option<(Arc<PostMetadata>, String)>)
    ensures
        r matches Some((m, c)) ==> exists|i: int|
            0 <= i < posts@.len() && posts@[i].0.slug@ == decoded(slug@) && (forall|j: int|
                0 <= j < i ==> posts@[j].0.slug@ != decoded(slug@)) && (*m)@ == posts@[i].0@ && c@ == posts@[i].1@,
        r is None ==> forall|i: int| 0 <= i < posts@.len() ==> posts@[i].0.slug@ != decoded(slug@),
{
    let decoded_slug = chars_of(percent_decode(slug).as_str());
    let mut i: usize = 0;
    while i < posts.len()
        invariant
            i <= posts@.len(),
            decoded_slug@ == decoded(slug@),
            forall|j: int| 0 <= j < i ==> posts@[j].0.slug@ != decoded(slug@),
        decreases posts@.len() - i,
    {
        if same_chars(&chars_of(posts[i].0.slug.as_str()), &decoded_slug) {
            let meta = Arc::new(posts[i].0.copy());
            return Some((meta, posts[i].1.clone()));
        }
        i = i + 1;
    }
    None
}

} // verus!
