//! Grouping episodes into dramas (`resort`).

use vstd::prelude::*;
use crate::listing::{url_views, VideoUrl, VideoUrlView};

verus! {

/// A drama: its title and its episodes.
#[derive(Debug)]
pub struct Video {
    pub title: String,
    pub range: Vec<VideoUrl>,
}

/// What a `Video` holds.
pub struct VideoView {
    pub title: Seq<char>,
    pub range: Seq<VideoUrlView>,
}

impl View for Video {
    type V = VideoView;

    open spec fn view(&self) -> VideoView {
        VideoView { title: self.title@, range: url_views(self.range@) }
    }
}

/// The views of a sequence of dramas.
pub open spec fn video_views(s: Seq<Video>) -> Seq<VideoView> {
    s.map_values(|v: Video| v@)
}

/// The distinct titles of `s`, in the order of their first appearance.
pub open spec fn titles_in_order(s: Seq<VideoUrlView>) -> Seq<Seq<char>>
    decreases s.len(),
{
    if s.len() == 0 {
        Seq::empty()
    } else {
        let earlier = titles_in_order(s.drop_last());
        if earlier.contains(s.last().title) {
            earlier
        } else {
            earlier.push(s.last().title)
        }
    }
}

/// The episodes of `s` whose title is `t`, in order.
pub open spec fn with_title(s: Seq<VideoUrlView>, t: Seq<char>) -> Seq<VideoUrlView>
    decreases s.len(),
{
    if s.len() == 0 {
        s
    } else {
        let earlier = with_title(s.drop_last(), t);
        if s.last().title == t {
            earlier.push(s.last())
        } else {
            earlier
        }
    }
}

/// `x` put into `s` after every element whose time is not greater than its own
/// (a step of a stable insertion sort).
pub open spec fn insert_by_time(s: Seq<VideoUrlView>, x: VideoUrlView) -> Seq<VideoUrlView>
    decreases s.len(),
{
    if s.len() == 0 || s.last().time <= x.time {
        s.push(x)
    } else {
        insert_by_time(s.drop_last(), x).push(s.last())
    }
}

/// `s` sorted by time, keeping the order of episodes with the same time
/// (`sort_by` on `time`, which is stable).
pub open spec fn sort_by_time(s: Seq<VideoUrlView>) -> Seq<VideoUrlView>
    decreases s.len(),
{
    if s.len() == 0 {
        s
    } else {
        insert_by_time(sort_by_time(s.drop_last()), s.last())
    }
}

/// The dramas of `s` with their episodes in listing order, before sorting.
pub open spec fn grouped(s: Seq<VideoUrlView>) -> Seq<VideoView> {
    titles_in_order(s).map_values(|t: Seq<char>| VideoView { title: t, range: with_title(s, t) })
}

/// What `resort` gives: one drama per distinct title, in the order in which the
/// titles first appear, each with the episodes of that title sorted by time.
pub open spec fn resort_spec(s: Seq<VideoUrlView>) -> Seq<VideoView> {
    titles_in_order(s).map_values(
        |t: Seq<char>| VideoView { title: t, range: sort_by_time(with_title(s, t)) },
    )
}

/// A title is among `titles_in_order(s)` exactly when some episode has it, and
/// no title is listed twice.
pub proof fn lemma_titles_in_order(s: Seq<VideoUrlView>)
    ensures
        titles_in_order(s).no_duplicates(),
        forall|t: Seq<char>|
            #![trigger titles_in_order(s).contains(t)]
            titles_in_order(s).contains(t) <==> exists|i: int| 0 <= i < s.len() && s[i].title == t,
    decreases s.len(),
{
    if s.len() > 0 {
        let d = s.drop_last();
        lemma_titles_in_order(d);
        assert forall|t: Seq<char>|
            #![trigger titles_in_order(s).contains(t)]
            titles_in_order(s).contains(t) <==> exists|i: int| 0 <= i < s.len() && s[i].title == t by {
            if titles_in_order(s).contains(t) {
                if titles_in_order(d).contains(t) {
                    let i = choose|i: int| 0 <= i < d.len() && d[i].title == t;
                    assert(s[i] == d[i]);
                } else {
                    assert(titles_in_order(s) == titles_in_order(d).push(s.last().title));
                    let k = choose|k: int| 0 <= k < titles_in_order(s).len() && titles_in_order(s)[k] == t;
                    if k < titles_in_order(d).len() {
                        assert(titles_in_order(d)[k] == t);
                    }
                    assert(s[s.len() - 1].title == t);
                }
            }
            if exists|i: int| 0 <= i < s.len() && s[i].title == t {
                let i = choose|i: int| 0 <= i < s.len() && s[i].title == t;
                if i < s.len() - 1 {
                    assert(d[i].title == t);
                    assert(titles_in_order(d).contains(t));
                    if !titles_in_order(d).contains(s.last().title) {
                        assert(titles_in_order(s)[titles_in_order(d).index_of(t)] == t);
                    }
                } else {
                    if !titles_in_order(d).contains(s.last().title) {
                        assert(titles_in_order(s)[titles_in_order(d).len() as int] == t);
                    }
                }
            }
        }
    }
}

/// With no episode of title `t`, `with_title` is empty.
pub proof fn lemma_with_title_empty(s: Seq<VideoUrlView>, t: Seq<char>)
    requires
        forall|i: int| 0 <= i < s.len() ==> s[i].title != t,
    ensures
        with_title(s, t) == Seq::<VideoUrlView>::empty(),
    decreases s.len(),
{
    if s.len() > 0 {
        lemma_with_title_empty(s.drop_last(), t);
    }
}

/// Puts `x` into the time-sorted position of `v` (see `insert_by_time`).
fn insert_sorted(v: &mut Vec<VideoUrl>, x: VideoUrl)
    ensures
        url_views(final(v)@) == insert_by_time(url_views(old(v)@), x@),
{
    let ghost s = url_views(v@);
    let mut pos: usize = v.len();
    while pos > 0 && v[pos - 1].time > x.time
        invariant
            pos <= v@.len(),
            s == url_views(v@),
            forall|j: int| pos <= j < v@.len() ==> s[j].time > x.time,
        decreases pos,
    {
        pos = pos - 1;
    }
    proof { lemma_insert_at(s, x@, pos as int); }
    v.insert(pos, x);
    assert(url_views(v@) =~= s.take(pos as int).push(x@) + s.skip(pos as int));
}

/// `insert_by_time` puts `x` right after the last element whose time is not
/// greater than its own.
proof fn lemma_insert_at(s: Seq<VideoUrlView>, x: VideoUrlView, pos: int)
    requires
        0 <= pos <= s.len(),
        forall|j: int| pos <= j < s.len() ==> s[j].time > x.time,
        pos == 0 || s[pos - 1].time <= x.time,
    ensures
        insert_by_time(s, x) == s.take(pos).push(x) + s.skip(pos),
    decreases s.len(),
{
    if s.len() == 0 || s.last().time <= x.time {
        assert(pos == s.len());
        assert(s.take(pos) =~= s);
        assert(s.take(pos).push(x) + s.skip(pos) =~= s.push(x));
    } else {
        let d = s.drop_last();
        lemma_insert_at(d, x, pos);
        assert(d.take(pos) =~= s.take(pos));
        assert((d.take(pos).push(x) + d.skip(pos)).push(s.last()) =~= s.take(pos).push(x) + s.skip(
            pos,
        ));
    }
}

/// The episodes of `v` sorted by time, stably.
fn sorted_by_time(v: &Vec<VideoUrl>) -> (r: Vec<VideoUrl>)
    ensures
        url_views(r@) == sort_by_time(url_views(v@)),
{
    let mut r: Vec<VideoUrl> = Vec::new();
    let mut k: usize = 0;
    while k < v.len()
        invariant
            k <= v@.len(),
            url_views(r@) == sort_by_time(url_views(v@).take(k as int)),
        decreases v@.len() - k,
    {
        assert(url_views(v@).take(k + 1).drop_last() =~= url_views(v@).take(k as int));
        insert_sorted(&mut r, v[k].duplicate());
        k = k + 1;
    }
    assert(url_views(v@).take(v@.len() as int) =~= url_views(v@));
    r
}

/// Groups episodes into dramas: one per distinct title, in order of first
/// appearance, each with its episodes sorted by time (stably).
pub fn resort(urls: Vec<VideoUrl>) -> (videos: Vec<Video>)
    ensures
        video_views(videos@) == resort_spec(url_views(urls@)),
{
    let ghost all = url_views(urls@);
    let mut groups: Vec<Video> = Vec::new();
    let mut i: usize = 0;
    while i < urls.len()
        invariant
            i <= urls@.len(),
            all == url_views(urls@),
            video_views(groups@) =~= grouped(all.take(i as int)),
        decreases urls@.len() - i,
    {
        let ghost p = all.take(i as int);
        let ghost q = all.take(i + 1);
        assert(q.drop_last() =~= p);
        assert(q.last() == urls@[i as int]@);
        proof { lemma_titles_in_order(p); lemma_titles_in_order(q); }
        let url = &urls[i];
        assert(video_views(groups@).len() == groups@.len());
        assert forall|m: int| #![trigger groups@[m]] 0 <= m < groups@.len() implies groups@[m]@
            == grouped(p)[m] by {
            assert(video_views(groups@)[m] == groups@[m]@);
        }
        let mut exists = false;
        let mut j: usize = 0;
        while j < groups.len()
            invariant
                i < urls@.len(),
                all == url_views(urls@),
                p == all.take(i as int),
                q == all.take(i + 1),
                q.drop_last() == p,
                q.last() == url@,
                titles_in_order(p).no_duplicates(),
                j <= groups@.len(),
                groups@.len() == titles_in_order(p).len(),
                exists <==> exists|m: int| 0 <= m < j && titles_in_order(p)[m] == url.title@,
                forall|m: int|
                    #![trigger groups@[m]]
                    0 <= m < groups@.len() ==> groups@[m]@ == (if m < j {
                        VideoView {
                            title: titles_in_order(p)[m],
                            range: with_title(q, titles_in_order(p)[m]),
                        }
                    } else {
                        VideoView {
                            title: titles_in_order(p)[m],
                            range: with_title(p, titles_in_order(p)[m]),
                        }
                    }),
            decreases groups@.len() - j,
        {
            if url.title == groups[j].title {
                exists = true;
                let copy = url.duplicate();
                let ghost before = groups@[j as int]@;
                groups[j].range.push(copy);
                assert(url_views(groups@[j as int].range@) =~= before.range.push(url@));
            }
            j = j + 1;
        }
        proof {
            if exists {
                assert(titles_in_order(q) == titles_in_order(p));
            } else {
                assert(!titles_in_order(p).contains(url.title@));
                assert(titles_in_order(q) == titles_in_order(p).push(url.title@));
            }
        }
        if !exists {
            let mut range: Vec<VideoUrl> = Vec::new();
            range.push(url.duplicate());
            let title = url.title.clone();
            proof {
                assert forall|m: int| 0 <= m < p.len() implies p[m].title != url.title@ by {
                    if p[m].title == url.title@ {
                        assert(titles_in_order(p).contains(url.title@));
                    }
                }
                lemma_with_title_empty(p, url.title@);
            }
            groups.push(Video { title, range });
            assert(url_views(groups@[groups@.len() - 1].range@) =~= seq![url@]);
        }
        assert(video_views(groups@) =~= grouped(q));
        i = i + 1;
    }
    assert(all.take(urls@.len() as int) =~= all);
    let mut videos: Vec<Video> = Vec::new();
    let mut k: usize = 0;
    while k < groups.len()
        invariant
            k <= groups@.len(),
            video_views(groups@) =~= grouped(all),
            video_views(videos@) =~= resort_spec(all).take(k as int),
        decreases groups@.len() - k,
    {
        let g = &groups[k];
        assert(video_views(groups@)[k as int] == g@);
        assert(video_views(groups@).len() == groups@.len());
        assert(grouped(all).len() == titles_in_order(all).len());
        assert(resort_spec(all).len() == titles_in_order(all).len());
        assert(g@ == grouped(all)[k as int]);
        let v = Video { title: g.title.clone(), range: sorted_by_time(&g.range) };
        assert(v@ == resort_spec(all)[k as int]);
        videos.push(v);
        assert(resort_spec(all).take(k + 1) =~= resort_spec(all).take(k as int).push(v@));
        k = k + 1;
    }
    assert(resort_spec(all).take(groups@.len() as int) =~= resort_spec(all));
    videos
}

/// The episodes of `s` with time `k`, in order.
pub open spec fn with_time(s: Seq<VideoUrlView>, k: u32) -> Seq<VideoUrlView>
    decreases s.len(),
{
    if s.len() == 0 {
        s
    } else {
        let earlier = with_time(s.drop_last(), k);
        if s.last().time == k {
            earlier.push(s.last())
        } else {
            earlier
        }
    }
}

/// The times in `s` never decrease.
pub open spec fn times_ascending(s: Seq<VideoUrlView>) -> bool {
    forall|i: int, j: int| 0 <= i <= j < s.len() ==> s[i].time <= s[j].time
}

proof fn lemma_insert_sorted(s: Seq<VideoUrlView>, x: VideoUrlView)
    requires
        times_ascending(s),
    ensures
        times_ascending(insert_by_time(s, x)),
        insert_by_time(s, x).len() == s.len() + 1,
        forall|i: int| #![auto] 0 <= i < insert_by_time(s, x).len() ==> (insert_by_time(s, x)[i]
            == x || s.contains(insert_by_time(s, x)[i])),
    decreases s.len(),
{
    if s.len() == 0 || s.last().time <= x.time {
        assert forall|i: int| #![auto] 0 <= i < s.push(x).len() implies (s.push(x)[i] == x
            || s.contains(s.push(x)[i])) by {
            if i < s.len() {
                assert(s.push(x)[i] == s[i]);
            }
        }
    } else {
        let d = s.drop_last();
        lemma_insert_sorted(d, x);
        let r = insert_by_time(d, x);
        assert forall|i: int| #![auto] 0 <= i < r.len() implies r[i].time <= s.last().time by {
            if r[i] != x {
                assert(d.contains(r[i]));
                let k = choose|k: int| 0 <= k < d.len() && d[k] == r[i];
                assert(s[k] == d[k]);
            }
        }
        assert forall|i: int| #![auto] 0 <= i < r.push(s.last()).len() implies (r.push(s.last())[i]
            == x || s.contains(r.push(s.last())[i])) by {
            if i < r.len() {
                if r[i] != x {
                    assert(d.contains(r[i]));
                    let k = choose|k: int| 0 <= k < d.len() && d[k] == r[i];
                    assert(s[k] == d[k]);
                }
            } else {
                assert(s[s.len() - 1] == s.last());
            }
        }
    }
}

proof fn lemma_insert_multiset(s: Seq<VideoUrlView>, x: VideoUrlView)
    ensures
        insert_by_time(s, x).to_multiset() =~= s.to_multiset().insert(x),
    decreases s.len(),
{
    broadcast use vstd::seq_lib::group_to_multiset_ensures;

    if s.len() == 0 || s.last().time <= x.time {
    } else {
        let d = s.drop_last();
        lemma_insert_multiset(d, x);
        assert(s =~= d.push(s.last()));
    }
}

proof fn lemma_insert_with_time(s: Seq<VideoUrlView>, x: VideoUrlView, k: u32)
    ensures
        with_time(insert_by_time(s, x), k) == (if x.time == k {
            with_time(s, k).push(x)
        } else {
            with_time(s, k)
        }),
    decreases s.len(),
{
    if s.len() == 0 || s.last().time <= x.time {
        assert(s.push(x).drop_last() =~= s);
    } else {
        let d = s.drop_last();
        lemma_insert_with_time(d, x, k);
        let r = insert_by_time(d, x);
        assert(r.push(s.last()).drop_last() =~= r);
        if x.time == k {
            assert(with_time(s, k) == with_time(d, k));
        }
    }
}

/// Sorting by time keeps the episodes (as a multiset), puts them in
/// non-decreasing order of time, and keeps the order of episodes of the same
/// time: it is a stable sort.
pub proof fn law_sort_by_time(s: Seq<VideoUrlView>)
    ensures
        sort_by_time(s).to_multiset() =~= s.to_multiset(),
        times_ascending(sort_by_time(s)),
        forall|k: u32| #[trigger] with_time(sort_by_time(s), k) == with_time(s, k),
    decreases s.len(),
{
    broadcast use vstd::seq_lib::group_to_multiset_ensures;

    if s.len() > 0 {
        let d = s.drop_last();
        law_sort_by_time(d);
        lemma_insert_sorted(sort_by_time(d), s.last());
        lemma_insert_multiset(sort_by_time(d), s.last());
        assert(s =~= d.push(s.last()));
        assert forall|k: u32| #[trigger] with_time(sort_by_time(s), k) == with_time(s, k) by {
            lemma_insert_with_time(sort_by_time(d), s.last(), k);
        }
    }
}

/// The episodes of `with_title(s, t)` are those of `s` with title `t`.
pub proof fn lemma_with_title_members(s: Seq<VideoUrlView>, t: Seq<char>)
    ensures
        forall|x: VideoUrlView| #[trigger]
            with_title(s, t).contains(x) <==> (s.contains(x) && x.title == t),
    decreases s.len(),
{
    if s.len() > 0 {
        let d = s.drop_last();
        lemma_with_title_members(d, t);
        assert forall|x: VideoUrlView| #[trigger]
            with_title(s, t).contains(x) <==> (s.contains(x) && x.title == t) by {
            if s.contains(x) && x.title == t {
                let i = choose|i: int| 0 <= i < s.len() && s[i] == x;
                if i < d.len() {
                    assert(d[i] == x);
                    assert(d.contains(x));
                    let w = with_title(d, t);
                    assert(w.contains(x));
                    let j = choose|j: int| 0 <= j < w.len() && w[j] == x;
                    if s.last().title == t {
                        assert(with_title(s, t) == w.push(s.last()));
                        assert(w.push(s.last())[j] == x);
                    } else {
                        assert(with_title(s, t) == w);
                    }
                } else {
                    assert(with_title(s, t)[with_title(s, t).len() - 1] == x);
                }
            }
            if with_title(s, t).contains(x) {
                let w = with_title(d, t);
                let j = choose|j: int| 0 <= j < with_title(s, t).len() && with_title(s, t)[j] == x;
                if s.last().title == t && j == w.len() {
                    assert(s[s.len() - 1] == x);
                } else {
                    assert(w[j] == x);
                    assert(w.contains(x));
                    let i = choose|i: int| 0 <= i < d.len() && d[i] == x;
                    assert(s[i] == x);
                }
            }
        }
    }
}

/// What `resort` gives partitions the episodes by title: no title twice, a
/// drama for every title that some episode has and for no other, and each
/// drama's episodes are exactly those of its title, sorted by time, with
/// episodes of the same time in listing order.
pub proof fn law_resort(s: Seq<VideoUrlView>)
    ensures
        resort_spec(s).map_values(|v: VideoView| v.title).no_duplicates(),
        forall|i: int|
            0 <= i < s.len() ==> exists|j: int|
                0 <= j < resort_spec(s).len() && #[trigger] resort_spec(s)[j].title
                    == #[trigger] s[i].title,
        forall|j: int|
            #![trigger resort_spec(s)[j]]
            0 <= j < resort_spec(s).len() ==> {
                let v = resort_spec(s)[j];
                &&& exists|i: int| 0 <= i < s.len() && s[i].title == v.title
                &&& times_ascending(v.range)
                &&& forall|x: VideoUrlView| #[trigger]
                    v.range.contains(x) <==> (s.contains(x) && x.title == v.title)
                &&& forall|k: u32| #[trigger]
                    with_time(v.range, k) == with_time(with_title(s, v.title), k)
            },
{
    lemma_titles_in_order(s);
    let ts = titles_in_order(s);
    assert(resort_spec(s).map_values(|v: VideoView| v.title) =~= ts);
    assert forall|i: int|
        0 <= i < s.len() implies exists|j: int|
            0 <= j < resort_spec(s).len() && #[trigger] resort_spec(s)[j].title
                == #[trigger] s[i].title by {
        assert(ts.contains(s[i].title));
        let j = choose|j: int| 0 <= j < ts.len() && ts[j] == s[i].title;
        assert(resort_spec(s)[j].title == ts[j]);
    }
    assert forall|j: int|
        #![trigger resort_spec(s)[j]]
        0 <= j < resort_spec(s).len() implies {
            let v = resort_spec(s)[j];
            &&& exists|i: int| 0 <= i < s.len() && s[i].title == v.title
            &&& times_ascending(v.range)
            &&& forall|x: VideoUrlView| #[trigger]
                v.range.contains(x) <==> (s.contains(x) && x.title == v.title)
            &&& forall|k: u32| #[trigger]
                with_time(v.range, k) == with_time(with_title(s, v.title), k)
        } by {
        let t = ts[j];
        assert(ts.contains(t));
        let w = with_title(s, t);
        law_sort_by_time(w);
        lemma_with_title_members(s, t);
        assert forall|x: VideoUrlView| #[trigger]
            sort_by_time(w).contains(x) <==> w.contains(x) by {
            broadcast use vstd::seq_lib::group_to_multiset_ensures;

            assert(sort_by_time(w).to_multiset().contains(x) == w.to_multiset().contains(x));
        }
    }
}

/// The episodes of the dramas `vs`, one drama after the other.
pub open spec fn concat_ranges(vs: Seq<VideoView>) -> Seq<VideoUrlView>
    decreases vs.len(),
{
    if vs.len() == 0 {
        Seq::empty()
    } else {
        concat_ranges(vs.drop_last()) + vs.last().range
    }
}

proof fn lemma_sort_of_sorted(s: Seq<VideoUrlView>)
    requires
        times_ascending(s),
    ensures
        sort_by_time(s) == s,
    decreases s.len(),
{
    if s.len() > 0 {
        let d = s.drop_last();
        assert(times_ascending(d)) by {
            assert forall|i: int, j: int| 0 <= i <= j < d.len() implies d[i].time <= d[j].time by {
                assert(d[i] == s[i] && d[j] == s[j]);
            }
        }
        lemma_sort_of_sorted(d);
        if d.len() > 0 {
            assert(d.last() == s[s.len() - 2]);
        }
        assert(d.push(s.last()) =~= s);
    }
}

proof fn lemma_sort_len(s: Seq<VideoUrlView>)
    ensures
        sort_by_time(s).len() == s.len(),
    decreases s.len(),
{
    if s.len() > 0 {
        lemma_sort_len(s.drop_last());
        lemma_insert_len(sort_by_time(s.drop_last()), s.last());
    }
}

proof fn lemma_insert_len(s: Seq<VideoUrlView>, x: VideoUrlView)
    ensures
        insert_by_time(s, x).len() == s.len() + 1,
    decreases s.len(),
{
    if s.len() > 0 && s.last().time > x.time {
        lemma_insert_len(s.drop_last(), x);
    }
}

proof fn lemma_with_title_concat(a: Seq<VideoUrlView>, b: Seq<VideoUrlView>, t: Seq<char>)
    ensures
        with_title(a + b, t) == with_title(a, t) + with_title(b, t),
    decreases b.len(),
{
    if b.len() == 0 {
        assert(a + b =~= a);
        assert(with_title(a, t) + with_title(b, t) =~= with_title(a, t));
    } else {
        lemma_with_title_concat(a, b.drop_last(), t);
        assert((a + b).drop_last() =~= a + b.drop_last());
        assert((a + b).last() == b.last());
        if b.last().title == t {
            assert(with_title(a, t) + with_title(b, t) =~= (with_title(a, t) + with_title(
                b.drop_last(),
                t,
            )).push(b.last()));
        }
    }
}

proof fn lemma_with_title_uniform(b: Seq<VideoUrlView>, t: Seq<char>, u: Seq<char>)
    requires
        forall|i: int| 0 <= i < b.len() ==> #[trigger] b[i].title == t,
    ensures
        with_title(b, u) == (if u == t {
            b
        } else {
            Seq::<VideoUrlView>::empty()
        }),
    decreases b.len(),
{
    if b.len() > 0 {
        let d = b.drop_last();
        assert forall|i: int| 0 <= i < d.len() implies #[trigger] d[i].title == t by {
            assert(d[i] == b[i]);
        }
        lemma_with_title_uniform(d, t, u);
        assert(b.last() == b[b.len() - 1]);
        assert(d.push(b.last()) =~= b);
    }
}

proof fn lemma_titles_concat_uniform(a: Seq<VideoUrlView>, b: Seq<VideoUrlView>, t: Seq<char>)
    requires
        b.len() > 0,
        forall|i: int| 0 <= i < b.len() ==> #[trigger] b[i].title == t,
    ensures
        titles_in_order(a + b) == (if titles_in_order(a).contains(t) {
            titles_in_order(a)
        } else {
            titles_in_order(a).push(t)
        }),
    decreases b.len(),
{
    let d = b.drop_last();
    assert((a + b).drop_last() =~= a + d);
    assert((a + b).last() == b[b.len() - 1]);
    if d.len() == 0 {
        assert(a + d =~= a);
    } else {
        assert forall|i: int| 0 <= i < d.len() implies #[trigger] d[i].title == t by {
            assert(d[i] == b[i]);
        }
        lemma_titles_concat_uniform(a, d, t);
        let r = titles_in_order(a + d);
        if !titles_in_order(a).contains(t) {
            assert(r[r.len() - 1] == t);
        }
        assert(r.contains(t));
    }
}

proof fn lemma_concat_prefix(s: Seq<VideoUrlView>, k: int)
    requires
        0 <= k <= resort_spec(s).len(),
    ensures
        titles_in_order(concat_ranges(resort_spec(s).take(k))) == titles_in_order(s).take(k),
        forall|u: Seq<char>|
            #[trigger] with_title(concat_ranges(resort_spec(s).take(k)), u) == (if titles_in_order(
                s,
            ).take(k).contains(u) {
                sort_by_time(with_title(s, u))
            } else {
                Seq::<VideoUrlView>::empty()
            }),
    decreases k,
{
    let r = resort_spec(s);
    let ts = titles_in_order(s);
    lemma_titles_in_order(s);
    law_resort(s);
    if k == 0 {
        assert(r.take(0) =~= Seq::<VideoView>::empty());
        assert(ts.take(0) =~= Seq::<Seq<char>>::empty());
        assert(concat_ranges(r.take(0)) =~= Seq::<VideoUrlView>::empty());
    } else {
        let j = k - 1;
        lemma_concat_prefix(s, j);
        let t = ts[j];
        let g = r[j];
        assert(g.title == t);
        assert(g.range == sort_by_time(with_title(s, t)));
        let prev = concat_ranges(r.take(j));
        assert(r.take(j + 1).drop_last() =~= r.take(j));
        assert(concat_ranges(r.take(j + 1)) == prev + g.range);
        let i0 = choose|i: int| 0 <= i < s.len() && s[i].title == g.title;
        assert(s.contains(s[i0]));
        assert(g.range.contains(s[i0]));
        assert forall|i: int| 0 <= i < g.range.len() implies #[trigger] g.range[i].title == t by {
            assert(g.range.contains(g.range[i]));
        }
        lemma_titles_concat_uniform(prev, g.range, t);
        assert(!ts.take(j).contains(t)) by {
            if ts.take(j).contains(t) {
                let m = choose|m: int| 0 <= m < ts.take(j).len() && ts.take(j)[m] == t;
                assert(ts[m] == ts[j]);
            }
        }
        assert(ts.take(j).push(t) =~= ts.take(j + 1));
        assert forall|u: Seq<char>|
            #[trigger] with_title(concat_ranges(r.take(j + 1)), u) == (if ts.take(j + 1).contains(u) {
                sort_by_time(with_title(s, u))
            } else {
                Seq::<VideoUrlView>::empty()
            }) by {
            lemma_with_title_concat(prev, g.range, u);
            lemma_with_title_uniform(g.range, t, u);
            assert(with_title(prev, u) == (if ts.take(j).contains(u) {
                sort_by_time(with_title(s, u))
            } else {
                Seq::<VideoUrlView>::empty()
            }));
            if u == t {
                assert(ts.take(j + 1).contains(u)) by {
                    assert(ts.take(j + 1)[j] == t);
                }
                assert(Seq::<VideoUrlView>::empty() + g.range =~= g.range);
            } else {
                let longer = ts.take(j + 1);
                let shorter = ts.take(j);
                if longer.contains(u) {
                    let m = choose|m: int| 0 <= m < longer.len() && longer[m] == u;
                    assert(shorter[m] == u);
                } else if shorter.contains(u) {
                    let m = choose|m: int| 0 <= m < shorter.len() && shorter[m] == u;
                    assert(longer[m] == u);
                }
                assert(with_title(prev, u) + Seq::<VideoUrlView>::empty() =~= with_title(prev, u));
            }
        }

    }
}

/// Grouping again the episodes of the dramas that `resort` gives, taken one
/// drama after the other, gives the same dramas: `resort` is idempotent.
pub proof fn law_resort_idempotent(s: Seq<VideoUrlView>)
    ensures
        resort_spec(concat_ranges(resort_spec(s))) == resort_spec(s),
{
    let r = resort_spec(s);
    let ts = titles_in_order(s);
    lemma_titles_in_order(s);
    law_resort(s);
    lemma_concat_prefix(s, r.len() as int);
    assert(r.take(r.len() as int) =~= r);
    assert(ts.take(ts.len() as int) =~= ts);
    let flat = concat_ranges(r);
    assert forall|j: int| 0 <= j < ts.len() implies sort_by_time(with_title(flat, #[trigger] ts[j]))
        == sort_by_time(with_title(s, ts[j])) by {
        assert(ts.contains(ts[j]));
        assert(r[j].range == sort_by_time(with_title(s, ts[j])));
        lemma_sort_of_sorted(r[j].range);
    }
    assert(resort_spec(flat) =~= r);
}

} // verus!
