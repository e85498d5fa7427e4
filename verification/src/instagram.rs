//! Media of Instagram, and the cache of media already seen.

use vstd::prelude::*;
use crate::engagement;
use crate::strmap::StrMap;
use crate::text::{
    first_line, hashtags, hashtags_spec, is_first_line, is_word_of, lemma_hashtags_exactly,
};
use crate::time::{Timestamp, days_between};

verus! {

/// The id of one medium.
pub struct MediaId {
    pub id: String,
}

/// A list of media ids.
pub struct MediaList {
    pub data: Vec<MediaId>,
}

/// The answer to a request for a user's media.
pub struct MediaResponse {
    pub media: MediaList,
}

impl MediaResponse {
    /// The ids of the media, in the order given.
    pub fn ids(&self) -> (ids: Vec<String>)
        ensures
            ids@.map_values(|s: String| s@) == self.media.data@.map_values(|m: MediaId| m.id@),
    {
        let mut ids: Vec<String> = Vec::new();
        let n = self.media.data.len();
        for i in 0..n
            invariant
                n == self.media.data@.len(),
                ids@.len() == i,
                forall|j: int| 0 <= j < i ==> #[trigger] ids@[j]@ == self.media.data@[j].id@,
        {
            ids.push(self.media.data[i].id.clone());
        }
        assert(ids@.map_values(|s: String| s@) =~= self.media.data@.map_values(|m: MediaId| m.id@));
        ids
    }
}

/// An Instagram post.
pub struct Post {
    pub like_count: u64,
    pub comments_count: u64,
    pub timestamp: Timestamp,
    pub permalink: String,
    pub id: String,
    pub caption: String,
}

/// The media already seen, each id with the creation time of its post.
pub struct Cache {
    pub seen: StrMap<Timestamp>,
}

/// Whether the medium `id` is worth a request: it was never seen, or at most
/// `max_watch_days` whole days lie between its post's creation and `now` (a
/// post dated after `now` is worth a request).
pub open spec fn worth_fetching(
    seen: Map<Seq<char>, Timestamp>,
    now: Timestamp,
    max_watch_days: u64,
    id: Seq<char>,
) -> bool {
    !seen.contains_key(id) || days_between(
        now.secs_spec(),
        now.nanos_spec(),
        seen[id].secs_spec(),
        seen[id].nanos_spec(),
    ) <= max_watch_days
}

/// The ids of `media` that are worth a request, in order.
pub open spec fn media_to_fetch(
    seen: Map<Seq<char>, Timestamp>,
    now: Timestamp,
    max_watch_days: u64,
    media: Seq<Seq<char>>,
) -> Seq<Seq<char>> {
    media.filter(|id: Seq<char>| worth_fetching(seen, now, max_watch_days, id))
}

/// Filters out ids already seen whose posts are too old, to conserve requests.
pub fn filter_seen(media: Vec<String>, cache: &Cache, now: Timestamp, max_watch_days: u64) -> (kept:
    Vec<String>)
    ensures
        kept@.map_values(|s: String| s@) == media_to_fetch(
            cache.seen@,
            now,
            max_watch_days,
            media@.map_values(|s: String| s@),
        ),
{
    let ghost all = media@.map_values(|s: String| s@);
    let mut kept: Vec<String> = Vec::new();
    let n = media.len();
    assert(all.take(0) =~= Seq::<Seq<char>>::empty());
    proof {
        reveal_with_fuel(Seq::filter, 1);
    }
    for i in 0..n
        invariant
            n == media@.len(),
            all == media@.map_values(|s: String| s@),
            kept@.map_values(|s: String| s@) == media_to_fetch(
                cache.seen@,
                now,
                max_watch_days,
                all.take(i as int),
            ),
    {
        let id = &media[i];
        let keep = match cache.seen.get(id) {
            Some(created) => {
                let days = now.days_since(created);
                days < 0 || days as u64 <= max_watch_days
            },
            None => true,
        };
        let ghost before = kept@.map_values(|s: String| s@);
        proof {
            assert(all.take(i + 1) =~= all.take(i as int).push(id@));
            all.take(i as int).lemma_filter_push(
                id@,
                |x: Seq<char>| worth_fetching(cache.seen@, now, max_watch_days, x),
            );
        }
        if keep {
            kept.push(id.clone());
            assert(kept@.map_values(|s: String| s@) =~= before.push(id@));
        }
    }
    assert(all.take(n as int) =~= all);
    kept
}

/// The seen ids after recording `posts` in order: each post's id with its
/// creation time, a later post replacing an earlier record of the same id.
pub open spec fn seen_after(seen: Map<Seq<char>, Timestamp>, posts: Seq<Post>) -> Map<
    Seq<char>,
    Timestamp,
>
    decreases posts.len(),
{
    if posts.len() == 0 {
        seen
    } else {
        seen_after(seen, posts.drop_last()).insert(posts.last().id@, posts.last().timestamp)
    }
}

/// Records the ids of `posts` with their creation times.
pub fn update_cache(cache: &mut Cache, posts: &Vec<Post>)
    ensures
        final(cache).seen@ == seen_after(old(cache).seen@, posts@),
{
    let n = posts.len();
    for i in 0..n
        invariant
            n == posts@.len(),
            cache.seen@ == seen_after(old(cache).seen@, posts@.take(i as int)),
    {
        assert(posts@.take(i + 1).drop_last() =~= posts@.take(i as int));
        cache.seen.insert(posts[i].id.clone(), posts[i].timestamp);
    }
    assert(posts@.take(n as int) =~= posts@);
}

/// A medium never seen is always fetched; a fetched medium is one of `media`.
pub proof fn lemma_media_to_fetch(
    seen: Map<Seq<char>, Timestamp>,
    now: Timestamp,
    max_watch_days: u64,
    media: Seq<Seq<char>>,
)
    ensures
        forall|i: int|
            0 <= i < media.len() && !seen.contains_key(#[trigger] media[i]) ==> media_to_fetch(
                seen,
                now,
                max_watch_days,
                media,
            ).contains(media[i]),
        forall|id: Seq<char>|
            #[trigger] media_to_fetch(seen, now, max_watch_days, media).contains(id) ==> media.contains(
                id,
            ) && worth_fetching(seen, now, max_watch_days, id),
{
    let pred = |x: Seq<char>| worth_fetching(seen, now, max_watch_days, x);
    assert forall|i: int|
        0 <= i < media.len() && !seen.contains_key(#[trigger] media[i]) implies media_to_fetch(
        seen,
        now,
        max_watch_days,
        media,
    ).contains(media[i]) by {
        media.lemma_filter_contains(pred, i);
    }
    assert forall|id: Seq<char>| #[trigger]
        media_to_fetch(seen, now, max_watch_days, media).contains(id) implies media.contains(id)
        && worth_fetching(seen, now, max_watch_days, id) by {
        media.lemma_filter_contains_rev(pred, id);
        let f = media.filter(pred);
        let j = choose|j: int| 0 <= j < f.len() && f[j] == id;
        media.lemma_filter_pred(pred, j);
    }
}

/// The ids fetched are exactly the ids of `media` that were never seen, or
/// whose post was created at most `max_watch_days` whole days before `now` (or
/// after it): a seen id of an older post is dropped.
pub proof fn lemma_media_to_fetch_exactly(
    seen: Map<Seq<char>, Timestamp>,
    now: Timestamp,
    max_watch_days: u64,
    media: Seq<Seq<char>>,
)
    ensures
        forall|id: Seq<char>|
            #[trigger] media_to_fetch(seen, now, max_watch_days, media).contains(id) <==> (
            media.contains(id) && (!seen.contains_key(id) || days_between(
                now.secs_spec(),
                now.nanos_spec(),
                seen[id].secs_spec(),
                seen[id].nanos_spec(),
            ) <= max_watch_days)),
{
    lemma_media_to_fetch(seen, now, max_watch_days, media);
    let pred = |x: Seq<char>| worth_fetching(seen, now, max_watch_days, x);
    assert forall|id: Seq<char>|
        media.contains(id) && (!seen.contains_key(id) || days_between(
            now.secs_spec(),
            now.nanos_spec(),
            seen[id].secs_spec(),
            seen[id].nanos_spec(),
        ) <= max_watch_days) implies #[trigger] media_to_fetch(
        seen,
        now,
        max_watch_days,
        media,
    ).contains(id) by {
        let i = choose|i: int| 0 <= i < media.len() && media[i] == id;
        media.lemma_filter_contains(pred, i);
    }
}

/// Raising `max_watch_days` only adds ids: the ids fetched under `m1` are the
/// ids fetched under any `m2 >= m1` that are worth fetching under `m1`, so they
/// form a subsequence of them, in the same order.
pub proof fn lemma_media_to_fetch_monotone(
    seen: Map<Seq<char>, Timestamp>,
    now: Timestamp,
    m1: u64,
    m2: u64,
    media: Seq<Seq<char>>,
)
    requires
        m1 <= m2,
    ensures
        media_to_fetch(seen, now, m1, media) == media_to_fetch(seen, now, m2, media).filter(
            |id: Seq<char>| worth_fetching(seen, now, m1, id),
        ),
    decreases media.len(),
{
    reveal(Seq::filter);
    let p1 = |id: Seq<char>| worth_fetching(seen, now, m1, id);
    if media.len() > 0 {
        let rest = media.drop_last();
        let x = media.last();
        lemma_media_to_fetch_monotone(seen, now, m1, m2, rest);
        let f2 = media_to_fetch(seen, now, m2, rest);
        f2.lemma_filter_push(x, p1);
        assert(media_to_fetch(seen, now, m1, media) == if p1(x) {
            media_to_fetch(seen, now, m1, rest).push(x)
        } else {
            media_to_fetch(seen, now, m1, rest)
        });
    }
}

/// After recording `posts`, every post's id is seen with the creation time of
/// the last post holding that id, and every other id keeps its record.
pub proof fn lemma_seen_after(seen: Map<Seq<char>, Timestamp>, posts: Seq<Post>)
    ensures
        forall|i: int|
            0 <= i < posts.len() ==> seen_after(seen, posts).contains_key(#[trigger] posts[i].id@),
        forall|i: int|
            0 <= i < posts.len() && (forall|j: int| i < j < posts.len() ==> posts[j].id@ != posts[i].id@)
                ==> seen_after(seen, posts)[#[trigger] posts[i].id@] == posts[i].timestamp,
        forall|k: Seq<char>|
            (forall|i: int| 0 <= i < posts.len() ==> posts[i].id@ != k) ==> #[trigger] seen_after(
                seen,
                posts,
            ).contains_key(k) == seen.contains_key(k) && (seen.contains_key(k) ==> seen_after(
                seen,
                posts,
            )[k] == seen[k]),
    decreases posts.len(),
{
    if posts.len() > 0 {
        let p0 = posts.drop_last();
        lemma_seen_after(seen, p0);
        let last = posts.last();
        assert forall|i: int|
            0 <= i < posts.len() implies seen_after(seen, posts).contains_key(
            #[trigger] posts[i].id@,
        ) by {
            if i < posts.len() - 1 {
                assert(posts[i] == p0[i]);
            }
        }
        assert forall|i: int|
            0 <= i < posts.len() && (forall|j: int|
                i < j < posts.len() ==> posts[j].id@ != posts[i].id@) implies seen_after(
            seen,
            posts,
        )[#[trigger] posts[i].id@] == posts[i].timestamp by {
            if i < posts.len() - 1 {
                assert(posts[i] == p0[i]);
                assert(posts[posts.len() - 1].id@ != posts[i].id@);
                assert forall|j: int| i < j < p0.len() implies p0[j].id@ != p0[i].id@ by {
                    assert(p0[j] == posts[j]);
                }
            }
        }
        assert forall|k: Seq<char>|
            (forall|i: int| 0 <= i < posts.len() ==> posts[i].id@ != k) implies #[trigger] seen_after(
            seen,
            posts,
        ).contains_key(k) == seen.contains_key(k) && (seen.contains_key(k) ==> seen_after(
            seen,
            posts,
        )[k] == seen[k]) by {
            assert(posts[posts.len() - 1].id@ != k);
            assert forall|i: int| 0 <= i < p0.len() implies p0[i].id@ != k by {
                assert(p0[i] == posts[i]);
            }
            assert(seen_after(seen, p0).contains_key(k) == seen.contains_key(k));
        }
    }
}

impl Post {
    /// The title of the post: the first line of its caption.
    pub fn title(&self) -> (t: &str)
        ensures
            is_first_line(self.caption@, t@),
    {
        first_line(self.caption.as_str())
    }
}

/// The engagement score of an Instagram post: likes count once, comments twice.
pub open spec fn engagement_score(p: &Post) -> int {
    p.like_count + 2 * p.comments_count
}

impl engagement::Post for Post {
    open spec fn uri_spec(&self) -> Seq<char> {
        self.permalink@
    }

    open spec fn hashtags_spec(&self) -> Seq<Seq<char>> {
        hashtags_spec(self.caption@)
    }

    open spec fn creation_time_spec(&self) -> Option<Timestamp> {
        Some(self.timestamp)
    }

    open spec fn engagement_spec(&self) -> int {
        engagement_score(self)
    }

    /// The words of the caption that start with `#`.
    fn hashtags(&self) -> (tags: Vec<&str>) {
        hashtags(self.caption.as_str())
    }

    fn uri(&self) -> (u: &str) {
        self.permalink.as_str()
    }

    fn creation_time(&self) -> (t: Option<Timestamp>) {
        Some(self.timestamp)
    }

    fn engagement(&self) -> (e: Option<u64>) {
        let total: u128 = self.like_count as u128 + 2 * (self.comments_count as u128);
        if total <= u64::MAX as u128 {
            Some(total as u64)
        } else {
            None
        }
    }
}

/// An Instagram post's engagement counts each like once and each comment twice.
pub proof fn lemma_engagement_weights(p: Post)
    ensures
        <Post as engagement::Post>::engagement_spec(&p) == p.like_count + 2 * p.comments_count,
{
}

/// An Instagram post's hashtags are the words of its whole caption that start
/// with `#`.
pub proof fn lemma_hashtags_of_caption(p: Post)
    ensures
        forall|w: Seq<char>|
            #[trigger] <Post as engagement::Post>::hashtags_spec(&p).contains(w) <==> (w.len() > 0
                && w[0] == '#' && is_word_of(w, p.caption@)),
{
    lemma_hashtags_exactly(p.caption@);
}

} // verus!
