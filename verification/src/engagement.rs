//! Engagement observations and the store of tracked posts.

use vstd::prelude::*;
use crate::strmap::StrMap;
use crate::time::{Timestamp, days_between, millis_between, i64_as_u64, wrap_to_u64};

verus! {

/// An engagement score observed at a particular time.
#[derive(Clone, Copy, Debug)]
pub struct TimedEngagement {
    pub engagement: u64,
    pub time: Timestamp,
}

/// Whether observation `a` comes no later than observation `b`.
pub open spec fn observed_no_later(a: TimedEngagement, b: TimedEngagement) -> bool {
    a.time.not_after(b.time)
}

/// Whether a series of observations is ordered by time.
pub open spec fn time_ordered(s: Seq<TimedEngagement>) -> bool {
    forall|i: int, j: int| 0 <= i < j < s.len() ==> observed_no_later(s[i], s[j])
}

/// Where `x` goes into `s`: after the last observation that is no later than it.
pub open spec fn insert_position(s: Seq<TimedEngagement>, x: TimedEngagement) -> int
    decreases s.len(),
{
    if s.len() == 0 {
        0
    } else if observed_no_later(s.last(), x) {
        s.len() as int
    } else {
        insert_position(s.drop_last(), x)
    }
}

/// `s` with `x` put after the last observation no later than it.
pub open spec fn insert_by_time(s: Seq<TimedEngagement>, x: TimedEngagement) -> Seq<
    TimedEngagement,
> {
    s.insert(insert_position(s, x), x)
}

/// The stable sort of `s` by time: each observation in turn put after the
/// observations before it that are no later than it.
pub open spec fn sort_by_time(s: Seq<TimedEngagement>) -> Seq<TimedEngagement>
    decreases s.len(),
{
    if s.len() == 0 {
        s
    } else {
        insert_by_time(sort_by_time(s.drop_last()), s.last())
    }
}

/// The observations of `s` made at time `t`, in order.
pub open spec fn observed_at(s: Seq<TimedEngagement>, t: Timestamp) -> Seq<TimedEngagement> {
    s.filter(|e: TimedEngagement| e.time == t)
}

proof fn lemma_insert_position(s: Seq<TimedEngagement>, x: TimedEngagement)
    ensures
        0 <= insert_position(s, x) <= s.len(),
        forall|j: int| insert_position(s, x) <= j < s.len() ==> !observed_no_later(s[j], x),
        insert_position(s, x) > 0 ==> observed_no_later(s[insert_position(s, x) - 1], x),
    decreases s.len(),
{
    if s.len() > 0 && !observed_no_later(s.last(), x) {
        lemma_insert_position(s.drop_last(), x);
        assert forall|j: int| insert_position(s, x) <= j < s.len() implies !observed_no_later(
            s[j],
            x,
        ) by {
            if j < s.len() - 1 {
                assert(s.drop_last()[j] == s[j]);
            }
        }
    }
}

/// A position past which every observation is later than `x`, and before
/// which the observation is no later than `x`, is the insert position.
proof fn lemma_insert_position_unique(s: Seq<TimedEngagement>, x: TimedEngagement, p: int)
    requires
        0 <= p <= s.len(),
        forall|j: int| p <= j < s.len() ==> !observed_no_later(#[trigger] s[j], x),
        p > 0 ==> observed_no_later(s[p - 1], x),
    ensures
        insert_position(s, x) == p,
    decreases s.len(),
{
    if s.len() > 0 && p < s.len() {
        assert(!observed_no_later(s[s.len() - 1], x));
        lemma_insert_position_unique(s.drop_last(), x, p);
    }
}

/// Putting an observation into a time-ordered series keeps it time-ordered.
proof fn lemma_insert_keeps_order(s: Seq<TimedEngagement>, x: TimedEngagement)
    requires
        time_ordered(s),
    ensures
        time_ordered(insert_by_time(s, x)),
{
    lemma_insert_position(s, x);
    let p = insert_position(s, x);
    let r = insert_by_time(s, x);
    assert forall|i: int, j: int| 0 <= i < j < r.len() implies observed_no_later(r[i], r[j]) by {
        if j < p {
            assert(r[i] == s[i]);
            assert(r[j] == s[j]);
        } else if j == p {
            assert(r[i] == s[i]);
            assert(r[j] == x);
            assert(observed_no_later(s[p - 1], x));
            if i < p - 1 {
                assert(observed_no_later(s[i], s[p - 1]));
            }
        } else if i < p {
            assert(r[i] == s[i]);
            assert(r[j] == s[j - 1]);
        } else if i == p {
            assert(r[i] == x);
            assert(r[j] == s[j - 1]);
            assert(!observed_no_later(s[j - 1], x));
        } else {
            assert(r[i] == s[i - 1]);
            assert(r[j] == s[j - 1]);
        }
    }
}

/// The stable sort by time yields a time-ordered series.
pub proof fn lemma_sort_by_time_ordered(s: Seq<TimedEngagement>)
    ensures
        time_ordered(sort_by_time(s)),
    decreases s.len(),
{
    if s.len() > 0 {
        lemma_sort_by_time_ordered(s.drop_last());
        lemma_insert_keeps_order(sort_by_time(s.drop_last()), s.last());
    }
}

/// The stable sort by time keeps, for every time, the observations made at
/// that time in the order they had: it only moves observations past ones
/// made at other times.
pub proof fn lemma_sort_by_time_stable(s: Seq<TimedEngagement>, t: Timestamp)
    ensures
        observed_at(sort_by_time(s), t) == observed_at(s, t),
    decreases s.len(),
{
    if s.len() > 0 {
        let s0 = s.drop_last();
        let x = s.last();
        let sorted0 = sort_by_time(s0);
        lemma_sort_by_time_stable(s0, t);
        lemma_insert_position(sorted0, x);
        let p = insert_position(sorted0, x);
        let pred = |e: TimedEngagement| e.time == t;
        let a = sorted0.take(p);
        let b = sorted0.skip(p);
        assert(sorted0 =~= a + b);
        assert(insert_by_time(sorted0, x) =~= a + (seq![x] + b));
        assert(s =~= s0.push(x));
        Seq::filter_distributes_over_add(a, seq![x] + b, pred);
        Seq::filter_distributes_over_add(seq![x], b, pred);
        Seq::filter_distributes_over_add(a, b, pred);
        s0.lemma_filter_push(x, pred);
        Seq::<TimedEngagement>::empty().lemma_filter_push(x, pred);
        assert(seq![x] =~= Seq::<TimedEngagement>::empty().push(x));
        reveal_with_fuel(Seq::filter, 1);
        if x.time == t {
            assert(b.filter(pred) =~= Seq::<TimedEngagement>::empty()) by {
                if b.filter(pred).len() > 0 {
                    b.lemma_filter_pred(pred, 0);
                    assert(b.filter(pred).contains(b.filter(pred)[0]));
                    b.lemma_filter_contains_rev(pred, b.filter(pred)[0]);
                    let j = choose|j: int| 0 <= j < b.len() && b[j] == b.filter(pred)[0];
                    assert(!observed_no_later(sorted0[p + j], x));
                }
            }
        }
    }
}

/// A series that is already time-ordered is left as it is.
pub proof fn lemma_sort_by_time_ordered_unchanged(s: Seq<TimedEngagement>)
    requires
        time_ordered(s),
    ensures
        sort_by_time(s) == s,
    decreases s.len(),
{
    if s.len() > 0 {
        let s0 = s.drop_last();
        assert(time_ordered(s0));
        lemma_sort_by_time_ordered_unchanged(s0);
        let x = s.last();
        if s0.len() > 0 {
            assert(observed_no_later(s[s.len() - 2], x));
        }
        assert(insert_position(s0, x) == s0.len());
        assert(s0.insert(s0.len() as int, x) =~= s);
    }
}

/// The stable sort by time only reorders: it keeps the length, and every
/// observation of the result is one of the input.
pub proof fn lemma_sort_by_time_elements(s: Seq<TimedEngagement>)
    ensures
        sort_by_time(s).len() == s.len(),
        forall|i: int| 0 <= i < s.len() ==> s.contains(#[trigger] sort_by_time(s)[i]),
    decreases s.len(),
{
    if s.len() > 0 {
        let s0 = s.drop_last();
        let x = s.last();
        lemma_sort_by_time_elements(s0);
        let t = sort_by_time(s0);
        lemma_insert_position(t, x);
        let p = insert_position(t, x);
        let r = sort_by_time(s);
        assert(r == t.insert(p, x));
        assert forall|i: int| 0 <= i < s.len() implies s.contains(#[trigger] r[i]) by {
            if i == p {
                assert(r[i] == x);
                assert(s[s.len() - 1] == x);
            } else {
                let j = if i < p { i } else { i - 1 };
                assert(r[i] == t[j]);
                assert(s0.contains(t[j]));
                let k = choose|k: int| 0 <= k < s0.len() && s0[k] == t[j];
                assert(s[k] == s0[k]);
            }
        }
    }
}

/// Puts `x` into `v` after the last observation no later than it.
fn insert_observation(v: &mut Vec<TimedEngagement>, x: TimedEngagement)
    ensures
        final(v)@ == insert_by_time(old(v)@, x),
{
    let mut p = v.len();
    while p > 0 && v[p - 1].time.is_after(&x.time)
        invariant
            p <= v@.len(),
            v@ == old(v)@,
            forall|j: int| p <= j < v@.len() ==> !observed_no_later(#[trigger] v@[j], x),
        decreases p,
    {
        p -= 1;
    }
    proof {
        lemma_insert_position_unique(v@, x, p as int);
    }
    v.insert(p, x);
}

/// The stable sort of `v` by time.
pub fn sorted_by_time(v: Vec<TimedEngagement>) -> (r: Vec<TimedEngagement>)
    ensures
        r@ == sort_by_time(v@),
{
    let mut r: Vec<TimedEngagement> = Vec::new();
    let n = v.len();
    for i in 0..n
        invariant
            n == v@.len(),
            r@ == sort_by_time(v@.take(i as int)),
    {
        assert(v@.take(i + 1).drop_last() =~= v@.take(i as int));
        insert_observation(&mut r, v[i]);
    }
    assert(v@.take(n as int) =~= v@);
    r
}

/// A post's data: its hashtags, its creation time, and its engagement
/// observations.
pub struct PostData {
    pub hashtags: Vec<String>,
    pub time: Timestamp,
    pub engagement: Vec<TimedEngagement>,
}

/// What a `PostData` holds, as mathematical values.
pub struct PostRecord {
    pub hashtags: Seq<Seq<char>>,
    pub time: Timestamp,
    pub engagement: Seq<TimedEngagement>,
}

impl View for PostData {
    type V = PostRecord;

    open spec fn view(&self) -> PostRecord {
        PostRecord {
            hashtags: self.hashtags@.map_values(|s: String| s@),
            time: self.time,
            engagement: self.engagement@,
        }
    }
}

/// A post as a platform delivers it.
pub trait Post {
    /// The post's address.
    spec fn uri_spec(&self) -> Seq<char>;

    /// The post's hashtags, in order.
    spec fn hashtags_spec(&self) -> Seq<Seq<char>>;

    /// When the post was created, or `None` where that time cannot be represented.
    spec fn creation_time_spec(&self) -> Option<Timestamp>;

    /// The post's engagement score.
    spec fn engagement_spec(&self) -> int;

    /// The post's hashtags, as slices of the post.
    fn hashtags(&self) -> (tags: Vec<&str>)
        ensures
            tags@.map_values(|t: &str| t@) == self.hashtags_spec(),
    ;

    /// The post's address.
    fn uri(&self) -> (u: &str)
        ensures
            u@ == self.uri_spec(),
    ;

    /// When the post was created, or `None` where that time cannot be
    /// represented. A post without a creation time cannot be merged:
    /// `merge_feed` stops at it with `MergeFault::UnknownCreationTime`.
    fn creation_time(&self) -> (t: Option<Timestamp>)
        ensures
            t == self.creation_time_spec(),
    ;

    /// The engagement score, or `None` where it does not fit in a `u64`.
    fn engagement(&self) -> (e: Option<u64>)
        ensures
            e == (if self.engagement_spec() <= u64::MAX {
                Some(self.engagement_spec() as u64)
            } else {
                None
            }),
    ;
}

/// Why a post could not be merged.
#[derive(Clone, Copy, Debug, PartialEq, Eq, Structural)]
pub enum MergeFault {
    /// The post's creation time cannot be represented.
    UnknownCreationTime,
    /// The post's engagement score does not fit in a `u64`.
    EngagementOverflow,
}

/// The post at `index` of the feed could not be merged, for the reason `fault`.
#[derive(Clone, Copy, Debug, PartialEq, Eq, Structural)]
pub struct MergeError {
    pub index: usize,
    pub fault: MergeFault,
}

/// The tracked posts of every user: user name to post address to post data.
pub type Store = StrMap<StrMap<PostData>>;

/// The posts of one user, as mathematical values.
pub open spec fn posts_view(m: StrMap<PostData>) -> Map<Seq<char>, PostRecord> {
    m@.map_values(|d: PostData| d@)
}

/// The posts tracked for `user` in `store`; none where the user is unknown.
pub open spec fn tracked_posts(store: Store, user: Seq<char>) -> Map<Seq<char>, PostRecord> {
    if store@.contains_key(user) {
        posts_view(store@[user])
    } else {
        Map::empty()
    }
}

/// Whether a post created at `created` is older than `max_watch_days` at `now`:
/// more whole days than that lie between its creation and `now`. A post dated
/// after `now` is not too old.
pub open spec fn too_old(now: Timestamp, created: Timestamp, max_watch_days: u64) -> bool {
    days_between(
        now.secs_spec(),
        now.nanos_spec(),
        created.secs_spec(),
        created.nanos_spec(),
    ) > max_watch_days
}

/// Whether the last observation of `series` is less than `min_interval_ms`
/// before `now`: `(now - last.time).num_milliseconds() as u64 < min_interval_ms`.
pub open spec fn observed_recently(
    series: Seq<TimedEngagement>,
    now: Timestamp,
    min_interval_ms: u64,
) -> bool {
    series.len() > 0 && wrap_to_u64(
        millis_between(
            now.secs_spec(),
            now.nanos_spec(),
            series.last().time.secs_spec(),
            series.last().time.nanos_spec(),
        ),
    ) < min_interval_ms
}

/// The effect of one post of the feed on the tracked posts of its user.
///
/// A post not yet tracked is recorded with its hashtags, its creation time, and
/// one observation of its engagement at `now`. A tracked post gets a further
/// observation at `now`, kept in time order, unless it is older than
/// `max_watch_days` or was last observed less than `min_interval_ms` ago.
pub open spec fn observe<P: Post>(
    posts: Map<Seq<char>, PostRecord>,
    p: P,
    now: Timestamp,
    max_watch_days: u64,
    min_interval_ms: u64,
) -> Result<Map<Seq<char>, PostRecord>, MergeFault> {
    let uri = p.uri_spec();
    let obs = TimedEngagement { engagement: p.engagement_spec() as u64, time: now };
    if !posts.contains_key(uri) {
        match p.creation_time_spec() {
            None => Err(MergeFault::UnknownCreationTime),
            Some(created) => if p.engagement_spec() > u64::MAX {
                Err(MergeFault::EngagementOverflow)
            } else {
                Ok(
                    posts.insert(
                        uri,
                        PostRecord {
                            hashtags: p.hashtags_spec(),
                            time: created,
                            engagement: seq![obs],
                        },
                    ),
                )
            },
        }
    } else {
        match p.creation_time_spec() {
            None => Err(MergeFault::UnknownCreationTime),
            Some(created) => {
                let rec = posts[uri];
                if too_old(now, created, max_watch_days) || observed_recently(
                    rec.engagement,
                    now,
                    min_interval_ms,
                ) {
                    Ok(posts)
                } else if p.engagement_spec() > u64::MAX {
                    Err(MergeFault::EngagementOverflow)
                } else {
                    Ok(
                        posts.insert(
                            uri,
                            PostRecord {
                                hashtags: rec.hashtags,
                                time: rec.time,
                                engagement: sort_by_time(rec.engagement.push(obs)),
                            },
                        ),
                    )
                }
            },
        }
    }
}

/// The effect of a whole feed, post after post; the first post that cannot be
/// merged stops it, and the error gives its position and the reason.
pub open spec fn merge_posts<P: Post>(
    posts: Map<Seq<char>, PostRecord>,
    feed: Seq<P>,
    now: Timestamp,
    max_watch_days: u64,
    min_interval_ms: u64,
) -> Result<Map<Seq<char>, PostRecord>, (int, MergeFault)>
    decreases feed.len(),
{
    if feed.len() == 0 {
        Ok(posts)
    } else {
        match merge_posts(posts, feed.drop_last(), now, max_watch_days, min_interval_ms) {
            Err(e) => Err(e),
            Ok(m) => match observe(m, feed.last(), now, max_watch_days, min_interval_ms) {
                Ok(m2) => Ok(m2),
                Err(f) => Err(((feed.len() - 1) as int, f)),
            },
        }
    }
}

/// Copies the hashtags into owned strings.
fn owned_tags(tags: &Vec<&str>) -> (r: Vec<String>)
    ensures
        r@.map_values(|s: String| s@) == tags@.map_values(|t: &str| t@),
{
    let mut r: Vec<String> = Vec::new();
    let n = tags.len();
    for i in 0..n
        invariant
            n == tags@.len(),
            r@.len() == i,
            forall|j: int| 0 <= j < i ==> #[trigger] r@[j]@ == tags@[j]@,
    {
        let s = tags[i].to_owned();
        r.push(s);
    }
    assert(r@.map_values(|s: String| s@) =~= tags@.map_values(|t: &str| t@));
    r
}

/// Applies one post of the feed to the tracked posts of its user.
fn observe_post<P: Post>(
    m: &mut StrMap<PostData>,
    p: &P,
    now: Timestamp,
    max_watch_days: u64,
    min_interval_ms: u64,
) -> (r: Result<(), MergeFault>)
    ensures
        match observe(posts_view(*old(m)), *p, now, max_watch_days, min_interval_ms) {
            Ok(x) => r is Ok && posts_view(*final(m)) == x,
            Err(f) => r == Err::<(), MergeFault>(f) && posts_view(*final(m)) == posts_view(*old(m)),
        },
{
    let ghost before = posts_view(*m);
    let uri = p.uri().to_owned();
    if !m.contains_key(&uri) {
        let tags = p.hashtags();
        let hashtags = owned_tags(&tags);
        let created = match p.creation_time() {
            None => {
                return Err(MergeFault::UnknownCreationTime);
            },
            Some(created) => created,
        };
        match p.engagement() {
            None => Err(MergeFault::EngagementOverflow),
            Some(e) => {
                let mut series: Vec<TimedEngagement> = Vec::new();
                series.push(TimedEngagement { engagement: e, time: now });
                let data = PostData { hashtags, time: created, engagement: series };
                let ghost rec = data@;
                m.insert(uri, data);
                proof {
                    assert(posts_view(*m) =~= before.insert(uri@, rec));
                }
                Ok(())
            },
        }
    } else {
        match p.creation_time() {
            None => Err(MergeFault::UnknownCreationTime),
            Some(created) => {
                let days = now.days_since(&created);
                if days >= 0 && days as u64 > max_watch_days {
                    return Ok(());
                }
                let recent = match m.get(&uri) {
                    Some(data) => {
                        let n = data.engagement.len();
                        if n > 0 {
                            let last = data.engagement[n - 1].time;
                            i64_as_u64(now.millis_since(&last)) < min_interval_ms
                        } else {
                            false
                        }
                    },
                    None => false,
                };
                if recent {
                    return Ok(());
                }
                match p.engagement() {
                    None => Err(MergeFault::EngagementOverflow),
                    Some(e) => {
                        match m.remove(&uri) {
                            Some(data) => {
                                let ghost old_rec = data@;
                                let PostData { hashtags, time, engagement } = data;
                                let mut series = engagement;
                                series.push(TimedEngagement { engagement: e, time: now });
                                let series = sorted_by_time(series);
                                let updated = PostData { hashtags, time, engagement: series };
                                let ghost rec = updated@;
                                m.insert(uri, updated);
                                proof {
                                    assert(posts_view(*m) =~= before.insert(uri@, rec));
                                }
                                Ok(())
                            },
                            None => Ok(()),
                        }
                    },
                }
            },
        }
    }
}

/// Merges a user's feed into the store.
///
/// The user gets an entry if they had none. Each post is then applied in feed
/// order, as `observe` says. Merging stops at the first post that cannot be
/// merged: the posts before it stay merged, and the error names its position
/// and the reason.
pub fn merge_feed<P: Post>(
    store: &mut Store,
    user: &str,
    feed: &Vec<P>,
    now: Timestamp,
    max_watch_days: u64,
    min_interval_ms: u64,
) -> (r: Result<(), MergeError>)
    ensures
        final(store)@ == old(store)@.insert(user@, final(store)@[user@]),
        match merge_posts(tracked_posts(*old(store), user@), feed@, now, max_watch_days, min_interval_ms) {
            Ok(m) => r is Ok && posts_view(final(store)@[user@]) == m,
            Err((k, f)) => r == Err::<(), MergeError>(MergeError { index: k as usize, fault: f })
                && merge_posts(
                tracked_posts(*old(store), user@),
                feed@.take(k),
                now,
                max_watch_days,
                min_interval_ms,
            ) == Ok::<Map<Seq<char>, PostRecord>, (int, MergeFault)>(
                posts_view(final(store)@[user@]),
            ),
        },
{
    let ghost start = tracked_posts(*store, user@);
    let key = user.to_owned();
    let mut m = match store.remove(&key) {
        Some(m) => m,
        None => StrMap::new(),
    };
    let ghost rest = store@;
    assert(posts_view(m) =~= start);
    let n = feed.len();
    let mut i: usize = 0;
    assert(feed@.take(0) =~= Seq::<P>::empty());
    while i < n
        invariant
            n == feed@.len(),
            i <= n,
            key@ == user@,
            store@ == rest,
            rest == old(store)@.remove(user@),
            start == tracked_posts(*old(store), user@),
            merge_posts(start, feed@.take(i as int), now, max_watch_days, min_interval_ms) == Ok::<
                Map<Seq<char>, PostRecord>,
                (int, MergeFault),
            >(posts_view(m)),
        decreases n - i,
    {
        let ghost before = posts_view(m);
        assert(feed@.take(i + 1).drop_last() =~= feed@.take(i as int));
        match observe_post(&mut m, &feed[i], now, max_watch_days, min_interval_ms) {
            Ok(()) => {},
            Err(f) => {
                store.insert(key, m);
                proof {
                    assert(store@ =~= old(store)@.insert(user@, store@[user@]));
                    assert(merge_posts(start, feed@.take(i + 1), now, max_watch_days, min_interval_ms)
                        == Err::<Map<Seq<char>, PostRecord>, (int, MergeFault)>((i as int, f)));
                    lemma_merge_posts_stops(start, feed@, i as int, now, max_watch_days, min_interval_ms);
                    assert(feed@.take(i as int) == feed@.take(i + 1).drop_last());
                }
                return Err(MergeError { index: i, fault: f });
            },
        }
        i += 1;
    }
    assert(feed@.take(n as int) =~= feed@);
    store.insert(key, m);
    Ok(())
}

/// Once a prefix of the feed fails, so does the whole feed, at the same post.
proof fn lemma_merge_posts_stops<P: Post>(
    posts: Map<Seq<char>, PostRecord>,
    feed: Seq<P>,
    k: int,
    now: Timestamp,
    max_watch_days: u64,
    min_interval_ms: u64,
)
    requires
        0 <= k < feed.len(),
        merge_posts(posts, feed.take(k + 1), now, max_watch_days, min_interval_ms) is Err,
    ensures
        merge_posts(posts, feed, now, max_watch_days, min_interval_ms) == merge_posts(
            posts,
            feed.take(k + 1),
            now,
            max_watch_days,
            min_interval_ms,
        ),
    decreases feed.len(),
{
    if feed.len() > k + 1 {
        assert(feed.drop_last().take(k + 1) =~= feed.take(k + 1));
        lemma_merge_posts_stops(posts, feed.drop_last(), k, now, max_watch_days, min_interval_ms);
    } else {
        assert(feed.take(k + 1) =~= feed);
    }
}

/// A post not yet tracked is recorded with its hashtags, its creation time,
/// and a single observation of its engagement at `now`.
pub proof fn lemma_unseen_post_recorded<P: Post>(
    posts: Map<Seq<char>, PostRecord>,
    p: P,
    now: Timestamp,
    max_watch_days: u64,
    min_interval_ms: u64,
)
    requires
        !posts.contains_key(p.uri_spec()),
        p.creation_time_spec() is Some,
        p.engagement_spec() <= u64::MAX,
    ensures
        observe(posts, p, now, max_watch_days, min_interval_ms) matches Ok(m) && m.contains_key(
            p.uri_spec(),
        ) && m[p.uri_spec()] == (PostRecord {
            hashtags: p.hashtags_spec(),
            time: p.creation_time_spec()->Some_0,
            engagement: seq![
                TimedEngagement { engagement: p.engagement_spec() as u64, time: now },
            ],
        }),
{
}

/// A tracked post older than `max_watch_days`, or last observed less than
/// `min_interval_ms` ago, gets no further observation: nothing changes.
pub proof fn lemma_unwatched_post_unchanged<P: Post>(
    posts: Map<Seq<char>, PostRecord>,
    p: P,
    now: Timestamp,
    max_watch_days: u64,
    min_interval_ms: u64,
)
    requires
        posts.contains_key(p.uri_spec()),
        p.creation_time_spec() matches Some(created) && (too_old(now, created, max_watch_days)
            || observed_recently(posts[p.uri_spec()].engagement, now, min_interval_ms)),
    ensures
        observe(posts, p, now, max_watch_days, min_interval_ms) == Ok::<
            Map<Seq<char>, PostRecord>,
            MergeFault,
        >(posts),
{
}

/// A tracked post whose most recent observation, the last of its series, lies
/// less than `min_interval_ms` before `now` (`(now - last).num_milliseconds()
/// as u64 < min_interval_ms`) gets no new observation: nothing changes, whatever
/// its earlier observations.
pub proof fn lemma_recently_observed_post_unchanged<P: Post>(
    posts: Map<Seq<char>, PostRecord>,
    p: P,
    now: Timestamp,
    max_watch_days: u64,
    min_interval_ms: u64,
)
    requires
        posts.contains_key(p.uri_spec()),
        p.creation_time_spec() is Some,
        posts[p.uri_spec()].engagement.len() > 0,
        wrap_to_u64(
            millis_between(
                now.secs_spec(),
                now.nanos_spec(),
                posts[p.uri_spec()].engagement.last().time.secs_spec(),
                posts[p.uri_spec()].engagement.last().time.nanos_spec(),
            ),
        ) < min_interval_ms,
    ensures
        observe(posts, p, now, max_watch_days, min_interval_ms) == Ok::<
            Map<Seq<char>, PostRecord>,
            MergeFault,
        >(posts),
{
}

/// A tracked post created more than `max_watch_days` whole days before `now`
/// gets no new observation: nothing changes.
pub proof fn lemma_post_past_watch_window_unchanged<P: Post>(
    posts: Map<Seq<char>, PostRecord>,
    p: P,
    now: Timestamp,
    max_watch_days: u64,
    min_interval_ms: u64,
)
    requires
        posts.contains_key(p.uri_spec()),
        p.creation_time_spec() matches Some(created) && days_between(
            now.secs_spec(),
            now.nanos_spec(),
            created.secs_spec(),
            created.nanos_spec(),
        ) > max_watch_days,
    ensures
        observe(posts, p, now, max_watch_days, min_interval_ms) == Ok::<
            Map<Seq<char>, PostRecord>,
            MergeFault,
        >(posts),
{
}

/// A tracked post created at most `max_watch_days` whole days before `now` (or
/// after it), never observed or last observed at least `min_interval_ms` before
/// `now`, with an engagement score that fits, gets exactly one new observation:
/// its score at `now`. Its hashtags and creation time stay, the new series is
/// time-ordered, is one longer, and for every time holds the observations made
/// at that time in the order of the old series followed by the new one. No
/// other post changes.
pub proof fn lemma_watched_post_observed<P: Post>(
    posts: Map<Seq<char>, PostRecord>,
    p: P,
    now: Timestamp,
    max_watch_days: u64,
    min_interval_ms: u64,
)
    requires
        posts.contains_key(p.uri_spec()),
        p.creation_time_spec() matches Some(created) && days_between(
            now.secs_spec(),
            now.nanos_spec(),
            created.secs_spec(),
            created.nanos_spec(),
        ) <= max_watch_days,
        posts[p.uri_spec()].engagement.len() == 0 || wrap_to_u64(
            millis_between(
                now.secs_spec(),
                now.nanos_spec(),
                posts[p.uri_spec()].engagement.last().time.secs_spec(),
                posts[p.uri_spec()].engagement.last().time.nanos_spec(),
            ),
        ) >= min_interval_ms,
        0 <= p.engagement_spec() <= u64::MAX,
    ensures
        observe(posts, p, now, max_watch_days, min_interval_ms) matches Ok(m) && {
            let old_rec = posts[p.uri_spec()];
            let new_rec = m[p.uri_spec()];
            let obs = TimedEngagement { engagement: p.engagement_spec() as u64, time: now };
            &&& m.dom() == posts.dom()
            &&& forall|u: Seq<char>| #[trigger]
                m.contains_key(u) && u != p.uri_spec() ==> m[u] == posts[u]
            &&& new_rec.hashtags == old_rec.hashtags
            &&& new_rec.time == old_rec.time
            &&& new_rec.engagement.len() == old_rec.engagement.len() + 1
            &&& time_ordered(new_rec.engagement)
            &&& forall|t: Timestamp|
                #[trigger] observed_at(new_rec.engagement, t) == observed_at(
                    old_rec.engagement.push(obs),
                    t,
                )
        },
{
    let uri = p.uri_spec();
    let rec = posts[uri];
    let obs = TimedEngagement { engagement: p.engagement_spec() as u64, time: now };
    let q = rec.engagement.push(obs);
    lemma_sort_by_time_ordered(q);
    lemma_sort_by_time_elements(q);
    let m = observe(posts, p, now, max_watch_days, min_interval_ms)->Ok_0;
    assert(m.dom() =~= posts.dom());
    assert forall|t: Timestamp| #[trigger]
        observed_at(m[uri].engagement, t) == observed_at(q, t) by {
        lemma_sort_by_time_stable(q, t);
    }
}

/// Whether `a` is a prefix of `b`.
pub open spec fn is_prefix_of(a: Seq<TimedEngagement>, b: Seq<TimedEngagement>) -> bool {
    a.len() <= b.len() && a == b.take(a.len() as int)
}

/// How the tracked posts of `before` relate to those of `after` when a merge
/// only adds: no post is dropped, hashtags and creation times stay, and for
/// every time the observations made at that time are only extended.
pub open spec fn only_adds(
    before: Map<Seq<char>, PostRecord>,
    after: Map<Seq<char>, PostRecord>,
) -> bool {
    forall|u: Seq<char>| #[trigger]
        before.contains_key(u) ==> {
            &&& after.contains_key(u)
            &&& after[u].hashtags == before[u].hashtags
            &&& after[u].time == before[u].time
            &&& forall|t: Timestamp|
                is_prefix_of(
                    #[trigger] observed_at(before[u].engagement, t),
                    observed_at(after[u].engagement, t),
                )
        }
}

/// Whether every observation of every tracked post was made at `now` or before.
pub open spec fn all_observed_by(posts: Map<Seq<char>, PostRecord>, now: Timestamp) -> bool {
    forall|u: Seq<char>, i: int| #[trigger]
        posts.contains_key(u) && 0 <= i < posts[u].engagement.len() ==> (
        #[trigger] posts[u].engagement[i]).time.not_after(now)
}

/// Whether every tracked post's observations are in time order.
pub open spec fn all_time_ordered(posts: Map<Seq<char>, PostRecord>) -> bool {
    forall|u: Seq<char>| #[trigger] posts.contains_key(u) ==> time_ordered(posts[u].engagement)
}

proof fn lemma_only_adds_refl(m: Map<Seq<char>, PostRecord>)
    ensures
        only_adds(m, m),
{
    assert forall|u: Seq<char>| #[trigger] m.contains_key(u) implies forall|t: Timestamp|
        is_prefix_of(
            #[trigger] observed_at(m[u].engagement, t),
            observed_at(m[u].engagement, t),
        ) by {
        assert forall|t: Timestamp| is_prefix_of(
            #[trigger] observed_at(m[u].engagement, t),
            observed_at(m[u].engagement, t),
        ) by {
            let o = observed_at(m[u].engagement, t);
            assert(o.take(o.len() as int) =~= o);
        }
    }
}

proof fn lemma_only_adds_trans(
    a: Map<Seq<char>, PostRecord>,
    b: Map<Seq<char>, PostRecord>,
    c: Map<Seq<char>, PostRecord>,
)
    requires
        only_adds(a, b),
        only_adds(b, c),
    ensures
        only_adds(a, c),
{
    assert forall|u: Seq<char>| #[trigger] a.contains_key(u) implies {
        &&& c.contains_key(u)
        &&& c[u].hashtags == a[u].hashtags
        &&& c[u].time == a[u].time
        &&& forall|t: Timestamp|
            is_prefix_of(
                #[trigger] observed_at(a[u].engagement, t),
                observed_at(c[u].engagement, t),
            )
    } by {
        assert(b.contains_key(u));
        assert forall|t: Timestamp| is_prefix_of(
            #[trigger] observed_at(a[u].engagement, t),
            observed_at(c[u].engagement, t),
        ) by {
            let x = observed_at(a[u].engagement, t);
            let y = observed_at(b[u].engagement, t);
            let z = observed_at(c[u].engagement, t);
            assert(is_prefix_of(x, y));
            assert(is_prefix_of(y, z));
            assert(x =~= z.take(x.len() as int));
        }
    }
}

/// One observed post only adds to the tracked posts, keeps every series in time
/// order, and leaves the post tracked.
proof fn lemma_observe_only_adds<P: Post>(
    posts: Map<Seq<char>, PostRecord>,
    p: P,
    now: Timestamp,
    max_watch_days: u64,
    min_interval_ms: u64,
)
    requires
        observe(posts, p, now, max_watch_days, min_interval_ms) is Ok,
    ensures
        observe(posts, p, now, max_watch_days, min_interval_ms) matches Ok(m) && only_adds(posts, m)
            && m.contains_key(p.uri_spec()) && (all_time_ordered(posts) ==> all_time_ordered(m))
            && (all_observed_by(posts, now) ==> all_observed_by(m, now))
            && forall|u: Seq<char>| #[trigger]
            m.contains_key(u) ==> posts.contains_key(u) || u == p.uri_spec(),
{
    let uri = p.uri_spec();
    let m = observe(posts, p, now, max_watch_days, min_interval_ms)->Ok_0;
    if m == posts {
        lemma_only_adds_refl(posts);
    } else if !posts.contains_key(uri) {
        assert forall|u: Seq<char>| #[trigger] posts.contains_key(u) implies forall|t: Timestamp|
            is_prefix_of(
                #[trigger] observed_at(posts[u].engagement, t),
                observed_at(m[u].engagement, t),
            ) by {
            assert(m[u] == posts[u]);
            assert forall|t: Timestamp| is_prefix_of(
                #[trigger] observed_at(posts[u].engagement, t),
                observed_at(m[u].engagement, t),
            ) by {
                let o = observed_at(posts[u].engagement, t);
                assert(o.take(o.len() as int) =~= o);
            }
        }
    } else {
        let rec = posts[uri];
        let obs = TimedEngagement { engagement: p.engagement_spec() as u64, time: now };
        let series = sort_by_time(rec.engagement.push(obs));
        assert(m == posts.insert(uri, PostRecord { hashtags: rec.hashtags, time: rec.time, engagement: series }));
        lemma_sort_by_time_ordered(rec.engagement.push(obs));
        lemma_sort_by_time_elements(rec.engagement.push(obs));
        if all_observed_by(posts, now) {
            assert forall|v: Seq<char>, i: int|
                m.contains_key(v) && 0 <= i < m[v].engagement.len() implies (
            #[trigger] m[v].engagement[i]).time.not_after(now) by {
                if v == uri {
                    let e = series[i];
                    let q = rec.engagement.push(obs);
                    assert(q.contains(e));
                    let k = choose|k: int| 0 <= k < q.len() && q[k] == e;
                    if k < rec.engagement.len() {
                        assert(q[k] == rec.engagement[k]);
                        assert(posts[uri].engagement[k].time.not_after(now));
                    }
                } else {
                    assert(posts[v].engagement[i] == m[v].engagement[i]);
                }
            }
        }
        assert forall|u: Seq<char>| #[trigger] posts.contains_key(u) implies forall|t: Timestamp|
            is_prefix_of(
                #[trigger] observed_at(posts[u].engagement, t),
                observed_at(m[u].engagement, t),
            ) by {
            assert forall|t: Timestamp| is_prefix_of(
                #[trigger] observed_at(posts[u].engagement, t),
                observed_at(m[u].engagement, t),
            ) by {
                let o = observed_at(posts[u].engagement, t);
                if u == uri {
                    lemma_sort_by_time_stable(rec.engagement.push(obs), t);
                    let pred = |e: TimedEngagement| e.time == t;
                    rec.engagement.lemma_filter_push(obs, pred);
                    let n = observed_at(m[u].engagement, t);
                    assert(o =~= n.take(o.len() as int));
                } else {
                    assert(o.take(o.len() as int) =~= o);
                }
            }
        }
    }
}

/// Merging a feed only adds: no user's post is dropped, a tracked post keeps
/// its hashtags and creation time, and for every time its observations made
/// at that time are only extended, never reordered or lost. Every post of the
/// feed is tracked afterwards, every tracked post was tracked before or is in
/// the feed, time-ordered series stay time-ordered, and where no observation
/// was made after `now`, none is afterwards.
pub proof fn lemma_merge_only_adds<P: Post>(
    posts: Map<Seq<char>, PostRecord>,
    feed: Seq<P>,
    now: Timestamp,
    max_watch_days: u64,
    min_interval_ms: u64,
)
    requires
        merge_posts(posts, feed, now, max_watch_days, min_interval_ms) is Ok,
    ensures
        merge_posts(posts, feed, now, max_watch_days, min_interval_ms) matches Ok(m) && only_adds(
            posts,
            m,
        ) && (forall|i: int| 0 <= i < feed.len() ==> m.contains_key(#[trigger] feed[i].uri_spec()))
            && (forall|u: Seq<char>| #[trigger]
            m.contains_key(u) ==> posts.contains_key(u) || exists|i: int|
                0 <= i < feed.len() && feed[i].uri_spec() == u) && (all_time_ordered(posts)
            ==> all_time_ordered(m)) && (all_observed_by(posts, now) ==> all_observed_by(m, now)),
    decreases feed.len(),
{
    if feed.len() == 0 {
        lemma_only_adds_refl(posts);
    } else {
        let f0 = feed.drop_last();
        lemma_merge_only_adds(posts, f0, now, max_watch_days, min_interval_ms);
        let m0 = merge_posts(posts, f0, now, max_watch_days, min_interval_ms)->Ok_0;
        lemma_observe_only_adds(m0, feed.last(), now, max_watch_days, min_interval_ms);
        let m = merge_posts(posts, feed, now, max_watch_days, min_interval_ms)->Ok_0;
        lemma_only_adds_trans(posts, m0, m);
        assert forall|i: int| 0 <= i < feed.len() implies m.contains_key(
            #[trigger] feed[i].uri_spec(),
        ) by {
            if i < feed.len() - 1 {
                assert(f0[i] == feed[i]);
                assert(m0.contains_key(f0[i].uri_spec()));
            }
        }
        assert forall|u: Seq<char>| #[trigger] m.contains_key(u) implies posts.contains_key(u)
            || exists|i: int| 0 <= i < feed.len() && feed[i].uri_spec() == u by {
            if u != feed.last().uri_spec() && !posts.contains_key(u) {
                assert(m0.contains_key(u));
                let i = choose|i: int| 0 <= i < f0.len() && f0[i].uri_spec() == u;
                assert(feed[i] == f0[i]);
            }
        }
    }
}

} // verus!
