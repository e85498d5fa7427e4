//! Posts of Tumblr, as a blog's post list delivers them.

use vstd::prelude::*;
use crate::engagement;
use crate::time::{MAX_UTC_SECS, MIN_UTC_SECS, Timestamp, u64_as_i64, wrap_to_i64};

verus! {

/// A Tumblr post.
pub struct Post {
    pub note_count: u64,
    pub post_url: String,
    pub tags: Vec<String>,
    pub timestamp: u64,
}

impl engagement::Post for Post {
    open spec fn uri_spec(&self) -> Seq<char> {
        self.post_url@
    }

    open spec fn hashtags_spec(&self) -> Seq<Seq<char>> {
        self.tags@.map_values(|t: String| t@)
    }

    /// The UNIX time `timestamp`, taken as a signed number of seconds.
    open spec fn creation_time_spec(&self) -> Option<Timestamp> {
        Timestamp::from_parts_spec(wrap_to_i64(self.timestamp as int) as i64, 0)
    }

    open spec fn engagement_spec(&self) -> int {
        self.note_count as int
    }

    /// The post's tags.
    fn hashtags(&self) -> (tags: Vec<&str>) {
        let mut tags: Vec<&str> = Vec::new();
        let n = self.tags.len();
        for i in 0..n
            invariant
                n == self.tags@.len(),
                tags@.len() == i,
                forall|j: int| 0 <= j < i ==> #[trigger] tags@[j]@ == self.tags@[j]@,
        {
            tags.push(self.tags[i].as_str());
        }
        assert(tags@.map_values(|t: &str| t@) =~= self.tags@.map_values(|t: String| t@));
        tags
    }

    fn uri(&self) -> (u: &str) {
        self.post_url.as_str()
    }

    /// The UNIX time `timestamp` read as a signed number of seconds; `None`
    /// where that second lies outside `chrono`'s range, so that the post has no
    /// creation time (see `lemma_creation_time`).
    fn creation_time(&self) -> (t: Option<Timestamp>) {
        Timestamp::from_parts(u64_as_i64(self.timestamp), 0)
    }

    fn engagement(&self) -> (e: Option<u64>) {
        Some(self.note_count)
    }
}

/// A post has a creation time exactly when its timestamp, read as a signed
/// number of seconds, lies in `chrono`'s range; the time is then that second.
pub proof fn lemma_creation_time(p: Post)
    ensures
        <Post as engagement::Post>::creation_time_spec(&p) is Some <==> MIN_UTC_SECS
            <= wrap_to_i64(p.timestamp as int) <= MAX_UTC_SECS,
        <Post as engagement::Post>::creation_time_spec(&p) matches Some(t) ==> t.secs_spec()
            == wrap_to_i64(p.timestamp as int) && t.nanos_spec() == 0,
{
    Timestamp::lemma_from_parts(wrap_to_i64(p.timestamp as int) as i64, 0);
}

/// A Tumblr post's engagement is its note count, and its hashtags are its tags,
/// in order.
pub proof fn lemma_engagement_and_tags(p: Post)
    ensures
        <Post as engagement::Post>::engagement_spec(&p) == p.note_count,
        <Post as engagement::Post>::hashtags_spec(&p).len() == p.tags@.len(),
        forall|i: int|
            0 <= i < p.tags@.len() ==> #[trigger] <Post as engagement::Post>::hashtags_spec(&p)[i]
                == p.tags@[i]@,
{
}

} // verus!
