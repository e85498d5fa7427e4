//! Posts of Bluesky, as its author feed delivers them.

use vstd::prelude::*;
use crate::engagement;
use crate::text::{hashtags, hashtags_spec, is_word_of, lemma_hashtags_exactly};
use crate::time::Timestamp;

verus! {

/// The record of a post: its type tag, creation time and text.
pub struct Record {
    pub record_type: String,
    pub created_at: Timestamp,
    pub text: String,
}

/// An image embedded in a post.
pub struct Image {
    pub thumb: String,
    pub fullsize: String,
    pub alt: String,
}

/// The embedded content of a post.
pub struct Embed {
    pub images: Vec<Image>,
}

/// Partial data from Bluesky on a post.
pub struct Post {
    pub uri: String,
    pub record: Record,
    pub embed: Option<Embed>,
    pub bookmark_count: u64,
    pub reply_count: u64,
    pub repost_count: u64,
    pub like_count: u64,
    pub quote_count: u64,
}

/// A post as the feed wraps it.
pub struct PostView {
    pub post: Post,
}

/// The posts of a feed, in feed order.
pub fn feed_posts(feed: Vec<PostView>) -> (posts: Vec<Post>)
    ensures
        posts@ == feed@.map_values(|v: PostView| v.post),
{
    let mut posts: Vec<Post> = Vec::new();
    let mut rest = feed;
    let ghost all = rest@;
    let total = rest.len();
    let mut taken: usize = 0;
    // Take the views from the back, then restore the order.
    while rest.len() > 0
        invariant
            taken + rest@.len() == all.len(),
            all.len() == total,
            rest@ == all.take(rest@.len() as int),
            posts@.len() == taken,
            forall|j: int| 0 <= j < taken ==> #[trigger] posts@[j] == all[all.len() - 1 - j].post,
        decreases rest@.len(),
    {
        let v = rest.pop().unwrap();
        posts.push(v.post);
        taken += 1;
    }
    let mut ordered: Vec<Post> = Vec::new();
    while posts.len() > 0
        invariant
            ordered@.len() + posts@.len() == all.len(),
            forall|j: int| 0 <= j < posts@.len() ==> #[trigger] posts@[j] == all[all.len() - 1 - j].post,
            forall|j: int| 0 <= j < ordered@.len() ==> #[trigger] ordered@[j] == all[j].post,
        decreases posts@.len(),
    {
        let p = posts.pop().unwrap();
        ordered.push(p);
    }
    assert(ordered@ =~= all.map_values(|v: PostView| v.post));
    ordered
}

/// The engagement score of a Bluesky post: bookmarks, likes and reposts count
/// once, quotes and replies twice.
pub open spec fn engagement_score(p: &Post) -> int {
    p.bookmark_count + p.like_count + 2 * p.quote_count + 2 * p.reply_count + p.repost_count
}

impl engagement::Post for Post {
    open spec fn uri_spec(&self) -> Seq<char> {
        self.uri@
    }

    open spec fn hashtags_spec(&self) -> Seq<Seq<char>> {
        hashtags_spec(self.record.text@)
    }

    open spec fn creation_time_spec(&self) -> Option<Timestamp> {
        Some(self.record.created_at)
    }

    open spec fn engagement_spec(&self) -> int {
        engagement_score(self)
    }

    /// The words of the post's text that start with `#`.
    fn hashtags(&self) -> (tags: Vec<&str>) {
        hashtags(self.record.text.as_str())
    }

    fn uri(&self) -> (u: &str) {
        self.uri.as_str()
    }

    fn creation_time(&self) -> (t: Option<Timestamp>) {
        Some(self.record.created_at)
    }

    fn engagement(&self) -> (e: Option<u64>) {
        let total: u128 = self.bookmark_count as u128 + self.like_count as u128 + 2 * (
        self.quote_count as u128) + 2 * (self.reply_count as u128) + self.repost_count as u128;
        if total <= u64::MAX as u128 {
            Some(total as u64)
        } else {
            None
        }
    }
}

/// A Bluesky post's engagement counts each bookmark, like and repost once and
/// each quote and reply twice.
pub proof fn lemma_engagement_weights(p: Post)
    ensures
        <Post as engagement::Post>::engagement_spec(&p) == p.bookmark_count + p.like_count + 2
            * p.quote_count + 2 * p.reply_count + p.repost_count,
{
}

/// A Bluesky post's hashtags are the words of its whole record text that start
/// with `#`: a stretch of the text is among them just when it is a maximal run
/// of non-whitespace characters starting with `#`.
pub proof fn lemma_hashtags_of_text(p: Post)
    ensures
        forall|w: Seq<char>|
            #[trigger] <Post as engagement::Post>::hashtags_spec(&p).contains(w) <==> (w.len() > 0
                && w[0] == '#' && is_word_of(w, p.record.text@)),
{
    lemma_hashtags_exactly(p.record.text@);
}

} // verus!
