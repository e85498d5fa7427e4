use smetrics_rs::bluesky::{self, Embed, Image, PostView, Record};
use smetrics_rs::engagement::sorted_by_time;
use smetrics_rs::instagram::{self, Cache, MediaId, MediaList, MediaResponse};
use smetrics_rs::strmap::StrMap;
use smetrics_rs::tumblr;
use smetrics_rs::{merge_feed, MergeError, MergeFault, Post, PostData, Store, TimedEngagement, Timestamp};

const DAY: i64 = 86_400;
const NOW: i64 = 1_750_000_000;

fn ts(secs: i64) -> Timestamp {
    Timestamp::from_parts(secs, 0).unwrap()
}

fn sky(uri: &str, text: &str, created: i64, likes: u64) -> bluesky::Post {
    bluesky::Post {
        uri: uri.to_string(),
        record: Record {
            record_type: "app.bsky.feed.post".to_string(),
            created_at: ts(created),
            text: text.to_string(),
        },
        embed: None,
        bookmark_count: 0,
        reply_count: 0,
        repost_count: 0,
        like_count: likes,
        quote_count: 0,
    }
}

fn user_posts(store: &Store, user: &str) -> Vec<(String, Vec<String>, i64, Vec<(u64, i64)>)> {
    let m = store.get(&user.to_string()).expect("user present");
    let mut keys = m.keys();
    keys.sort();
    let mut out = Vec::new();
    for k in keys {
        let d = m.get(&k).unwrap();
        out.push((
            k.clone(),
            d.hashtags.clone(),
            d.time.secs(),
            d.engagement.iter().map(|e| (e.engagement, e.time.secs())).collect(),
        ));
    }
    out
}

#[test]
fn bluesky_engagement_formula() {
    let mut p = sky("a", "", NOW, 3);
    p.bookmark_count = 1;
    p.reply_count = 5;
    p.repost_count = 7;
    p.quote_count = 11;
    assert_eq!(p.engagement(), Some(1 + 3 + 2 * 11 + 2 * 5 + 7));
    p.like_count = u64::MAX;
    assert_eq!(p.engagement(), None);
}

#[test]
fn instagram_engagement_formula_and_title() {
    let p = instagram::Post {
        like_count: 10,
        comments_count: 4,
        timestamp: ts(NOW),
        permalink: "https://ig/p/1".to_string(),
        id: "17".to_string(),
        caption: "Sunset #sky\nat the #beach".to_string(),
    };
    assert_eq!(p.engagement(), Some(18));
    assert_eq!(p.title(), "Sunset #sky");
    assert_eq!(p.uri(), "https://ig/p/1");
    assert_eq!(p.hashtags(), vec!["#sky", "#beach"]);
    assert_eq!(p.creation_time().unwrap().secs(), NOW);
    let big = instagram::Post { like_count: u64::MAX - 1, comments_count: 1, ..p };
    assert_eq!(big.engagement(), None);
}

#[test]
fn tumblr_post_fields() {
    let p = tumblr::Post {
        note_count: 42,
        post_url: "https://blog.tumblr.com/post/1".to_string(),
        tags: vec!["art".to_string(), "#not a hash".to_string()],
        timestamp: 1_600_000_000,
    };
    assert_eq!(p.engagement(), Some(42));
    assert_eq!(p.hashtags(), vec!["art", "#not a hash"]);
    assert_eq!(p.uri(), "https://blog.tumblr.com/post/1");
    assert_eq!(p.creation_time().unwrap().secs(), 1_600_000_000);
    assert_eq!(p.creation_time().unwrap().nanos(), 0);
    // `timestamp as i64` wraps: u64::MAX is one second before the epoch.
    let wrapped = tumblr::Post { timestamp: u64::MAX, ..p };
    assert_eq!(wrapped.creation_time().unwrap().secs(), -1);
    let far = tumblr::Post {
        note_count: 1,
        post_url: String::new(),
        tags: vec![],
        timestamp: i64::MAX as u64,
    };
    assert!(far.creation_time().is_none());
    let beyond = tumblr::Post { timestamp: 1_000_000_000_000_000, ..far };
    assert!(beyond.creation_time().is_none());
}

#[test]
fn bluesky_post_fields_and_feed() {
    let p = sky("at://x/1", "Look #here and #there", NOW - 5, 2);
    assert_eq!(p.uri(), "at://x/1");
    assert_eq!(p.hashtags(), vec!["#here", "#there"]);
    assert_eq!(p.creation_time().unwrap().secs(), NOW - 5);
    let image = Image { thumb: "t".to_string(), fullsize: "f".to_string(), alt: "a".to_string() };
    let mut q = sky("at://x/2", "", NOW, 0);
    q.embed = Some(Embed { images: vec![image] });
    let posts = bluesky::feed_posts(vec![PostView { post: p }, PostView { post: q }]);
    assert_eq!(posts.len(), 2);
    assert_eq!(posts[0].uri, "at://x/1");
    assert_eq!(posts[1].uri, "at://x/2");
    assert_eq!(posts[1].embed.as_ref().unwrap().images[0].alt, "a");
}

#[test]
fn new_post_is_recorded_with_one_observation() {
    let mut store: Store = StrMap::new();
    let feed = vec![sky("a", "#x hello #y", NOW - DAY, 5)];
    assert_eq!(merge_feed(&mut store, "u1", &feed, ts(NOW), 2, 600_000), Ok(()));
    assert_eq!(
        user_posts(&store, "u1"),
        vec![("a".to_string(), vec!["#x".to_string(), "#y".to_string()], NOW - DAY, vec![(5, NOW)])]
    );
}

#[test]
fn user_entry_is_created_for_an_empty_feed() {
    let mut store: Store = StrMap::new();
    let feed: Vec<bluesky::Post> = vec![];
    assert_eq!(merge_feed(&mut store, "u2", &feed, ts(NOW), 2, 600_000), Ok(()));
    assert!(store.contains_key(&"u2".to_string()));
    assert_eq!(store.get(&"u2".to_string()).unwrap().len(), 0);
    assert_eq!(store.len(), 1);
}

#[test]
fn tracked_post_gets_a_new_observation_after_the_interval() {
    let mut store: Store = StrMap::new();
    let feed = vec![sky("a", "", NOW - DAY, 5)];
    merge_feed(&mut store, "u1", &feed, ts(NOW), 2, 600_000).unwrap();
    let feed = vec![sky("a", "#ignored", NOW - DAY, 9)];
    merge_feed(&mut store, "u1", &feed, ts(NOW + 600), 2, 600_000).unwrap();
    assert_eq!(
        user_posts(&store, "u1"),
        vec![("a".to_string(), vec![], NOW - DAY, vec![(5, NOW), (9, NOW + 600)])]
    );
}

#[test]
fn recent_observation_blocks_a_new_one() {
    let mut store: Store = StrMap::new();
    let feed = vec![sky("a", "", NOW - DAY, 5)];
    merge_feed(&mut store, "u1", &feed, ts(NOW), 2, 600_000).unwrap();
    let feed = vec![sky("a", "", NOW - DAY, 9)];
    merge_feed(&mut store, "u1", &feed, ts(NOW + 599), 2, 600_000).unwrap();
    assert_eq!(user_posts(&store, "u1"), vec![("a".to_string(), vec![], NOW - DAY, vec![(5, NOW)])]);
}

#[test]
fn old_post_is_no_longer_watched() {
    let mut store: Store = StrMap::new();
    let feed = vec![sky("a", "", NOW - 3 * DAY, 5)];
    merge_feed(&mut store, "u1", &feed, ts(NOW), 2, 600_000).unwrap();
    merge_feed(&mut store, "u1", &feed, ts(NOW + DAY), 2, 600_000).unwrap();
    assert_eq!(
        user_posts(&store, "u1"),
        vec![("a".to_string(), vec![], NOW - 3 * DAY, vec![(5, NOW)])]
    );
    // Two days and a bit is still within two whole days.
    let mut store: Store = StrMap::new();
    let feed = vec![sky("b", "", NOW - 2 * DAY - 100, 1)];
    merge_feed(&mut store, "u1", &feed, ts(NOW), 2, 0).unwrap();
    merge_feed(&mut store, "u1", &feed, ts(NOW + 10), 2, 0).unwrap();
    assert_eq!(user_posts(&store, "u1")[0].3, vec![(1, NOW), (1, NOW + 10)]);
}

#[test]
fn post_from_the_future_is_still_watched() {
    // A creation time after `now` gives a negative day count: the post is not too old.
    let mut store: Store = StrMap::new();
    let feed = vec![sky("a", "", NOW + 5 * DAY, 5)];
    merge_feed(&mut store, "u1", &feed, ts(NOW), 2, 0).unwrap();
    merge_feed(&mut store, "u1", &feed, ts(NOW + 10), 2, 0).unwrap();
    assert_eq!(user_posts(&store, "u1")[0].2, NOW + 5 * DAY);
    assert_eq!(user_posts(&store, "u1")[0].3, vec![(5, NOW), (5, NOW + 10)]);
}

#[test]
fn duplicate_in_one_feed_is_observed_once() {
    let mut store: Store = StrMap::new();
    let feed = vec![sky("a", "", NOW, 5), sky("a", "", NOW, 6)];
    merge_feed(&mut store, "u1", &feed, ts(NOW), 2, 1).unwrap();
    assert_eq!(user_posts(&store, "u1")[0].3, vec![(5, NOW)]);
}

#[test]
fn observations_are_kept_in_time_order() {
    let mut store: Store = StrMap::new();
    let mut m: StrMap<PostData> = StrMap::new();
    m.insert(
        "a".to_string(),
        PostData {
            hashtags: vec![],
            time: ts(NOW - 100),
            engagement: vec![
                TimedEngagement { engagement: 1, time: ts(NOW + 50) },
                TimedEngagement { engagement: 2, time: ts(NOW - 1000) },
            ],
        },
    );
    store.insert("u1".to_string(), m);
    let feed = vec![sky("a", "", NOW - 100, 7)];
    // The last observation in the stored series is 1000 s old, so a new one is taken,
    // and the whole series is then sorted by time.
    merge_feed(&mut store, "u1", &feed, ts(NOW), 2, 600_000).unwrap();
    assert_eq!(user_posts(&store, "u1")[0].3, vec![(2, NOW - 1000), (7, NOW), (1, NOW + 50)]);
}

#[test]
fn future_last_observation_does_not_block() {
    let mut store: Store = StrMap::new();
    let mut m: StrMap<PostData> = StrMap::new();
    m.insert(
        "a".to_string(),
        PostData {
            hashtags: vec!["#t".to_string()],
            time: ts(NOW - 100),
            engagement: vec![TimedEngagement { engagement: 1, time: ts(NOW + 50) }],
        },
    );
    store.insert("u1".to_string(), m);
    let feed = vec![sky("a", "#other", NOW - 100, 4)];
    // The difference to a later observation is negative and wraps to a huge interval.
    merge_feed(&mut store, "u1", &feed, ts(NOW), 2, 600_000).unwrap();
    assert_eq!(
        user_posts(&store, "u1"),
        vec![("a".to_string(), vec!["#t".to_string()], NOW - 100, vec![(4, NOW), (1, NOW + 50)])]
    );
}

#[test]
fn other_users_are_untouched() {
    let mut store: Store = StrMap::new();
    merge_feed(&mut store, "u1", &vec![sky("a", "", NOW, 1)], ts(NOW), 2, 0).unwrap();
    merge_feed(&mut store, "u2", &vec![sky("b", "", NOW, 2)], ts(NOW), 2, 0).unwrap();
    assert_eq!(user_posts(&store, "u1")[0].0, "a");
    assert_eq!(user_posts(&store, "u2")[0].0, "b");
    assert!(!store.get(&"u1".to_string()).unwrap().contains_key(&"b".to_string()));
}

#[test]
fn engagement_overflow_is_reported_with_its_position() {
    let mut store: Store = StrMap::new();
    let mut bad = sky("b", "", NOW, u64::MAX);
    bad.repost_count = 1;
    let feed = vec![sky("a", "", NOW, 1), bad, sky("c", "", NOW, 3)];
    assert_eq!(
        merge_feed(&mut store, "u1", &feed, ts(NOW), 2, 0),
        Err(MergeError { index: 1, fault: MergeFault::EngagementOverflow })
    );
    // The posts before it are merged, the ones after it are not.
    let m = store.get(&"u1".to_string()).unwrap();
    assert!(m.contains_key(&"a".to_string()));
    assert!(!m.contains_key(&"b".to_string()));
    assert!(!m.contains_key(&"c".to_string()));
}

#[test]
fn unknown_creation_time_is_reported() {
    let post = |ts_secs: u64| tumblr::Post {
        note_count: 3,
        post_url: "https://t/1".to_string(),
        tags: vec!["x".to_string()],
        timestamp: ts_secs,
    };
    let mut store: Store = StrMap::new();
    assert_eq!(
        merge_feed(&mut store, "u1", &vec![post(1_600_000_000), post(1_000_000_000_000_000)], ts(NOW), 2, 0),
        Err(MergeError { index: 1, fault: MergeFault::UnknownCreationTime })
    );
    assert_eq!(user_posts(&store, "u1"), vec![("https://t/1".to_string(), vec!["x".to_string()], 1_600_000_000, vec![(3, NOW)])]);
    // A tracked post whose creation time is out of range is refused as well.
    assert_eq!(
        merge_feed(&mut store, "u1", &vec![post(i64::MAX as u64)], ts(NOW + 1), 2, 0),
        Err(MergeError { index: 0, fault: MergeFault::UnknownCreationTime })
    );
}

#[test]
fn stable_sort_by_time() {
    let e = |v: u64, t: i64| TimedEngagement { engagement: v, time: ts(t) };
    let sorted = sorted_by_time(vec![e(1, 30), e(2, 10), e(3, 30), e(4, 20), e(5, 10)]);
    let got: Vec<(u64, i64)> = sorted.iter().map(|x| (x.engagement, x.time.secs())).collect();
    assert_eq!(got, vec![(2, 10), (5, 10), (4, 20), (1, 30), (3, 30)]);
    assert!(sorted_by_time(vec![]).is_empty());
}

#[test]
fn strmap_reads_back_what_was_written() {
    let mut m: StrMap<u64> = StrMap::new();
    assert_eq!(m.len(), 0);
    m.insert("k".to_string(), 1);
    m.insert("j".to_string(), 2);
    m.insert("k".to_string(), 3);
    assert_eq!(m.len(), 2);
    assert_eq!(m.get(&"k".to_string()), Some(&3));
    assert_eq!(m.get(&"j".to_string()), Some(&2));
    assert_eq!(m.get(&"z".to_string()), None);
    assert_eq!(m.remove(&"j".to_string()), Some(2));
    assert_eq!(m.remove(&"j".to_string()), None);
    assert!(!m.contains_key(&"j".to_string()));
    assert_eq!(m.into_entries(), vec![("k".to_string(), 3)]);
}

#[test]
fn media_ids_in_order() {
    let resp = MediaResponse {
        media: MediaList {
            data: vec![MediaId { id: "1".to_string() }, MediaId { id: "2".to_string() }],
        },
    };
    assert_eq!(resp.ids(), vec!["1".to_string(), "2".to_string()]);
}

#[test]
fn filter_seen_keeps_unseen_and_young_media() {
    let mut seen: StrMap<Timestamp> = StrMap::new();
    seen.insert("old".to_string(), ts(NOW - 3 * DAY));
    seen.insert("young".to_string(), ts(NOW - 2 * DAY - 10));
    seen.insert("future".to_string(), ts(NOW + 3 * DAY));
    let cache = Cache { seen };
    let media = vec![
        "new".to_string(),
        "old".to_string(),
        "young".to_string(),
        "future".to_string(),
        "new2".to_string(),
    ];
    assert_eq!(
        instagram::filter_seen(media, &cache, ts(NOW), 2),
        vec!["new".to_string(), "young".to_string(), "future".to_string(), "new2".to_string()]
    );
}

#[test]
fn update_cache_records_each_post() {
    let post = |id: &str, t: i64| instagram::Post {
        like_count: 0,
        comments_count: 0,
        timestamp: ts(t),
        permalink: String::new(),
        id: id.to_string(),
        caption: String::new(),
    };
    let mut seen: StrMap<Timestamp> = StrMap::new();
    seen.insert("kept".to_string(), ts(5));
    let mut cache = Cache { seen };
    instagram::update_cache(&mut cache, &vec![post("a", 10), post("b", 20), post("a", 30)]);
    assert_eq!(cache.seen.len(), 3);
    assert_eq!(cache.seen.get(&"a".to_string()).unwrap().secs(), 30);
    assert_eq!(cache.seen.get(&"b".to_string()).unwrap().secs(), 20);
    assert_eq!(cache.seen.get(&"kept".to_string()).unwrap().secs(), 5);
}
