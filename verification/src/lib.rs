//! Engagement tracking for social media posts.
//!
//! Posts fetched from a platform are merged into a per-user store: new posts
//! are recorded with their first engagement observation, and posts already in
//! the store get further observations while they are young enough and the last
//! observation is old enough.

pub mod bluesky;
pub mod engagement;
pub mod instagram;
pub mod strmap;
pub mod text;
pub mod time;
pub mod tumblr;

pub use engagement::{MergeError, MergeFault, Post, PostData, Store, TimedEngagement, merge_feed};
pub use time::Timestamp;
