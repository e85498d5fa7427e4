use chrono::{DateTime, Utc};
use smetrics_rs::text::{first_line, hashtags, is_whitespace};
use smetrics_rs::time::{i64_as_u64, u64_as_i64, MAX_UTC_SECS, MIN_UTC_SECS};
use smetrics_rs::Timestamp;

fn split_hashtags(s: &str) -> Vec<&str> {
    s.split_whitespace().filter(|x| x.starts_with('#')).collect()
}

#[test]
fn hashtags_of_plain_text() {
    assert_eq!(hashtags("Hello #world and #rust!"), vec!["#world", "#rust!"]);
}

#[test]
fn hashtags_of_empty_and_blank_text() {
    assert!(hashtags("").is_empty());
    assert!(hashtags("   \t\n ").is_empty());
}

#[test]
fn hashtags_keep_a_lone_hash_and_inner_hashes() {
    assert_eq!(hashtags("# a#b #c#d"), vec!["#", "#c#d"]);
}

#[test]
fn hashtags_split_at_unicode_whitespace() {
    let text = "\u{3000}#a\u{00A0}#b\u{2003}x #c\u{85}#d\u{202F}";
    assert_eq!(hashtags(text), vec!["#a", "#b", "#c", "#d"]);
    assert_eq!(hashtags(text), split_hashtags(text));
}

#[test]
fn hashtags_agree_with_split_whitespace() {
    let samples = [
        "#one two #three",
        "  #lead and trail#  ",
        "no tags here",
        "#é #日本 語 #🎉party",
        "line\n#next\r\n#crlf\tx",
        "##double #",
        "\u{1680}#ogham\u{205F}#math\u{2028}#ls\u{2029}#ps",
    ];
    for s in samples.iter() {
        assert_eq!(hashtags(s), split_hashtags(s), "text {:?}", s);
    }
}

#[test]
fn whitespace_agrees_with_std_on_every_char() {
    for u in 0u32..=0x10FFFF {
        if let Some(c) = char::from_u32(u) {
            assert_eq!(is_whitespace(c), c.is_whitespace(), "char U+{:04X}", u);
        }
    }
}

#[test]
fn first_line_stops_at_newline() {
    assert_eq!(first_line("Title\nbody\nmore"), "Title");
    assert_eq!(first_line("single line"), "single line");
    assert_eq!(first_line("\nstarts empty"), "");
    assert_eq!(first_line(""), "");
    let s = "a\r\nb";
    assert_eq!(first_line(s), s.split("\n").next().unwrap());
}

#[test]
fn timestamp_from_parts_accepts_chrono_instants() {
    let t = Timestamp::from_parts(1_700_000_000, 123).unwrap();
    assert_eq!(t.secs(), 1_700_000_000);
    assert_eq!(t.nanos(), 123);
    // A leap second is accepted only at the last second of a minute.
    assert!(Timestamp::from_parts(59, 1_500_000_000).is_some());
    assert!(Timestamp::from_parts(58, 1_500_000_000).is_none());
    assert!(Timestamp::from_parts(0, 2_000_000_000).is_none());
    assert!(Timestamp::from_parts(i64::MAX, 0).is_none());
    assert!(Timestamp::from_parts(i64::MIN, 0).is_none());
}

#[test]
fn timestamp_order() {
    let a = Timestamp::from_parts(10, 5).unwrap();
    let b = Timestamp::from_parts(10, 6).unwrap();
    let c = Timestamp::from_parts(11, 0).unwrap();
    assert!(b.is_after(&a));
    assert!(c.is_after(&b));
    assert!(!a.is_after(&a));
    assert!(!a.is_after(&c));
}

fn chrono(t: &Timestamp) -> DateTime<Utc> {
    DateTime::<Utc>::from_timestamp(t.secs(), t.nanos()).unwrap()
}

#[test]
fn days_since_rounds_toward_zero() {
    let day: i64 = 86_400;
    let start = Timestamp::from_parts(1_000_000, 0).unwrap();
    let later = Timestamp::from_parts(1_000_000 + 3 * day, 1).unwrap();
    assert_eq!(later.days_since(&start), 3);
    let almost = Timestamp::from_parts(1_000_000 + 3 * day - 1, 999_999_999).unwrap();
    assert_eq!(almost.days_since(&start), 2);
    let before = Timestamp::from_parts(1_000_000 - 2 * day - day / 2, 0).unwrap();
    assert_eq!(before.days_since(&start), -2);
    assert_eq!(before.days_since(&start), (chrono(&before) - chrono(&start)).num_days());
}

#[test]
fn millis_since_rounds_toward_zero() {
    let a = Timestamp::from_parts(100, 1_900_000).unwrap();
    let b = Timestamp::from_parts(100, 100_000).unwrap();
    assert_eq!(a.millis_since(&b), 1);
    assert_eq!(b.millis_since(&a), -1);
    let c = Timestamp::from_parts(98, 999_999_999).unwrap();
    assert_eq!(a.millis_since(&c), 1001);
    assert_eq!(c.millis_since(&a), -1001);
    assert_eq!(c.millis_since(&a), (chrono(&c) - chrono(&a)).num_milliseconds());
}

#[test]
fn differences_around_a_leap_second_follow_chrono() {
    let leap = Timestamp::from_parts(86_399, 1_500_000_000).unwrap();
    let next = Timestamp::from_parts(86_400, 0).unwrap();
    assert_eq!(next.millis_since(&leap), (chrono(&next) - chrono(&leap)).num_milliseconds());
    assert_eq!(leap.millis_since(&next), (chrono(&leap) - chrono(&next)).num_milliseconds());
    assert_eq!(next.days_since(&leap), (chrono(&next) - chrono(&leap)).num_days());
}

#[test]
fn integer_casts_wrap_like_as() {
    for x in [0i64, 1, -1, i64::MAX, i64::MIN, -12345] {
        assert_eq!(i64_as_u64(x), x as u64);
    }
    for x in [0u64, 1, u64::MAX, i64::MAX as u64, i64::MAX as u64 + 1, 1 << 63 | 5] {
        assert_eq!(u64_as_i64(x), x as i64);
    }
}

#[test]
fn timestamp_order_matches_chrono() {
    let parts = [
        (59i64, 0u32),
        (59, 999_999_999),
        (59, 1_500_000_000),
        (60, 0),
        (-1, 5),
        (0, 0),
        (1_700_000_000, 42),
    ];
    for &(sa, na) in parts.iter() {
        for &(sb, nb) in parts.iter() {
            let a = Timestamp::from_parts(sa, na).unwrap();
            let b = Timestamp::from_parts(sb, nb).unwrap();
            assert_eq!(a.is_after(&b), chrono(&a) > chrono(&b), "{:?} vs {:?}", (sa, na), (sb, nb));
        }
    }
}

#[test]
fn chrono_range_bounds() {
    assert_eq!(MIN_UTC_SECS, DateTime::<Utc>::MIN_UTC.timestamp());
    assert_eq!(MAX_UTC_SECS, DateTime::<Utc>::MAX_UTC.timestamp());
    assert!(Timestamp::from_parts(MIN_UTC_SECS, 0).is_some());
    assert!(Timestamp::from_parts(MIN_UTC_SECS - 1, 999_999_999).is_none());
    assert!(Timestamp::from_parts(MAX_UTC_SECS, 999_999_999).is_some());
    assert!(Timestamp::from_parts(MAX_UTC_SECS + 1, 0).is_none());
    assert!(Timestamp::from_parts(1_704_067_200, 0).is_some());
    assert!(Timestamp::from_parts(1_000_000_000_000_000, 0).is_none());
    let probes = [
        (59i64, 1_000_000_000u32),
        (-1, 1_999_999_999),
        (-2, 1_000_000_000),
        (119, 1_999_999_999),
        (MIN_UTC_SECS - 1, 0),
        (MIN_UTC_SECS, 0),
        (MIN_UTC_SECS - 86_400, 0),
        (MAX_UTC_SECS, 1_500_000_000),
        (MAX_UTC_SECS + 1, 0),
        (MAX_UTC_SECS + 86_400, 0),
    ];
    for &(s, n) in probes.iter() {
        assert_eq!(
            Timestamp::from_parts(s, n).is_some(),
            DateTime::<Utc>::from_timestamp(s, n).is_some(),
            "{:?}",
            (s, n)
        );
    }
}

#[test]
fn leap_second_differences_match_the_stated_arithmetic() {
    // (a - b) with b inside a leap second and a later in its day counts one more second.
    let pairs = [
        ((86_399i64, 1_500_000_000u32), (86_400i64, 0u32)),
        ((86_400, 0), (86_399, 1_500_000_000)),
        ((59, 1_250_000_000), (3_600, 7)),
        ((3_600, 7), (59, 1_250_000_000)),
        ((59, 1_250_000_000), (59, 1_750_000_000)),
        ((-1, 1_000_000_001), (-86_401, 5)),
    ];
    for &((sa, na), (sb, nb)) in pairs.iter() {
        let a = Timestamp::from_parts(sa, na).unwrap();
        let b = Timestamp::from_parts(sb, nb).unwrap();
        let d = chrono(&a) - chrono(&b);
        assert_eq!(a.millis_since(&b), d.num_milliseconds(), "{:?}", ((sa, na), (sb, nb)));
        assert_eq!(a.days_since(&b), d.num_days());
        let of_day = |s: i64| s.rem_euclid(86_400);
        let leap: i64 = if of_day(sa) > of_day(sb) && nb >= 1_000_000_000 {
            1
        } else if of_day(sa) < of_day(sb) && na >= 1_000_000_000 {
            -1
        } else {
            0
        };
        let nanos = (sa - sb + leap) as i128 * 1_000_000_000 + (na as i128 - nb as i128);
        assert_eq!(d.num_nanoseconds().unwrap() as i128, nanos, "{:?}", ((sa, na), (sb, nb)));
    }
}
