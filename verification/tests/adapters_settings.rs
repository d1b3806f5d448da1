use trendr::adapters::{
    build_users_map, parse_count, post_raw_item, tweet_raw_item, video_raw_item, TweetMetrics,
    UserProfile, VideoStats,
};
use trendr::ingest::PublishedAt;
use trendr::settings::{validate_run_config, AppSettings};
use trendr::store::{ContentKind, Platform};

fn profile(id: &str, username: &str, display: &str, followers: Option<i64>) -> UserProfile {
    UserProfile {
        user_id: id.to_string(),
        username: username.to_string(),
        display_name: display.to_string(),
        follower_count: followers,
    }
}

#[test]
fn parse_count_accepts_exact_decimal_counts() {
    assert_eq!(parse_count(b"0"), Some(0));
    assert_eq!(parse_count(b"123"), Some(123));
    assert_eq!(parse_count(b"9223372036854775807"), Some(i64::MAX));
}

#[test]
fn parse_count_rejects_empty_signed_or_overflowing_input() {
    assert_eq!(parse_count(b""), None);
    assert_eq!(parse_count(b"12a"), None);
    assert_eq!(parse_count(b"-5"), None);
    assert_eq!(parse_count(b" 7"), None);
    assert_eq!(parse_count(b"9223372036854775808"), None);
}

#[test]
fn users_map_lookup_finds_profiles_and_later_entries_win() {
    let users = vec![
        profile("u1", "ann", "Ann", Some(5)),
        profile("u2", "ben", "Ben", None),
        profile("u1", "ann2", "Ann Again", Some(9)),
    ];
    let map = build_users_map(users);
    let hit = map.get(&"u1".to_string()).unwrap();
    assert_eq!(hit.username, "ann2");
    assert_eq!(hit.follower_count, Some(9));
    assert!(map.get(&"u2".to_string()).is_some());
    assert!(map.get(&"nobody".to_string()).is_none());
}

#[test]
fn forum_post_adapter_maps_fields() {
    let item = post_raw_item(
        "abc".to_string(),
        "alice".to_string(),
        b"Title".to_vec(),
        b"Body".to_vec(),
        42,
        7,
        1431648000,
    );
    assert_eq!(item.platform, Platform::Reddit);
    assert_eq!(item.platform_id, "abc");
    assert_eq!(item.author.platform_author_id, "alice");
    assert_eq!(item.author.username, Some("alice".to_string()));
    assert_eq!(item.content_type, ContentKind::Post);
    assert_eq!(item.likes, 42);
    assert_eq!(item.comments, 7);
    assert_eq!(item.shares, 0);
    assert_eq!(item.views, None);
    assert!(matches!(item.published, PublishedAt::EpochSeconds(1431648000)));
}

#[test]
fn short_post_adapter_uses_profile_and_metrics_when_present() {
    let author = profile("u1", "ann", "Ann", Some(1000));
    let item = tweet_raw_item(
        "t1".to_string(),
        b"crypto!".to_vec(),
        "u1".to_string(),
        Some("2024-04-01T00:00:00Z".to_string()),
        Some(TweetMetrics {
            like_count: 3,
            reply_count: 1,
            retweet_count: 2,
            impression_count: Some(99),
        }),
        Some(&author),
    );
    assert_eq!(item.platform, Platform::X);
    assert_eq!(item.author.username, Some("ann".to_string()));
    assert_eq!(item.author.display_name, Some("Ann".to_string()));
    assert_eq!(item.author.follower_count, Some(1000));
    assert_eq!(item.likes, 3);
    assert_eq!(item.comments, 1);
    assert_eq!(item.shares, 2);
    assert_eq!(item.views, Some(99));
    assert!(matches!(item.published, PublishedAt::Iso(_)));
}

#[test]
fn short_post_adapter_defaults_without_profile_or_metrics() {
    let item = tweet_raw_item(
        "t2".to_string(),
        b"hello".to_vec(),
        "u9".to_string(),
        None,
        None,
        None,
    );
    assert_eq!(item.author.platform_author_id, "u9");
    assert_eq!(item.author.username, None);
    assert_eq!(item.author.follower_count, None);
    assert_eq!(item.likes, 0);
    assert_eq!(item.comments, 0);
    assert_eq!(item.shares, 0);
    assert_eq!(item.views, None);
    assert!(matches!(item.published, PublishedAt::Absent));
}

#[test]
fn video_adapter_parses_statistics_strings() {
    let item = video_raw_item(
        "v1".to_string(),
        "chan1".to_string(),
        "My Channel".to_string(),
        b"Video Title".to_vec(),
        Some(b"A description".to_vec()),
        "2024-04-02T12:00:00Z".to_string(),
        Some(VideoStats {
            view_count: Some(b"1000".to_vec()),
            like_count: Some(b"55".to_vec()),
            comment_count: None,
        }),
    );
    assert_eq!(item.platform, Platform::YouTube);
    assert_eq!(item.content_type, ContentKind::Video);
    assert_eq!(item.author.platform_author_id, "chan1");
    assert_eq!(item.author.display_name, Some("My Channel".to_string()));
    assert_eq!(item.views, Some(1000));
    assert_eq!(item.likes, 55);
    assert_eq!(item.comments, 0);
    assert_eq!(item.secondary_text, b"A description".to_vec());
}

#[test]
fn video_adapter_distinguishes_unreported_views_from_zero() {
    let item = video_raw_item(
        "v2".to_string(),
        "chan1".to_string(),
        "My Channel".to_string(),
        b"Title".to_vec(),
        None,
        "2024-04-02T12:00:00Z".to_string(),
        Some(VideoStats {
            view_count: None,
            like_count: Some(b"bad".to_vec()),
            comment_count: Some(b"0".to_vec()),
        }),
    );
    assert_eq!(item.views, None, "unreported views stay absent");
    assert_eq!(item.likes, 0, "unparsable likes default to zero");
    assert_eq!(item.comments, 0);
    assert_eq!(item.secondary_text.len(), 0);
}

#[test]
fn default_settings_seed_five_subreddits_and_no_credentials() {
    let s = AppSettings::default_settings();
    assert!(s.reddit.is_none());
    assert!(s.x.is_none());
    assert!(s.youtube.is_none());
    assert_eq!(s.collection_interval_minutes, 30);
    assert_eq!(
        s.subreddits,
        vec![
            "cryptocurrency".to_string(),
            "wallstreetbets".to_string(),
            "stocks".to_string(),
            "sidehustle".to_string(),
            "entrepreneur".to_string(),
        ]
    );
    assert!(s.search_queries.is_empty());
}

#[test]
fn run_config_requires_credentials_and_targets() {
    let targets = vec!["cryptocurrency".to_string()];
    let empty: Vec<String> = vec![];
    assert!(validate_run_config(true, &targets).is_ok());
    assert!(validate_run_config(false, &targets).is_err());
    assert!(validate_run_config(true, &empty).is_err());
}
