use trendr::adapters::{video_raw_item, VideoStats};
use trendr::catalog::{default_topic_seeds, seed_topics, slugify};
use trendr::errors::CollectError;
use trendr::ingest::{ingest_item, AuthorInfo, PublishedAt, RawItem};
use trendr::run::{ingest_batch, run_collection, FetchOutcome, RunCoordinator};
use trendr::store::{ContentKind, Platform, Store};

fn now1() -> String {
    "2024-05-01T10:00:00Z".to_string()
}

fn now2() -> String {
    "2024-05-01T11:00:00Z".to_string()
}

fn crypto_finance_store() -> Store {
    let mut store = Store::new();
    let mut seeds = default_topic_seeds();
    // keep only Cryptocurrency and Personal Finance for focused scenarios
    seeds.retain(|s| s.name == "Cryptocurrency" || s.name == "Personal Finance");
    assert_eq!(seeds.len(), 2);
    seed_topics(&mut store, seeds, &now1());
    store
}

fn post(platform_id: &str, author: &str, title: &str, body: &str) -> RawItem {
    RawItem {
        platform: Platform::Reddit,
        platform_id: platform_id.to_string(),
        author: AuthorInfo {
            platform_author_id: author.to_string(),
            username: Some(author.to_string()),
            display_name: None,
            follower_count: None,
        },
        content_type: ContentKind::Post,
        primary_text: title.as_bytes().to_vec(),
        secondary_text: body.as_bytes().to_vec(),
        likes: 10,
        comments: 2,
        shares: 0,
        views: None,
        published: PublishedAt::Absent,
    }
}

#[test]
fn seeding_creates_ten_topics_once() {
    let mut store = Store::new();
    seed_topics(&mut store, default_topic_seeds(), &now1());
    assert_eq!(store.topics.len(), 10);
    assert_eq!(store.topics[0].name, "Cryptocurrency");
    assert_eq!(store.topics[0].id, 0);
    assert_eq!(store.topics[9].id, 9);
    // seeding again is a no-op
    seed_topics(&mut store, default_topic_seeds(), &now2());
    assert_eq!(store.topics.len(), 10);
    assert_eq!(store.topics[0].created_at, now1());
}

#[test]
fn slugify_matches_seeded_names() {
    assert_eq!(slugify(b"Stocks & Investing"), b"stocks-investing".to_vec());
    assert_eq!(slugify(b"Real Estate"), b"real-estate".to_vec());
    assert_eq!(slugify(b"Cryptocurrency"), b"cryptocurrency".to_vec());
    assert_eq!(slugify(b"--Odd  Name--"), b"odd-name".to_vec());
    assert_eq!(slugify(b"***"), b"".to_vec());
    let mut store = Store::new();
    seed_topics(&mut store, default_topic_seeds(), &now1());
    assert_eq!(store.topics[1].slug, b"stocks-investing".to_vec());
}

#[test]
fn single_topic_post_creates_content_link_and_no_cooccurrence() {
    // one raw post, a catalog with Cryptocurrency {bitcoin, crypto}:
    // one content row, one link at confidence 0.4 (40 hundredths), no pairs
    let mut store = crypto_finance_store();
    let outcome = ingest_item(
        &mut store,
        post("p1", "alice", "Bitcoin to the moon! #crypto", ""),
        &now1(),
    );
    assert!(outcome.new_item);
    assert_eq!(outcome.topics_linked, 1);
    assert_eq!(store.content.len(), 1);
    assert_eq!(store.content[0].platform_id, "p1");
    assert_eq!(
        store.content[0].text_content,
        b"Bitcoin to the moon! #crypto".to_vec()
    );
    assert_eq!(store.content_topics.len(), 1);
    assert_eq!(store.content_topics[0].confidence, 40);
    assert_eq!(store.cooccurrences.len(), 0);
    assert_eq!(store.creators.len(), 1);
    assert_eq!(store.creators[0].username, "alice");
}

#[test]
fn reingesting_a_seen_item_is_a_complete_noop() {
    let mut store = crypto_finance_store();
    let first = ingest_item(&mut store, post("p1", "alice", "bitcoin", ""), &now1());
    assert!(first.new_item);
    let rows_before = store.content.len();
    let links_before = store.content_topics.len();
    let again = ingest_item(
        &mut store,
        post("p1", "bob", "totally different budget text", ""),
        &now2(),
    );
    assert!(!again.new_item);
    assert_eq!(again.topics_linked, 0);
    assert_eq!(store.content.len(), rows_before);
    assert_eq!(store.content_topics.len(), links_before);
    assert_eq!(store.creators.len(), 1); // no creator row for bob either
}

#[test]
fn dual_topic_posts_count_one_cooccurrence_then_increment_it() {
    let mut store = crypto_finance_store();
    let text = "my crypto budget plan";
    ingest_item(&mut store, post("p1", "alice", text, ""), &now1());
    assert_eq!(store.content_topics.len(), 2);
    assert_eq!(store.cooccurrences.len(), 1);
    assert!(store.cooccurrences[0].topic_a_id < store.cooccurrences[0].topic_b_id);
    assert_eq!(store.cooccurrences[0].frequency, 1);
    assert_eq!(store.cooccurrences[0].last_seen, now1());

    ingest_item(&mut store, post("p2", "bob", text, ""), &now2());
    assert_eq!(store.cooccurrences.len(), 1, "no duplicate row");
    assert_eq!(store.cooccurrences[0].frequency, 2);
    assert_eq!(store.cooccurrences[0].last_seen, now2());
}

#[test]
fn cooccurrence_key_is_canonical_regardless_of_order() {
    let mut store = Store::new();
    store.record_pair(7, 3, &now1());
    assert_eq!(store.cooccurrences.len(), 1);
    assert_eq!(store.cooccurrences[0].topic_a_id, 3);
    assert_eq!(store.cooccurrences[0].topic_b_id, 7);
    store.record_pair(3, 7, &now2());
    assert_eq!(store.cooccurrences.len(), 1);
    assert_eq!(store.cooccurrences[0].frequency, 2);
}

#[test]
fn replaying_extraction_replaces_topic_links() {
    let mut store = crypto_finance_store();
    store.record_pair(0, 1, &now1());
    ingest_item(&mut store, post("p1", "alice", "bitcoin and a budget", ""), &now1());
    // same (content, topic) key written again replaces, never duplicates
    store.set_content_topic(0, 0, 80);
    assert_eq!(store.content_topics.len(), 2);
    let link = store
        .content_topics
        .iter()
        .find(|l| l.content_id == 0 && l.topic_id == 0)
        .unwrap();
    assert_eq!(link.confidence, 80);
}

#[test]
fn creator_profile_refresh_updates_followers_and_display_name() {
    let mut store = Store::new();
    let mut item = post("p1", "chan", "hello", "");
    item.platform = Platform::X;
    item.author.follower_count = Some(100);
    item.author.display_name = Some("Chan".to_string());
    ingest_item(&mut store, item, &now1());
    assert_eq!(store.creators.len(), 1);
    assert_eq!(store.creators[0].follower_count, Some(100));

    let mut item2 = post("p2", "chan", "hello again", "");
    item2.platform = Platform::X;
    item2.author.follower_count = Some(250);
    item2.author.display_name = Some("Chan Prime".to_string());
    ingest_item(&mut store, item2, &now2());
    assert_eq!(store.creators.len(), 1, "upsert, not a second row");
    assert_eq!(store.creators[0].follower_count, Some(250));
    assert_eq!(store.creators[0].display_name, Some("Chan Prime".to_string()));
    assert_eq!(store.creators[0].updated_at, now2());
    assert_eq!(store.creators[0].created_at, now1());
}

#[test]
fn epoch_seconds_are_rendered_as_iso_utc() {
    let mut store = Store::new();
    let mut item = post("p1", "alice", "hello", "");
    item.published = PublishedAt::EpochSeconds(1431648000);
    ingest_item(&mut store, item, &now1());
    assert_eq!(
        store.content[0].published_at,
        Some("2015-05-15T00:00:00Z".to_string())
    );
}

#[test]
fn guard_contention_fails_fast_and_preserves_run_metadata() {
    let mut coord = RunCoordinator::new();
    let mut store = crypto_finance_store();
    let batches = vec![FetchOutcome::Fetched(vec![post("p1", "a", "bitcoin", "")])];
    let ok = run_collection(&mut coord, &mut store, true, batches, &now1());
    assert!(ok.is_ok());
    let stamp = coord.status().last_run_at.clone();
    assert_eq!(stamp, Some(now1()));

    coord.is_running = true; // another run holds the guard
    let busy = run_collection(
        &mut coord,
        &mut store,
        true,
        vec![FetchOutcome::Fetched(vec![post("p9", "a", "bitcoin", "")])],
        &now2(),
    );
    assert_eq!(busy.unwrap_err(), CollectError::AlreadyRunning);
    let status = coord.status();
    assert!(status.is_running);
    assert_eq!(status.last_run_at, stamp, "lastRunAt not reset");
    assert_eq!(status.last_error, None, "lastError not reset");
    assert_eq!(store.content.len(), 1, "no work performed");
}

#[test]
fn configuration_errors_fail_before_the_guard() {
    let mut coord = RunCoordinator::new();
    let mut store = Store::new();
    let no_creds = run_collection(&mut coord, &mut store, false, vec![], &now1());
    assert_eq!(no_creds.unwrap_err(), CollectError::Configuration);
    let no_targets = run_collection(&mut coord, &mut store, true, vec![], &now1());
    assert_eq!(no_targets.unwrap_err(), CollectError::Configuration);
    let status = coord.status();
    assert!(!status.is_running);
    assert_eq!(status.last_run_at, None, "guard was never touched");
}

#[test]
fn run_skips_failed_targets_and_does_not_count_duplicates() {
    let mut coord = RunCoordinator::new();
    let mut store = crypto_finance_store();
    let batches = vec![
        FetchOutcome::Fetched(vec![
            post("p1", "a", "bitcoin", ""),
            post("p2", "b", "crypto budget", ""),
        ]),
        FetchOutcome::FetchFailed("server unreachable".to_string()),
        FetchOutcome::Fetched(vec![
            post("p1", "a", "bitcoin", ""), // duplicate of the first target's item
            post("p3", "c", "no topics here", ""),
        ]),
    ];
    let result = run_collection(&mut coord, &mut store, true, batches, &now1()).unwrap();
    assert_eq!(result.posts_collected, 3, "duplicate not counted");
    assert_eq!(result.topics_extracted, 3);
    assert_eq!(store.content.len(), 3);
    let status = coord.status();
    assert!(!status.is_running);
    assert_eq!(status.last_error, None);
}

#[test]
fn ingest_batch_reports_table_growth() {
    let mut store = crypto_finance_store();
    let items = vec![
        post("p1", "a", "bitcoin", ""),
        post("p1", "a", "bitcoin", ""),
        post("p2", "b", "budget", ""),
    ];
    let r = ingest_batch(&mut store, items, &now1());
    assert_eq!(r.posts_collected, 2);
    assert_eq!(r.topics_extracted, 2);
}

#[test]
fn three_matched_topics_make_three_canonical_pairs() {
    let mut store = Store::new();
    let mut seeds = default_topic_seeds();
    seeds.retain(|s| {
        s.name == "Cryptocurrency" || s.name == "Personal Finance" || s.name == "Gaming"
    });
    assert_eq!(seeds.len(), 3);
    seed_topics(&mut store, seeds, &now1());
    ingest_item(
        &mut store,
        post("p1", "alice", "crypto budget esports", ""),
        &now1(),
    );
    assert_eq!(store.content_topics.len(), 3);
    assert_eq!(store.cooccurrences.len(), 3, "one row per unordered pair");
    for pair in &store.cooccurrences {
        assert!(pair.topic_a_id < pair.topic_b_id);
        assert_eq!(pair.frequency, 1);
    }
}

#[test]
fn run_against_the_wall_clock_records_a_timestamp() {
    let mut coord = RunCoordinator::new();
    let mut store = crypto_finance_store();
    let batches = vec![FetchOutcome::Fetched(vec![post("p1", "a", "bitcoin", "")])];
    let result = trendr::run::run_collection_now(&mut coord, &mut store, true, batches).unwrap();
    assert_eq!(result.posts_collected, 1);
    let status = coord.status();
    assert!(!status.is_running);
    assert!(status.last_run_at.is_some());
    assert_eq!(status.last_error, None);
}

#[test]
fn acquire_clears_last_error_and_release_records_outcome() {
    let mut coord = RunCoordinator::new();
    assert!(coord.try_acquire().is_ok());
    coord.release(now1(), Some("network down".to_string()));
    let failed = coord.status();
    assert!(!failed.is_running);
    assert_eq!(failed.last_error, Some("network down".to_string()));

    assert!(coord.try_acquire().is_ok());
    let running = coord.status();
    assert!(running.is_running);
    assert_eq!(running.last_error, None, "acquisition clears the error");
    assert_eq!(running.last_run_at, Some(now1()), "timestamp kept until release");
    coord.release(now2(), None);
    assert_eq!(coord.status().last_run_at, Some(now2()));
}

#[test]
fn video_ingestion_keeps_view_counts_and_video_kind() {
    let mut store = crypto_finance_store();
    let item = video_raw_item(
        "v1".to_string(),
        "chan1".to_string(),
        "Money Channel".to_string(),
        b"Bitcoin explained".to_vec(),
        Some(b"all about crypto".to_vec()),
        "2024-04-02T12:00:00Z".to_string(),
        Some(VideoStats {
            view_count: Some(b"12345".to_vec()),
            like_count: Some(b"10".to_vec()),
            comment_count: None,
        }),
    );
    let outcome = ingest_item(&mut store, item, &now1());
    assert!(outcome.new_item);
    assert_eq!(outcome.topics_linked, 1);
    let row = &store.content[0];
    assert_eq!(row.platform, Platform::YouTube);
    assert_eq!(row.content_type, ContentKind::Video);
    assert_eq!(row.engagement_views, Some(12345));
    assert_eq!(row.engagement_likes, 10);
    assert_eq!(
        row.text_content,
        b"Bitcoin explained\n\nall about crypto".to_vec()
    );
    assert_eq!(row.published_at, Some("2024-04-02T12:00:00Z".to_string()));
    assert_eq!(store.creators[0].display_name, Some("Money Channel".to_string()));
}

#[test]
fn error_messages_name_each_failure() {
    assert_eq!(
        CollectError::AlreadyRunning.message(),
        "collection already in progress"
    );
    assert_eq!(
        CollectError::Configuration.message(),
        "collection is not configured"
    );
    assert_eq!(
        CollectError::Persistence.message(),
        "store uniqueness violation"
    );
}
