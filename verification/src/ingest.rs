//! Ingestion: turn one normalized raw platform item into durable creator,
//! content, topic-link and co-occurrence state, exactly once per
//! (platform, platform-native id).

use vstd::prelude::*;
use crate::clock::{epoch_in_range, format_epoch_iso, iso_utc_of};
use crate::extract::{
    distinct_catalog_ids, distinct_topic_ids, extract_topics, ranked_matches, top_five,
    ExtractedTopic,
};
use crate::store::{
    bump1, creator_key_at, has_content_key, has_creator_key, has_link_key, has_pair, link_key_at,
    pair_freq, pair_key_at, Content, ContentKind, ContentTopic, Creator, NewContent, Platform,
    Store, Topic,
};
use crate::text::{lower_bytes, normalize_spec, normalize_text};

verus! {

/// The publish timestamp as a platform reported it.
pub enum PublishedAt {
    /// The platform did not report one.
    Absent,
    /// Unix seconds (the forum platform).
    EpochSeconds(i64),
    /// Already ISO-8601 text (the short-post and video platforms).
    Iso(String),
}

/// The authoring account attached to a raw item.
pub struct AuthorInfo {
    /// Platform-native author or channel id; the creator dedup key.
    pub platform_author_id: String,
    /// Account name; the author id stands in when absent.
    pub username: Option<String>,
    pub display_name: Option<String>,
    /// Present only when the platform sent fresh profile metrics; its
    /// presence triggers the creator profile refresh on re-sighting.
    pub follower_count: Option<i64>,
}

/// One platform item normalized to the unified shape the pipeline ingests.
pub struct RawItem {
    pub platform: Platform,
    /// Platform-native content id; the content dedup key.
    pub platform_id: String,
    pub author: AuthorInfo,
    pub content_type: ContentKind,
    /// Title (or whole text) bytes.
    pub primary_text: Vec<u8>,
    /// Body or description bytes; empty when the platform has none.
    pub secondary_text: Vec<u8>,
    pub likes: i64,
    pub comments: i64,
    pub shares: i64,
    /// View-style metric; `None` distinguishes "not reported" from zero.
    pub views: Option<i64>,
    pub published: PublishedAt,
}

/// What one ingestion did.
pub struct IngestOutcome {
    /// True when a content row was inserted; false for an already-seen
    /// item, which is a no-op.
    pub new_item: bool,
    /// How many topic links were written (0 for a duplicate).
    pub topics_linked: u32,
}

/// The normalized text body of an item.
pub open spec fn normalized_text(item: RawItem) -> Seq<u8> {
    normalize_spec(item.primary_text@, item.secondary_text@)
}

/// The ranked, capped topic entries extracted for an item against a
/// catalog.
pub open spec fn item_matches(cat: Seq<Topic>, item: RawItem) -> Seq<ExtractedTopic> {
    top_five(ranked_matches(cat, lower_bytes(normalized_text(item))))
}

/// The topic ids of the extracted entries, in rank order.
pub open spec fn matched_ids(cat: Seq<Topic>, item: RawItem) -> Seq<u64> {
    Seq::new(item_matches(cat, item).len(), |k: int| item_matches(cat, item)[k].topic_id)
}

/// The row index of the creator key in `s`, or `s.len()` for the row a
/// fresh creator would get.
pub open spec fn creator_row_index(s: Seq<Creator>, p: Platform, pid: Seq<char>) -> int {
    if has_creator_key(s, p, pid) {
        choose|i: int| creator_key_at(s, p, pid, i)
    } else {
        s.len() as int
    }
}

/// The stored publish timestamp is faithful to the reported one: absent
/// stays absent, ISO text is kept, and epoch seconds are rendered to
/// ISO-8601 UTC (in-range seconds always; out-of-range seconds may be
/// dropped).
pub open spec fn published_ok(p: Option<String>, reported: PublishedAt) -> bool {
    match reported {
        PublishedAt::Absent => p is None,
        PublishedAt::Iso(s) => p == Some(s),
        PublishedAt::EpochSeconds(n) => (epoch_in_range(n) ==> p is Some) && (match p {
            Some(t) => t@ == iso_utc_of(n),
            None => true,
        }),
    }
}

/// The username recorded for an author: the reported one, or the
/// platform-native author id when none was reported.
pub open spec fn username_of(a: AuthorInfo) -> String {
    match a.username {
        Some(u) => u,
        None => a.platform_author_id,
    }
}

/// The new content row written for an item.
pub open spec fn new_content_row_ok(row: Content, prior: Store, item: RawItem, now: String) -> bool {
    &&& row.id == prior.content@.len()
    &&& row.platform == item.platform
    &&& row.platform_id == item.platform_id
    &&& row.creator_id == creator_row_index(
        prior.creators@,
        item.platform,
        item.author.platform_author_id@,
    )
    &&& row.content_type == item.content_type
    &&& row.text_content@ == normalized_text(item)
    &&& row.engagement_likes == item.likes
    &&& row.engagement_comments == item.comments
    &&& row.engagement_shares == item.shares
    &&& row.engagement_views == item.views
    &&& published_ok(row.published_at, item.published)
    &&& row.collected_at == now
}

/// Ingest one raw item. An already-seen (platform, platform_id) pair is a
/// complete no-op that reports zero new items and zero topics. A fresh
/// item upserts its creator, inserts one content row with the normalized
/// text, links every extracted topic, and counts one co-occurrence for
/// every unordered pair of extracted topics.
#[verifier::rlimit(60)]
#[verifier::spinoff_prover]
pub fn ingest_item(store: &mut Store, item: RawItem, now: &String) -> (r: IngestOutcome)
    requires
        old(store).wf(),
    ensures
        final(store).wf(),
        has_content_key(old(store).content@, item.platform, item.platform_id@) ==> {
            &&& *final(store) == *old(store)
            &&& r.new_item == false
            &&& r.topics_linked == 0
        },
        !has_content_key(old(store).content@, item.platform, item.platform_id@) ==> {
            &&& r.new_item == true
            &&& r.topics_linked == item_matches(old(store).topics@, item).len()
        },
        !has_content_key(old(store).content@, item.platform, item.platform_id@) ==> {
            &&& final(store).topics@ == old(store).topics@
            &&& final(store).content@.len() == old(store).content@.len() + 1
            &&& final(store).content@.take(old(store).content@.len() as int) == old(
                store,
            ).content@
            &&& new_content_row_ok(final(store).content@.last(), *old(store), item, *now)
        },
        !has_content_key(old(store).content@, item.platform, item.platform_id@)
            && has_creator_key(
            old(store).creators@,
            item.platform,
            item.author.platform_author_id@,
        ) ==> {
            &&& (item.author.follower_count is None ==> final(store).creators@ == old(
                store,
            ).creators@)
            &&& (item.author.follower_count is Some ==> (exists|ci: int|
                creator_key_at(
                    old(store).creators@,
                    item.platform,
                    item.author.platform_author_id@,
                    ci,
                ) && final(store).creators@ == old(store).creators@.update(
                    ci,
                    Creator {
                        id: ci as u64,
                        platform: old(store).creators@[ci].platform,
                        platform_id: old(store).creators@[ci].platform_id,
                        username: old(store).creators@[ci].username,
                        display_name: item.author.display_name,
                        follower_count: item.author.follower_count,
                        created_at: old(store).creators@[ci].created_at,
                        updated_at: *now,
                    },
                )))
        },
        !has_content_key(old(store).content@, item.platform, item.platform_id@)
            && !has_creator_key(
            old(store).creators@,
            item.platform,
            item.author.platform_author_id@,
        ) ==> final(store).creators@ == old(store).creators@.push(
            Creator {
                id: old(store).creators@.len() as u64,
                platform: item.platform,
                platform_id: item.author.platform_author_id,
                username: username_of(item.author),
                display_name: item.author.display_name,
                follower_count: item.author.follower_count,
                created_at: *now,
                updated_at: *now,
            },
        ),
        !has_content_key(old(store).content@, item.platform, item.platform_id@) ==> {
            &&& final(store).content_topics@.len() == old(store).content_topics@.len()
                + item_matches(old(store).topics@, item).len()
            &&& final(store).content_topics@.take(old(store).content_topics@.len() as int) == old(
                store,
            ).content_topics@
            &&& (forall|k: int|
                0 <= k < item_matches(old(store).topics@, item).len()
                    ==> final(store).content_topics@[old(store).content_topics@.len() + k]
                    == (ContentTopic {
                    content_id: old(store).content@.len() as u64,
                    topic_id: item_matches(old(store).topics@, item)[k].topic_id,
                    confidence: item_matches(old(store).topics@, item)[k].confidence,
                }))
        },
        !has_content_key(old(store).content@, item.platform, item.platform_id@) ==> (forall|
            a: u64,
            b: u64,
        |
            a < b ==> pair_freq(final(store).cooccurrences@, a, b) == (if matched_ids(
                old(store).topics@,
                item,
            ).contains(a) && matched_ids(old(store).topics@, item).contains(b) {
                bump1(pair_freq(old(store).cooccurrences@, a, b))
            } else {
                pair_freq(old(store).cooccurrences@, a, b)
            })),
        !has_content_key(old(store).content@, item.platform, item.platform_id@) ==> (forall|
            a: u64,
            b: u64,
        |
            #![trigger has_pair(final(store).cooccurrences@, a, b)]
            a < b ==> (has_pair(final(store).cooccurrences@, a, b) <==> (has_pair(
                old(store).cooccurrences@,
                a,
                b,
            ) || (matched_ids(old(store).topics@, item).contains(a) && matched_ids(
                old(store).topics@,
                item,
            ).contains(b))))),
        !has_content_key(old(store).content@, item.platform, item.platform_id@) ==> (forall|
            a: u64,
            b: u64,
            k: int,
        |
            #![trigger pair_key_at(final(store).cooccurrences@, a, b, k)]
            a < b && matched_ids(old(store).topics@, item).contains(a) && matched_ids(
                old(store).topics@,
                item,
            ).contains(b) && pair_key_at(final(store).cooccurrences@, a, b, k)
                ==> final(store).cooccurrences@[k].last_seen@ == now@),
{
    if store.content_exists(item.platform, &item.platform_id) {
        return IngestOutcome { new_item: false, topics_linked: 0 };
    }
    let ghost prior = *store;
    let RawItem {
        platform,
        platform_id,
        author,
        content_type,
        primary_text,
        secondary_text,
        likes,
        comments,
        shares,
        views,
        published,
    } = item;
    let AuthorInfo { platform_author_id, username, display_name, follower_count } = author;
    let username_resolved = match username {
        Some(u) => u,
        None => platform_author_id.clone(),
    };
    let cid = store.upsert_creator(
        platform,
        &platform_author_id,
        username_resolved,
        display_name,
        follower_count,
        now,
    );
    proof {
        if has_creator_key(prior.creators@, platform, platform_author_id@) {
            let w = choose|i: int| creator_key_at(prior.creators@, platform, platform_author_id@, i);
            assert(creator_key_at(prior.creators@, platform, platform_author_id@, cid as int));
            if w != cid as int {
                assert(false);
            }
        }
        assert(cid as int == creator_row_index(prior.creators@, platform, platform_author_id@));
    }
    let text = normalize_text(primary_text.as_slice(), secondary_text.as_slice());
    let published_norm: Option<String> = match published {
        PublishedAt::Absent => None,
        PublishedAt::Iso(s) => Some(s),
        PublishedAt::EpochSeconds(n) => format_epoch_iso(n),
    };
    let topics_found = extract_topics(text.as_slice(), &store.topics);
    proof {
        assert(distinct_catalog_ids(store.topics@));
        assert(topics_found@ == item_matches(prior.topics@, item));
        assert(forall|i: int|
            0 <= i < prior.content_topics@.len() ==> (#[trigger] prior.content_topics@[i]).content_id
                < prior.content@.len());
    }
    let new_row = NewContent {
        platform,
        platform_id,
        creator_id: cid,
        content_type,
        text_content: text,
        engagement_likes: likes,
        engagement_comments: comments,
        engagement_shares: shares,
        engagement_views: views,
        published_at: published_norm,
    };
    proof {
        assert(new_row.platform == item.platform);
        assert(new_row.platform_id == item.platform_id);
        assert(store.content@ == prior.content@);
        assert(!has_content_key(store.content@, new_row.platform, new_row.platform_id@));
    }
    let content_id = match store.insert_content(new_row, now) {
        Ok(id) => id,
        Err(_) => {
            proof {
                assert(false);
            }
            0
        },
    };
    let ghost after_insert = *store;
    let ghost matches = topics_found@;
    let ghost base = store.content_topics@;
    proof {
        assert(base == prior.content_topics@);
        assert(content_id == prior.content@.len());
        assert(store.content@.take(prior.content@.len() as int) =~= prior.content@);
    }
    let mut k: usize = 0;
    while k < topics_found.len()
        invariant
            0 <= k <= matches.len(),
            topics_found@ == matches,
            matches.len() <= 5,
            store.wf(),
            distinct_topic_ids(matches),
            content_id == prior.content@.len(),
            content_id < after_insert.content@.len(),
            base == prior.content_topics@,
            forall|i: int| 0 <= i < base.len() ==> (#[trigger] base[i]).content_id < content_id,
            store.topics@ == after_insert.topics@,
            store.creators@ == after_insert.creators@,
            store.content@ == after_insert.content@,
            store.cooccurrences@ == after_insert.cooccurrences@,
            store.content_topics@.len() == base.len() + k,
            store.content_topics@.take(base.len() as int) == base,
            forall|i: int|
                0 <= i < k ==> store.content_topics@[base.len() + i] == (ContentTopic {
                    content_id: content_id,
                    topic_id: matches[i].topic_id,
                    confidence: matches[i].confidence,
                }),
        decreases matches.len() - k,
    {
        let e_topic = topics_found[k].topic_id;
        let e_conf = topics_found[k].confidence;
        proof {
            assert(!has_link_key(store.content_topics@, content_id, e_topic)) by {
                if has_link_key(store.content_topics@, content_id, e_topic) {
                    let j = choose|j: int| link_key_at(store.content_topics@, content_id, e_topic, j);
                    if j < base.len() {
                        assert(store.content_topics@[j] == base[j]);
                    } else {
                        assert(store.content_topics@[j] == (ContentTopic {
                            content_id: content_id,
                            topic_id: matches[j - base.len()].topic_id,
                            confidence: matches[j - base.len()].confidence,
                        }));
                        assert(matches[j - base.len()].topic_id != matches[k as int].topic_id);
                    }
                }
            }
        }
        let ghost before = store.content_topics@;
        store.set_content_topic(content_id, e_topic, e_conf);
        proof {
            assert(store.content_topics@ == before.push(
                ContentTopic { content_id, topic_id: e_topic, confidence: e_conf },
            ));
            assert(store.content_topics@.take(base.len() as int) =~= base);
        }
        k += 1;
    }
    let linked = topics_found.len() as u32;
    let ghost ids_spec = matched_ids(prior.topics@, item);
    if topics_found.len() > 1 {
        let mut ids: Vec<u64> = Vec::new();
        let mut q: usize = 0;
        while q < topics_found.len()
            invariant
                0 <= q <= matches.len(),
                topics_found@ == matches,
                distinct_topic_ids(matches),
                ids@.len() == q,
                forall|i: int| 0 <= i < q ==> ids@[i] == matches[i].topic_id,
            decreases matches.len() - q,
        {
            ids.push(topics_found[q].topic_id);
            q += 1;
        }
        proof {
            assert(ids@ =~= ids_spec);
            assert(crate::store::distinct_ids(ids@));
        }
        store.record_cooccurrences(&ids, now);
        proof {
            assert forall|a: u64, b: u64, k: int|
                #![trigger pair_key_at(store.cooccurrences@, a, b, k)]
                a < b && ids_spec.contains(a) && ids_spec.contains(b) && pair_key_at(
                    store.cooccurrences@,
                    a,
                    b,
                    k,
                ) implies store.cooccurrences@[k].last_seen@ == now@ by {
                assert(ids@.contains(a));
                assert(ids@.contains(b));
                assert(has_pair(store.cooccurrences@, a, b));
                assert(forall|j: int|
                    pair_key_at(store.cooccurrences@, a, b, j)
                        ==> store.cooccurrences@[j].last_seen@ == now@);
            }
        }
    } else {
        proof {
            assert forall|a: u64, b: u64|
                #![trigger ids_spec.contains(a), ids_spec.contains(b)]
                a < b implies !(ids_spec.contains(a) && ids_spec.contains(b)) by {
                if ids_spec.contains(a) && ids_spec.contains(b) {
                    let ia = choose|ia: int| 0 <= ia < ids_spec.len() && ids_spec[ia] == a;
                    let ib = choose|ib: int| 0 <= ib < ids_spec.len() && ids_spec[ib] == b;
                    assert(ia == 0 && ib == 0);
                }
            }
        }
    }
    proof {
        assert(ids_spec == matched_ids(old(store).topics@, item));
        assert forall|a: u64, b: u64, k: int|
            #![trigger pair_key_at(store.cooccurrences@, a, b, k)]
            a < b && matched_ids(old(store).topics@, item).contains(a) && matched_ids(
                old(store).topics@,
                item,
            ).contains(b) && pair_key_at(store.cooccurrences@, a, b, k) implies
            store.cooccurrences@[k].last_seen@ == now@ by {
            assert(ids_spec.contains(a) && ids_spec.contains(b));
        }
    }
    IngestOutcome { new_item: true, topics_linked: linked }
}

} // verus!
