//! The content store: creators, content, topics, topic links and
//! co-occurrence counters, with the uniqueness and idempotency invariants
//! that ingestion relies on.

use vstd::prelude::*;
use crate::errors::CollectError;

verus! {

/// An external content source.
#[derive(Clone, Copy, PartialEq, Eq, Structural, Debug)]
pub enum Platform {
    Reddit,
    X,
    YouTube,
}

/// The kind of a content item.
#[derive(Clone, Copy, PartialEq, Eq, Structural, Debug)]
pub enum ContentKind {
    Post,
    Video,
}

/// A taxonomy node with the keyword list used for matching.
pub struct Topic {
    /// Internal id, unique within a store.
    pub id: u64,
    /// Unique human-readable name.
    pub name: String,
    /// Unique slug derived from the name.
    pub slug: Vec<u8>,
    /// Optional parent topic (single-level hierarchy in the seed data).
    pub parent_topic_id: Option<u64>,
    /// Alias strings.
    pub aliases: Vec<String>,
    /// Keywords matched whole-word against lower-cased content text.
    pub keywords: Vec<Vec<u8>>,
    /// Creation timestamp, ISO-8601 UTC.
    pub created_at: String,
}

/// The authoring account of a content item, one row per
/// (platform, platform-native id).
pub struct Creator {
    /// Internal id, unique within a store.
    pub id: u64,
    pub platform: Platform,
    /// Platform-native id; (platform, platform_id) is unique.
    pub platform_id: String,
    pub username: String,
    pub display_name: Option<String>,
    pub follower_count: Option<i64>,
    pub created_at: String,
    pub updated_at: String,
}

/// One collected content item, one row per (platform, platform-native id);
/// rows are write-once.
pub struct Content {
    /// Internal id, unique within a store.
    pub id: u64,
    pub platform: Platform,
    /// Platform-native id; (platform, platform_id) is the dedup key.
    pub platform_id: String,
    pub creator_id: u64,
    pub content_type: ContentKind,
    /// Normalized text body (primary text, blank line, secondary text,
    /// trimmed).
    pub text_content: Vec<u8>,
    pub engagement_likes: i64,
    pub engagement_comments: i64,
    pub engagement_shares: i64,
    /// View-style metric; `None` when the platform did not report it.
    pub engagement_views: Option<i64>,
    /// Publish timestamp as reported by the platform, normalized to
    /// ISO-8601 UTC; `None` when absent or out of range.
    pub published_at: Option<String>,
    /// Set when the row is inserted.
    pub collected_at: String,
}

/// A link between a content item and a topic, keyed by
/// (content id, topic id); re-extraction replaces the row.
pub struct ContentTopic {
    pub content_id: u64,
    pub topic_id: u64,
    /// Confidence in hundredths: `min(20 * mentions, 100)`.
    pub confidence: u32,
}

/// A symmetric pair counter: how many content items matched both topics.
/// Keyed by the ordered pair (topic_a_id, topic_b_id) with
/// `topic_a_id < topic_b_id`.
pub struct Cooccurrence {
    pub topic_a_id: u64,
    pub topic_b_id: u64,
    /// Monotonically incremented; never decremented or deleted.
    pub frequency: u64,
    pub last_seen: String,
    pub created_at: String,
}

/// The fields of a content row that ingestion supplies; the store adds the
/// internal id and the collection timestamp.
pub struct NewContent {
    pub platform: Platform,
    pub platform_id: String,
    pub creator_id: u64,
    pub content_type: ContentKind,
    pub text_content: Vec<u8>,
    pub engagement_likes: i64,
    pub engagement_comments: i64,
    pub engagement_shares: i64,
    pub engagement_views: Option<i64>,
    pub published_at: Option<String>,
}

/// Row `i` of `s` carries the creator key (platform, platform-native id).
pub open spec fn creator_key_at(s: Seq<Creator>, p: Platform, pid: Seq<char>, i: int) -> bool {
    0 <= i < s.len() && s[i].platform == p && s[i].platform_id@ == pid
}

/// Some row of `s` carries the creator key.
pub open spec fn has_creator_key(s: Seq<Creator>, p: Platform, pid: Seq<char>) -> bool {
    exists|i: int| creator_key_at(s, p, pid, i)
}

/// Row `i` of `s` carries the content dedup key (platform, platform-native
/// id).
pub open spec fn content_key_at(s: Seq<Content>, p: Platform, pid: Seq<char>, i: int) -> bool {
    0 <= i < s.len() && s[i].platform == p && s[i].platform_id@ == pid
}

/// Some row of `s` carries the content dedup key.
pub open spec fn has_content_key(s: Seq<Content>, p: Platform, pid: Seq<char>) -> bool {
    exists|i: int| content_key_at(s, p, pid, i)
}

/// Row `i` of `s` links content `cid` to topic `tid`.
pub open spec fn link_key_at(s: Seq<ContentTopic>, cid: u64, tid: u64, i: int) -> bool {
    0 <= i < s.len() && s[i].content_id == cid && s[i].topic_id == tid
}

/// Some row of `s` links content `cid` to topic `tid`.
pub open spec fn has_link_key(s: Seq<ContentTopic>, cid: u64, tid: u64) -> bool {
    exists|i: int| link_key_at(s, cid, tid, i)
}

/// Row `i` of `s` counts the ordered pair (a, b).
pub open spec fn pair_key_at(s: Seq<Cooccurrence>, a: u64, b: u64, i: int) -> bool {
    0 <= i < s.len() && s[i].topic_a_id == a && s[i].topic_b_id == b
}

/// Some row of `s` counts the ordered pair (a, b).
pub open spec fn has_pair(s: Seq<Cooccurrence>, a: u64, b: u64) -> bool {
    exists|i: int| pair_key_at(s, a, b, i)
}

/// The recorded frequency of the ordered pair (a, b); 0 when no row counts
/// it.
pub open spec fn pair_freq(s: Seq<Cooccurrence>, a: u64, b: u64) -> u64
    decreases s.len(),
{
    if s.len() == 0 {
        0
    } else if s.last().topic_a_id == a && s.last().topic_b_id == b {
        s.last().frequency
    } else {
        pair_freq(s.drop_last(), a, b)
    }
}

/// A counter incremented by one, saturating at `u64::MAX`.
pub open spec fn bump1(f: u64) -> u64 {
    if f < u64::MAX {
        (f + 1) as u64
    } else {
        u64::MAX
    }
}

/// The content store. Internal ids equal row positions, so every table's
/// ids are unique by construction and rows are never reordered or deleted.
pub struct Store {
    pub topics: Vec<Topic>,
    pub creators: Vec<Creator>,
    pub content: Vec<Content>,
    pub content_topics: Vec<ContentTopic>,
    pub cooccurrences: Vec<Cooccurrence>,
}

impl Store {
    /// The store's invariants: ids equal row positions, dedup keys are
    /// unique, topic links are keyed uniquely and reference existing
    /// content, and co-occurrence rows are canonically ordered and unique.
    pub open spec fn wf(self) -> bool {
        &&& forall|i: int| 0 <= i < self.topics@.len() ==> (#[trigger] self.topics@[i]).id == i
        &&& forall|i: int| 0 <= i < self.creators@.len() ==> (#[trigger] self.creators@[i]).id == i
        &&& forall|i: int| 0 <= i < self.content@.len() ==> (#[trigger] self.content@[i]).id == i
        &&& forall|i: int, j: int|
            0 <= i < j < self.creators@.len() ==> !(self.creators@[i].platform
                == self.creators@[j].platform && self.creators@[i].platform_id@
                == self.creators@[j].platform_id@)
        &&& forall|i: int, j: int|
            0 <= i < j < self.content@.len() ==> !(self.content@[i].platform
                == self.content@[j].platform && self.content@[i].platform_id@
                == self.content@[j].platform_id@)
        &&& forall|i: int|
            0 <= i < self.content_topics@.len() ==> (#[trigger] self.content_topics@[i]).content_id
                < self.content@.len()
        &&& forall|i: int, j: int|
            0 <= i < j < self.content_topics@.len() ==> !(self.content_topics@[i].content_id
                == self.content_topics@[j].content_id && self.content_topics@[i].topic_id
                == self.content_topics@[j].topic_id)
        &&& forall|i: int|
            0 <= i < self.cooccurrences@.len() ==> (#[trigger] self.cooccurrences@[i]).topic_a_id
                < self.cooccurrences@[i].topic_b_id
        &&& forall|i: int, j: int|
            0 <= i < j < self.cooccurrences@.len() ==> !(self.cooccurrences@[i].topic_a_id
                == self.cooccurrences@[j].topic_a_id && self.cooccurrences@[i].topic_b_id
                == self.cooccurrences@[j].topic_b_id)
    }

    /// An empty store.
    pub fn new() -> (s: Store)
        ensures
            s.wf(),
            s.topics@ == Seq::<Topic>::empty(),
            s.creators@ == Seq::<Creator>::empty(),
            s.content@ == Seq::<Content>::empty(),
            s.content_topics@ == Seq::<ContentTopic>::empty(),
            s.cooccurrences@ == Seq::<Cooccurrence>::empty(),
    {
        Store {
            topics: Vec::new(),
            creators: Vec::new(),
            content: Vec::new(),
            content_topics: Vec::new(),
            cooccurrences: Vec::new(),
        }
    }

    /// Whether a content row with this dedup key is already stored.
    pub fn content_exists(&self, platform: Platform, platform_id: &String) -> (r: bool)
        ensures
            r == has_content_key(self.content@, platform, platform_id@),
    {
        let mut i: usize = 0;
        while i < self.content.len()
            invariant
                0 <= i <= self.content@.len(),
                forall|k: int| 0 <= k < i ==> !content_key_at(self.content@, platform, platform_id@, k),
            decreases self.content@.len() - i,
        {
            if self.content[i].platform == platform && self.content[i].platform_id == *platform_id {
                proof {
                    assert(content_key_at(self.content@, platform, platform_id@, i as int));
                }
                return true;
            }
            i += 1;
        }
        false
    }

    /// Insert a new content row, write-once: fails with a persistence error
    /// if and only if a row with the same (platform, platform_id) already
    /// exists, and changes nothing in that case.
    pub fn insert_content(&mut self, item: NewContent, now: &String) -> (r: Result<
        u64,
        CollectError,
    >)
        requires
            old(self).wf(),
        ensures
            final(self).wf(),
            has_content_key(old(self).content@, item.platform, item.platform_id@) ==> r == Result::<
                u64,
                CollectError,
            >::Err(CollectError::Persistence) && *final(self) == *old(self),
            !has_content_key(old(self).content@, item.platform, item.platform_id@) ==> {
                &&& r is Ok
                &&& r->Ok_0 == old(self).content@.len()
                &&& final(self).content@ == old(self).content@.push(
                    Content {
                        id: old(self).content@.len() as u64,
                        platform: item.platform,
                        platform_id: item.platform_id,
                        creator_id: item.creator_id,
                        content_type: item.content_type,
                        text_content: item.text_content,
                        engagement_likes: item.engagement_likes,
                        engagement_comments: item.engagement_comments,
                        engagement_shares: item.engagement_shares,
                        engagement_views: item.engagement_views,
                        published_at: item.published_at,
                        collected_at: *now,
                    },
                )
                &&& final(self).topics@ == old(self).topics@
                &&& final(self).creators@ == old(self).creators@
                &&& final(self).content_topics@ == old(self).content_topics@
                &&& final(self).cooccurrences@ == old(self).cooccurrences@
            },
    {
        if self.content_exists(item.platform, &item.platform_id) {
            return Err(CollectError::Persistence);
        }
        let id = self.content.len() as u64;
        let row = Content {
            id,
            platform: item.platform,
            platform_id: item.platform_id,
            creator_id: item.creator_id,
            content_type: item.content_type,
            text_content: item.text_content,
            engagement_likes: item.engagement_likes,
            engagement_comments: item.engagement_comments,
            engagement_shares: item.engagement_shares,
            engagement_views: item.engagement_views,
            published_at: item.published_at,
            collected_at: now.clone(),
        };
        self.content.push(row);
        proof {
            assert forall|i: int, j: int| 0 <= i < j < self.content@.len() implies !(
            self.content@[i].platform == self.content@[j].platform && self.content@[i].platform_id@
                == self.content@[j].platform_id@) by {
                if j == self.content@.len() - 1 {
                    assert(!content_key_at(
                        old(self).content@,
                        self.content@[j].platform,
                        self.content@[j].platform_id@,
                        i,
                    ));
                }
            }
        }
        Ok(id)
    }

    /// Look up the creator with this (platform, platform-native id) key,
    /// creating it if absent. When the platform supplied fresh profile
    /// metadata (a follower count), the existing row's display name,
    /// follower count and update timestamp are refreshed; otherwise an
    /// existing row is left untouched.
    pub fn upsert_creator(
        &mut self,
        platform: Platform,
        platform_id: &String,
        username: String,
        display_name: Option<String>,
        follower_count: Option<i64>,
        now: &String,
    ) -> (cid: u64)
        requires
            old(self).wf(),
        ensures
            final(self).wf(),
            final(self).topics@ == old(self).topics@,
            final(self).content@ == old(self).content@,
            final(self).content_topics@ == old(self).content_topics@,
            final(self).cooccurrences@ == old(self).cooccurrences@,
            has_creator_key(final(self).creators@, platform, platform_id@),
            creator_key_at(final(self).creators@, platform, platform_id@, cid as int),
            has_creator_key(old(self).creators@, platform, platform_id@) ==> {
                &&& creator_key_at(old(self).creators@, platform, platform_id@, cid as int)
                &&& (follower_count is None ==> *final(self) == *old(self))
                &&& (follower_count is Some ==> final(self).creators@ == old(
                    self,
                ).creators@.update(
                    cid as int,
                    Creator {
                        id: cid,
                        platform: old(self).creators@[cid as int].platform,
                        platform_id: old(self).creators@[cid as int].platform_id,
                        username: old(self).creators@[cid as int].username,
                        display_name: display_name,
                        follower_count: follower_count,
                        created_at: old(self).creators@[cid as int].created_at,
                        updated_at: *now,
                    },
                ))
            },
            !has_creator_key(old(self).creators@, platform, platform_id@) ==> {
                &&& cid == old(self).creators@.len()
                &&& final(self).creators@ == old(self).creators@.push(
                    Creator {
                        id: cid,
                        platform: platform,
                        platform_id: *platform_id,
                        username: username,
                        display_name: display_name,
                        follower_count: follower_count,
                        created_at: *now,
                        updated_at: *now,
                    },
                )
            },
    {
        let mut i: usize = 0;
        while i < self.creators.len()
            invariant
                0 <= i <= self.creators@.len(),
                *self == *old(self),
                old(self).wf(),
                forall|k: int|
                    0 <= k < i ==> !creator_key_at(self.creators@, platform, platform_id@, k),
            decreases self.creators@.len() - i,
        {
            if self.creators[i].platform == platform && self.creators[i].platform_id
                == *platform_id {
                proof {
                    assert(creator_key_at(self.creators@, platform, platform_id@, i as int));
                }
                if follower_count.is_some() {
                    let row = &self.creators[i];
                    let updated = Creator {
                        id: row.id,
                        platform: row.platform,
                        platform_id: row.platform_id.clone(),
                        username: row.username.clone(),
                        display_name,
                        follower_count,
                        created_at: row.created_at.clone(),
                        updated_at: now.clone(),
                    };
                    self.creators.set(i, updated);
                    proof {
                        assert forall|a: int, b: int|
                            0 <= a < b < self.creators@.len() implies !(self.creators@[a].platform
                            == self.creators@[b].platform && self.creators@[a].platform_id@
                            == self.creators@[b].platform_id@) by {
                            assert(old(self).creators@[a].platform_id@
                                == self.creators@[a].platform_id@);
                            assert(old(self).creators@[b].platform_id@
                                == self.creators@[b].platform_id@);
                        }
                        assert(creator_key_at(self.creators@, platform, platform_id@, i as int));
                    }
                }
                return i as u64;
            }
            i += 1;
        }
        let cid = self.creators.len() as u64;
        let row = Creator {
            id: cid,
            platform,
            platform_id: platform_id.clone(),
            username,
            display_name,
            follower_count,
            created_at: now.clone(),
            updated_at: now.clone(),
        };
        self.creators.push(row);
        proof {
            assert(creator_key_at(self.creators@, platform, platform_id@, cid as int));
            assert forall|a: int, b: int| 0 <= a < b < self.creators@.len() implies !(
            self.creators@[a].platform == self.creators@[b].platform
                && self.creators@[a].platform_id@ == self.creators@[b].platform_id@) by {
                if b == self.creators@.len() - 1 {
                    assert(!creator_key_at(
                        old(self).creators@,
                        self.creators@[b].platform,
                        self.creators@[b].platform_id@,
                        a,
                    ));
                }
            }
        }
        cid
    }

    /// Link a content row to a topic with the given confidence, replacing
    /// the link row if the (content id, topic id) key already exists.
    pub fn set_content_topic(&mut self, content_id: u64, topic_id: u64, confidence: u32)
        requires
            old(self).wf(),
            content_id < old(self).content@.len(),
        ensures
            final(self).wf(),
            final(self).topics@ == old(self).topics@,
            final(self).creators@ == old(self).creators@,
            final(self).content@ == old(self).content@,
            final(self).cooccurrences@ == old(self).cooccurrences@,
            has_link_key(old(self).content_topics@, content_id, topic_id) ==> (exists|j: int|
                link_key_at(old(self).content_topics@, content_id, topic_id, j)
                    && final(self).content_topics@ == old(self).content_topics@.update(
                    j,
                    ContentTopic { content_id, topic_id, confidence },
                )),
            !has_link_key(old(self).content_topics@, content_id, topic_id)
                ==> final(self).content_topics@ == old(self).content_topics@.push(
                ContentTopic { content_id, topic_id, confidence },
            ),
    {
        let mut i: usize = 0;
        while i < self.content_topics.len()
            invariant
                0 <= i <= self.content_topics@.len(),
                *self == *old(self),
                old(self).wf(),
                content_id < old(self).content@.len(),
                forall|k: int|
                    0 <= k < i ==> !link_key_at(self.content_topics@, content_id, topic_id, k),
            decreases self.content_topics@.len() - i,
        {
            if self.content_topics[i].content_id == content_id && self.content_topics[i].topic_id
                == topic_id {
                proof {
                    assert(link_key_at(self.content_topics@, content_id, topic_id, i as int));
                }
                self.content_topics.set(i, ContentTopic { content_id, topic_id, confidence });
                proof {
                    assert forall|a: int, b: int|
                        0 <= a < b < self.content_topics@.len() implies !(
                    self.content_topics@[a].content_id == self.content_topics@[b].content_id
                        && self.content_topics@[a].topic_id
                        == self.content_topics@[b].topic_id) by {
                        if a != i && b != i {
                            assert(self.content_topics@[a] == old(self).content_topics@[a]);
                            assert(self.content_topics@[b] == old(self).content_topics@[b]);
                        }
                    }
                }
                return ;
            }
            i += 1;
        }
        self.content_topics.push(ContentTopic { content_id, topic_id, confidence });
        proof {
            assert forall|a: int, b: int| 0 <= a < b < self.content_topics@.len() implies !(
            self.content_topics@[a].content_id == self.content_topics@[b].content_id
                && self.content_topics@[a].topic_id == self.content_topics@[b].topic_id) by {
                if b == self.content_topics@.len() - 1 {
                    assert(!link_key_at(
                        old(self).content_topics@,
                        self.content_topics@[b].content_id,
                        self.content_topics@[b].topic_id,
                        a,
                    ));
                }
            }
        }
    }

    /// Record one co-occurrence of two distinct topics: the pair key is
    /// canonicalized (smaller id first), an existing row's frequency is
    /// incremented and its last-seen timestamp refreshed, a missing row is
    /// created with frequency 1.
    pub fn record_pair(&mut self, a: u64, b: u64, now: &String)
        requires
            old(self).wf(),
            a != b,
        ensures
            final(self).wf(),
            final(self).topics@ == old(self).topics@,
            final(self).creators@ == old(self).creators@,
            final(self).content@ == old(self).content@,
            final(self).content_topics@ == old(self).content_topics@,
            forall|x: u64, y: u64|
                pair_freq(final(self).cooccurrences@, x, y) == (if x == min64(a, b) && y == max64(
                    a,
                    b,
                ) {
                    bump1(pair_freq(old(self).cooccurrences@, x, y))
                } else {
                    pair_freq(old(self).cooccurrences@, x, y)
                }),
            forall|x: u64, y: u64|
                has_pair(final(self).cooccurrences@, x, y) <==> (has_pair(
                    old(self).cooccurrences@,
                    x,
                    y,
                ) || (x == min64(a, b) && y == max64(a, b))),
            exists|i: int|
                pair_key_at(final(self).cooccurrences@, min64(a, b), max64(a, b), i)
                    && final(self).cooccurrences@[i].last_seen@ == now@
                    && final(self).cooccurrences@[i].frequency == bump1(
                    pair_freq(old(self).cooccurrences@, min64(a, b), max64(a, b)),
                ),
            has_pair(old(self).cooccurrences@, min64(a, b), max64(a, b)) ==> (exists|i: int|
                pair_key_at(old(self).cooccurrences@, min64(a, b), max64(a, b), i)
                    && final(self).cooccurrences@ == old(self).cooccurrences@.update(
                    i,
                    Cooccurrence {
                        topic_a_id: min64(a, b),
                        topic_b_id: max64(a, b),
                        frequency: bump1(old(self).cooccurrences@[i].frequency),
                        last_seen: *now,
                        created_at: old(self).cooccurrences@[i].created_at,
                    },
                )),
            !has_pair(old(self).cooccurrences@, min64(a, b), max64(a, b))
                ==> final(self).cooccurrences@ == old(self).cooccurrences@.push(
                Cooccurrence {
                    topic_a_id: min64(a, b),
                    topic_b_id: max64(a, b),
                    frequency: 1,
                    last_seen: *now,
                    created_at: *now,
                },
            ),
    {
        let lo = if a < b {
            a
        } else {
            b
        };
        let hi = if a < b {
            b
        } else {
            a
        };
        let mut i: usize = 0;
        while i < self.cooccurrences.len()
            invariant
                0 <= i <= self.cooccurrences@.len(),
                *self == *old(self),
                old(self).wf(),
                lo == min64(a, b),
                hi == max64(a, b),
                lo < hi,
                forall|k: int| 0 <= k < i ==> !pair_key_at(self.cooccurrences@, lo, hi, k),
            decreases self.cooccurrences@.len() - i,
        {
            if self.cooccurrences[i].topic_a_id == lo && self.cooccurrences[i].topic_b_id == hi {
                proof {
                    assert(pair_key_at(self.cooccurrences@, lo, hi, i as int));
                }
                let row = &self.cooccurrences[i];
                let updated = Cooccurrence {
                    topic_a_id: lo,
                    topic_b_id: hi,
                    frequency: if row.frequency < u64::MAX {
                        row.frequency + 1
                    } else {
                        u64::MAX
                    },
                    last_seen: now.clone(),
                    created_at: row.created_at.clone(),
                };
                self.cooccurrences.set(i, updated);
                proof {
                    lemma_pair_freq_key(old(self).cooccurrences@, lo, hi, i as int);
                    lemma_pair_freq_update(old(self).cooccurrences@, i as int, updated);
                    assert forall|x: int, y: int|
                        0 <= x < y < self.cooccurrences@.len() implies !(
                    self.cooccurrences@[x].topic_a_id == self.cooccurrences@[y].topic_a_id
                        && self.cooccurrences@[x].topic_b_id
                        == self.cooccurrences@[y].topic_b_id) by {
                        if x != i && y != i {
                            assert(self.cooccurrences@[x] == old(self).cooccurrences@[x]);
                            assert(self.cooccurrences@[y] == old(self).cooccurrences@[y]);
                        }
                    }
                    assert(pair_key_at(self.cooccurrences@, lo, hi, i as int));
                    assert forall|x: u64, y: u64|
                        has_pair(self.cooccurrences@, x, y) <==> (has_pair(
                            old(self).cooccurrences@,
                            x,
                            y,
                        ) || (x == lo && y == hi)) by {
                        if has_pair(self.cooccurrences@, x, y) {
                            let k = choose|k: int| pair_key_at(self.cooccurrences@, x, y, k);
                            if k != i {
                                assert(pair_key_at(old(self).cooccurrences@, x, y, k));
                            }
                        }
                        if has_pair(old(self).cooccurrences@, x, y) {
                            let k = choose|k: int| pair_key_at(old(self).cooccurrences@, x, y, k);
                            if k != i {
                                assert(pair_key_at(self.cooccurrences@, x, y, k));
                            }
                        }
                    }
                }
                return ;
            }
            i += 1;
        }
        let fresh = Cooccurrence {
            topic_a_id: lo,
            topic_b_id: hi,
            frequency: 1,
            last_seen: now.clone(),
            created_at: now.clone(),
        };
        self.cooccurrences.push(fresh);
        proof {
            let ghost n = old(self).cooccurrences@.len() as int;
            assert(self.cooccurrences@.drop_last() =~= old(self).cooccurrences@);
            lemma_pair_freq_absent(old(self).cooccurrences@, lo, hi);
            assert forall|x: u64, y: u64|
                pair_freq(self.cooccurrences@, x, y) == (if x == lo && y == hi {
                    bump1(pair_freq(old(self).cooccurrences@, x, y))
                } else {
                    pair_freq(old(self).cooccurrences@, x, y)
                }) by {
                if x == lo && y == hi {
                    assert(pair_freq(self.cooccurrences@, x, y) == 1);
                } else {
                    assert(pair_freq(self.cooccurrences@, x, y) == pair_freq(
                        self.cooccurrences@.drop_last(),
                        x,
                        y,
                    ));
                }
            }
            assert forall|x: int, y: int| 0 <= x < y < self.cooccurrences@.len() implies !(
            self.cooccurrences@[x].topic_a_id == self.cooccurrences@[y].topic_a_id
                && self.cooccurrences@[x].topic_b_id == self.cooccurrences@[y].topic_b_id) by {
                if y == n {
                    assert(!pair_key_at(old(self).cooccurrences@, lo, hi, x));
                }
            }
            assert(pair_key_at(self.cooccurrences@, lo, hi, n));
            assert forall|x: u64, y: u64|
                has_pair(self.cooccurrences@, x, y) <==> (has_pair(old(self).cooccurrences@, x, y)
                    || (x == lo && y == hi)) by {
                if has_pair(self.cooccurrences@, x, y) {
                    let k = choose|k: int| pair_key_at(self.cooccurrences@, x, y, k);
                    if k != n {
                        assert(pair_key_at(old(self).cooccurrences@, x, y, k));
                    }
                }
                if has_pair(old(self).cooccurrences@, x, y) {
                    let k = choose|k: int| pair_key_at(old(self).cooccurrences@, x, y, k);
                    assert(pair_key_at(self.cooccurrences@, x, y, k));
                }
            }
        }
    }
}

/// The unordered pair {a, b} occurs at index positions (k, l), k < l, of
/// `ids` with (k, l) among the pairs already processed: those with k < i,
/// or with k == i and l < j.
pub open spec fn pair_seen(ids: Seq<u64>, i: int, j: int, a: u64, b: u64) -> bool {
    exists|k: int, l: int|
        0 <= k < l < ids.len() && (k < i || (k == i && l < j)) && ((ids[k] == a && ids[l] == b) || (
        ids[k] == b && ids[l] == a))
}

/// No id occurs twice.
pub open spec fn distinct_ids(ids: Seq<u64>) -> bool {
    forall|i: int, j: int| 0 <= i < j < ids.len() ==> ids[i] != ids[j]
}

impl Store {
    /// Record one co-occurrence for every unordered pair of the given
    /// distinct topic ids: each pair's canonical row gains exactly one
    /// count and a fresh last-seen timestamp; every other pair is
    /// untouched.
    pub fn record_cooccurrences(&mut self, topic_ids: &Vec<u64>, now: &String)
        requires
            old(self).wf(),
            distinct_ids(topic_ids@),
        ensures
            final(self).wf(),
            final(self).topics@ == old(self).topics@,
            final(self).creators@ == old(self).creators@,
            final(self).content@ == old(self).content@,
            final(self).content_topics@ == old(self).content_topics@,
            forall|a: u64, b: u64|
                a < b ==> pair_freq(final(self).cooccurrences@, a, b) == (if topic_ids@.contains(a)
                    && topic_ids@.contains(b) {
                    bump1(pair_freq(old(self).cooccurrences@, a, b))
                } else {
                    pair_freq(old(self).cooccurrences@, a, b)
                }),
            forall|a: u64, b: u64|
                #![trigger has_pair(final(self).cooccurrences@, a, b)]
                a < b ==> (has_pair(final(self).cooccurrences@, a, b) <==> (has_pair(
                    old(self).cooccurrences@,
                    a,
                    b,
                ) || (topic_ids@.contains(a) && topic_ids@.contains(b)))),
            forall|a: u64, b: u64|
                #![trigger has_pair(final(self).cooccurrences@, a, b)]
                a < b && topic_ids@.contains(a) && topic_ids@.contains(b) ==> (has_pair(
                    final(self).cooccurrences@,
                    a,
                    b,
                ) && (forall|k: int|
                    pair_key_at(final(self).cooccurrences@, a, b, k)
                        ==> final(self).cooccurrences@[k].last_seen@ == now@)),
    {
        let ghost ids = topic_ids@;
        let n = topic_ids.len();
        let mut i: usize = 0;
        while i < n
            invariant
                0 <= i <= n,
                n == ids.len(),
                ids == topic_ids@,
                distinct_ids(ids),
                self.wf(),
                self.topics@ == old(self).topics@,
                self.creators@ == old(self).creators@,
                self.content@ == old(self).content@,
                self.content_topics@ == old(self).content_topics@,
                forall|a: u64, b: u64|
                    a < b ==> pair_freq(self.cooccurrences@, a, b) == (if pair_seen(
                        ids,
                        i as int,
                        0,
                        a,
                        b,
                    ) {
                        bump1(pair_freq(old(self).cooccurrences@, a, b))
                    } else {
                        pair_freq(old(self).cooccurrences@, a, b)
                    }),
                forall|a: u64, b: u64|
                    #![trigger has_pair(self.cooccurrences@, a, b)]
                    a < b ==> (has_pair(self.cooccurrences@, a, b) <==> (has_pair(
                        old(self).cooccurrences@,
                        a,
                        b,
                    ) || pair_seen(ids, i as int, 0, a, b))),
                forall|a: u64, b: u64|
                    #![trigger has_pair(self.cooccurrences@, a, b)]
                    a < b && pair_seen(ids, i as int, 0, a, b) ==> (has_pair(
                        self.cooccurrences@,
                        a,
                        b,
                    ) && (forall|k: int|
                        pair_key_at(self.cooccurrences@, a, b, k)
                            ==> self.cooccurrences@[k].last_seen@ == now@)),
            decreases n - i,
        {
            let mut j: usize = i + 1;
            proof {
                assert forall|a: u64, b: u64|
                    #![trigger has_pair(self.cooccurrences@, a, b)]
                    a < b && pair_seen(ids, i as int, j as int, a, b) implies (has_pair(
                    self.cooccurrences@,
                    a,
                    b,
                ) && (forall|k: int|
                    pair_key_at(self.cooccurrences@, a, b, k)
                        ==> self.cooccurrences@[k].last_seen@ == now@)) by {
                    assert(pair_seen(ids, i as int, 0, a, b)) by {
                        let (k, l) = choose|k: int, l: int|
                            0 <= k < l < ids.len() && (k < i as int || (k == i as int && l
                                < j as int)) && ((ids[k] == a && ids[l] == b) || (ids[k] == b
                                && ids[l] == a));
                        assert(k < i as int);
                        assert(pair_seen(ids, i as int, 0, a, b));
                    }
                    assert(has_pair(self.cooccurrences@, a, b));
                    assert(forall|k: int|
                        pair_key_at(self.cooccurrences@, a, b, k)
                            ==> self.cooccurrences@[k].last_seen@ == now@);
                }
            }
            while j < n
                invariant
                    0 <= i < j <= n,
                    n == ids.len(),
                    ids == topic_ids@,
                    distinct_ids(ids),
                    self.wf(),
                    self.topics@ == old(self).topics@,
                    self.creators@ == old(self).creators@,
                    self.content@ == old(self).content@,
                    self.content_topics@ == old(self).content_topics@,
                    forall|a: u64, b: u64|
                        a < b ==> pair_freq(self.cooccurrences@, a, b) == (if pair_seen(
                            ids,
                            i as int,
                            j as int,
                            a,
                            b,
                        ) {
                            bump1(pair_freq(old(self).cooccurrences@, a, b))
                        } else {
                            pair_freq(old(self).cooccurrences@, a, b)
                        }),
                    forall|a: u64, b: u64|
                        #![trigger has_pair(self.cooccurrences@, a, b)]
                        a < b ==> (has_pair(self.cooccurrences@, a, b) <==> (has_pair(
                            old(self).cooccurrences@,
                            a,
                            b,
                        ) || pair_seen(ids, i as int, j as int, a, b))),
                    forall|a: u64, b: u64|
                        #![trigger has_pair(self.cooccurrences@, a, b)]
                        a < b && pair_seen(ids, i as int, j as int, a, b) ==> (has_pair(
                            self.cooccurrences@,
                            a,
                            b,
                        ) && (forall|k: int|
                            pair_key_at(self.cooccurrences@, a, b, k)
                                ==> self.cooccurrences@[k].last_seen@ == now@)),
                decreases n - j,
            {
                let x = topic_ids[i];
                let y = topic_ids[j];
                let ghost mid = *self;
                let ghost lo = min64(x, y);
                let ghost hi = max64(x, y);
                proof {
                    assert(ids[i as int] == x && ids[j as int] == y);
                    assert(x != y);
                    // this pair has not been processed before this step
                    assert(!pair_seen(ids, i as int, j as int, lo, hi)) by {
                        if pair_seen(ids, i as int, j as int, lo, hi) {
                            let (k, l) = choose|k: int, l: int|
                                0 <= k < l < ids.len() && (k < i as int || (k == i as int && l
                                    < j as int)) && ((ids[k] == lo && ids[l] == hi) || (ids[k] == hi
                                    && ids[l] == lo));
                            assert(ids[k] == ids[i as int] || ids[k] == ids[j as int]);
                            assert(k == i as int || k == j as int);
                            assert(k == i as int);
                            assert(ids[l] == ids[i as int] || ids[l] == ids[j as int]);
                            assert(l == j as int);
                        }
                    }
                }
                self.record_pair(x, y, now);
                proof {
                    assert forall|a: u64, b: u64|
                        #![trigger pair_seen(ids, i as int, j as int + 1, a, b)]
                        a < b implies (pair_seen(ids, i as int, j as int + 1, a, b) == (pair_seen(
                        ids,
                        i as int,
                        j as int,
                        a,
                        b,
                    ) || (a == lo && b == hi))) by {
                        if pair_seen(ids, i as int, j as int + 1, a, b) {
                            let (k, l) = choose|k: int, l: int|
                                0 <= k < l < ids.len() && (k < i as int || (k == i as int && l
                                    < j as int + 1)) && ((ids[k] == a && ids[l] == b) || (ids[k]
                                    == b && ids[l] == a));
                            if k == i as int && l == j as int {
                                assert(a == lo && b == hi);
                            } else {
                                assert(pair_seen(ids, i as int, j as int, a, b));
                            }
                        }
                        if pair_seen(ids, i as int, j as int, a, b) {
                            let (k, l) = choose|k: int, l: int|
                                0 <= k < l < ids.len() && (k < i as int || (k == i as int && l
                                    < j as int)) && ((ids[k] == a && ids[l] == b) || (ids[k] == b
                                    && ids[l] == a));
                            assert(pair_seen(ids, i as int, j as int + 1, a, b));
                        }
                        if a == lo && b == hi {
                            if x < y {
                                assert(ids[i as int] == a && ids[j as int] == b);
                            } else {
                                assert(ids[i as int] == b && ids[j as int] == a);
                            }
                            assert(pair_seen(ids, i as int, j as int + 1, a, b));
                        }
                    }
                    assert forall|a: u64, b: u64|
                        #![trigger has_pair(self.cooccurrences@, a, b)]
                        a < b && pair_seen(ids, i as int, j as int + 1, a, b) implies (has_pair(
                        self.cooccurrences@,
                        a,
                        b,
                    ) && (forall|k: int|
                        pair_key_at(self.cooccurrences@, a, b, k)
                            ==> self.cooccurrences@[k].last_seen@ == now@)) by {
                        if a == lo && b == hi {
                            assert(has_pair(self.cooccurrences@, a, b));
                            assert forall|k: int|
                                pair_key_at(self.cooccurrences@, a, b, k) implies
                                self.cooccurrences@[k].last_seen@ == now@ by {
                                let w = choose|w: int|
                                    pair_key_at(self.cooccurrences@, lo, hi, w)
                                        && self.cooccurrences@[w].last_seen@ == now@
                                        && self.cooccurrences@[w].frequency == bump1(
                                        pair_freq(mid.cooccurrences@, lo, hi),
                                    );
                                assert(k == w);
                            }
                        } else {
                            assert(pair_seen(ids, i as int, j as int, a, b));
                            assert(has_pair(mid.cooccurrences@, a, b));
                            assert(has_pair(self.cooccurrences@, a, b));
                            if has_pair(mid.cooccurrences@, lo, hi) {
                                let u = choose|u: int|
                                    pair_key_at(mid.cooccurrences@, lo, hi, u)
                                        && self.cooccurrences@ == mid.cooccurrences@.update(
                                        u,
                                        Cooccurrence {
                                            topic_a_id: lo,
                                            topic_b_id: hi,
                                            frequency: bump1(mid.cooccurrences@[u].frequency),
                                            last_seen: *now,
                                            created_at: mid.cooccurrences@[u].created_at,
                                        },
                                    );
                                assert forall|k: int|
                                    pair_key_at(self.cooccurrences@, a, b, k) implies
                                    self.cooccurrences@[k].last_seen@ == now@ by {
                                    if k != u {
                                        assert(self.cooccurrences@[k] == mid.cooccurrences@[k]);
                                        assert(pair_key_at(mid.cooccurrences@, a, b, k));
                                    }
                                }
                            } else {
                                assert forall|k: int|
                                    pair_key_at(self.cooccurrences@, a, b, k) implies
                                    self.cooccurrences@[k].last_seen@ == now@ by {
                                    if k < mid.cooccurrences@.len() {
                                        assert(self.cooccurrences@[k] == mid.cooccurrences@[k]);
                                        assert(pair_key_at(mid.cooccurrences@, a, b, k));
                                    }
                                }
                            }
                        }
                    }
                }
                j += 1;
            }
            proof {
                assert forall|a: u64, b: u64|
                    #![trigger pair_seen(ids, i as int + 1, 0, a, b)]
                    a < b implies (pair_seen(ids, i as int + 1, 0, a, b) == pair_seen(
                    ids,
                    i as int,
                    j as int,
                    a,
                    b,
                )) by {
                    if pair_seen(ids, i as int + 1, 0, a, b) {
                        let (k, l) = choose|k: int, l: int|
                            0 <= k < l < ids.len() && (k < i as int + 1 || (k == i as int + 1 && l
                                < 0)) && ((ids[k] == a && ids[l] == b) || (ids[k] == b && ids[l]
                                == a));
                        assert(k < i as int || (k == i as int && l < j as int));
                        assert(pair_seen(ids, i as int, j as int, a, b));
                    }
                    if pair_seen(ids, i as int, j as int, a, b) {
                        let (k, l) = choose|k: int, l: int|
                            0 <= k < l < ids.len() && (k < i as int || (k == i as int && l
                                < j as int)) && ((ids[k] == a && ids[l] == b) || (ids[k] == b
                                && ids[l] == a));
                        assert(k < i as int + 1);
                        assert(pair_seen(ids, i as int + 1, 0, a, b));
                    }
                }
            }
            let ghost iprev = i as int;
            i += 1;
            proof {
                assert forall|a: u64, b: u64|
                    #![trigger has_pair(self.cooccurrences@, a, b)]
                    a < b && pair_seen(ids, i as int, 0, a, b) implies (has_pair(
                    self.cooccurrences@,
                    a,
                    b,
                ) && (forall|k: int|
                    pair_key_at(self.cooccurrences@, a, b, k)
                        ==> self.cooccurrences@[k].last_seen@ == now@)) by {
                    assert(pair_seen(ids, iprev, j as int, a, b)) by {
                        let (k, l) = choose|k: int, l: int|
                            0 <= k < l < ids.len() && (k < i as int || (k == i as int && l < 0))
                                && ((ids[k] == a && ids[l] == b) || (ids[k] == b && ids[l] == a));
                        assert(k < iprev || (k == iprev && l < j as int));
                        assert(pair_seen(ids, iprev, j as int, a, b));
                    }
                    assert(has_pair(self.cooccurrences@, a, b));
                    assert(forall|k: int|
                        pair_key_at(self.cooccurrences@, a, b, k)
                            ==> self.cooccurrences@[k].last_seen@ == now@);
                }
            }
        }
        proof {
            assert forall|a: u64, b: u64|
                #![trigger ids.contains(a), ids.contains(b)]
                a < b implies (pair_seen(ids, i as int, 0, a, b) == (ids.contains(a)
                && ids.contains(b))) by {
                if pair_seen(ids, i as int, 0, a, b) {
                    let (k, l) = choose|k: int, l: int|
                        0 <= k < l < ids.len() && (k < i as int || (k == i as int && l < 0)) && ((
                        ids[k] == a && ids[l] == b) || (ids[k] == b && ids[l] == a));
                    assert(ids.contains(ids[k]));
                    assert(ids.contains(ids[l]));
                }
                if ids.contains(a) && ids.contains(b) {
                    let k0 = choose|k0: int| 0 <= k0 < ids.len() && ids[k0] == a;
                    let l0 = choose|l0: int| 0 <= l0 < ids.len() && ids[l0] == b;
                    assert(k0 != l0);
                    if k0 < l0 {
                        assert(0 <= k0 < l0 < ids.len() && k0 < i as int && ids[k0] == a
                            && ids[l0] == b);
                        assert(pair_seen(ids, i as int, 0, a, b));
                    } else {
                        assert(0 <= l0 < k0 < ids.len() && l0 < i as int && ids[l0] == b
                            && ids[k0] == a);
                        assert(pair_seen(ids, i as int, 0, a, b));
                    }
                }
            }
        }
    }
}

/// Law: in a well-formed store every co-occurrence row is keyed with the
/// smaller topic id first, so a pair recorded as (A, B) and one recorded
/// as (B, A) always land on the same row and can never make two.
pub proof fn lemma_cooccurrence_canonical_order(s: Store)
    requires
        s.wf(),
    ensures
        forall|i: int|
            0 <= i < s.cooccurrences@.len() ==> (#[trigger] s.cooccurrences@[i]).topic_a_id
                < s.cooccurrences@[i].topic_b_id,
        forall|a: u64, b: u64|
            a != b ==> !(has_pair(s.cooccurrences@, a, b) && has_pair(s.cooccurrences@, b, a)),
{
    assert forall|a: u64, b: u64|
        a != b implies !(has_pair(s.cooccurrences@, a, b) && has_pair(
        s.cooccurrences@,
        b,
        a,
    )) by {
        if has_pair(s.cooccurrences@, a, b) && has_pair(s.cooccurrences@, b, a) {
            let i = choose|i: int| pair_key_at(s.cooccurrences@, a, b, i);
            let j = choose|j: int| pair_key_at(s.cooccurrences@, b, a, j);
            assert(s.cooccurrences@[i].topic_a_id < s.cooccurrences@[i].topic_b_id);
            assert(s.cooccurrences@[j].topic_a_id < s.cooccurrences@[j].topic_b_id);
        }
    }
}

/// Law: in a well-formed store each counted pair has exactly one row, so
/// recording a co-occurrence again increments that row (`record_pair`
/// promises `bump1` of its frequency and a fresh last-seen timestamp) and
/// can never create a duplicate.
pub proof fn lemma_pair_row_unique(s: Store, a: u64, b: u64)
    requires
        s.wf(),
        has_pair(s.cooccurrences@, a, b),
    ensures
        exists|i: int|
            pair_key_at(s.cooccurrences@, a, b, i) && (forall|j: int|
                pair_key_at(s.cooccurrences@, a, b, j) ==> j == i),
{
    let i = choose|i: int| pair_key_at(s.cooccurrences@, a, b, i);
    assert(pair_key_at(s.cooccurrences@, a, b, i) && (forall|j: int|
        pair_key_at(s.cooccurrences@, a, b, j) ==> j == i)) by {
        assert forall|j: int| pair_key_at(s.cooccurrences@, a, b, j) implies j == i by {
            if j < i {
                assert(!(s.cooccurrences@[j].topic_a_id == s.cooccurrences@[i].topic_a_id
                    && s.cooccurrences@[j].topic_b_id == s.cooccurrences@[i].topic_b_id));
            } else if j > i {
                assert(!(s.cooccurrences@[i].topic_a_id == s.cooccurrences@[j].topic_a_id
                    && s.cooccurrences@[i].topic_b_id == s.cooccurrences@[j].topic_b_id));
            }
        }
    }
}

/// The smaller of two ids.
pub open spec fn min64(a: u64, b: u64) -> u64 {
    if a < b {
        a
    } else {
        b
    }
}

/// The larger of two ids.
pub open spec fn max64(a: u64, b: u64) -> u64 {
    if a < b {
        b
    } else {
        a
    }
}

/// No two rows of `s` share a pair key.
pub open spec fn unique_pair_keys(s: Seq<Cooccurrence>) -> bool {
    forall|i: int, j: int|
        0 <= i < j < s.len() ==> !(s[i].topic_a_id == s[j].topic_a_id && s[i].topic_b_id
            == s[j].topic_b_id)
}

proof fn lemma_pair_freq_absent(s: Seq<Cooccurrence>, a: u64, b: u64)
    requires
        !has_pair(s, a, b),
    ensures
        pair_freq(s, a, b) == 0,
    decreases s.len(),
{
    if s.len() == 0 {
    } else {
        assert(!pair_key_at(s, a, b, s.len() - 1));
        assert forall|k: int| !pair_key_at(s.drop_last(), a, b, k) by {
            if 0 <= k < s.drop_last().len() {
                assert(s.drop_last()[k] == s[k]);
                assert(!pair_key_at(s, a, b, k));
            }
        }
        lemma_pair_freq_absent(s.drop_last(), a, b);
    }
}

proof fn lemma_pair_freq_key(s: Seq<Cooccurrence>, a: u64, b: u64, i: int)
    requires
        unique_pair_keys(s),
        pair_key_at(s, a, b, i),
    ensures
        pair_freq(s, a, b) == s[i].frequency,
    decreases s.len(),
{
    if i == s.len() - 1 {
    } else {
        assert(!(s[i].topic_a_id == s[s.len() - 1].topic_a_id && s[i].topic_b_id == s[s.len()
            - 1].topic_b_id));
        assert forall|x: int, y: int| 0 <= x < y < s.drop_last().len() implies !(
        s.drop_last()[x].topic_a_id == s.drop_last()[y].topic_a_id && s.drop_last()[x].topic_b_id
            == s.drop_last()[y].topic_b_id) by {
            assert(s.drop_last()[x] == s[x]);
            assert(s.drop_last()[y] == s[y]);
        }
        assert(s.drop_last()[i] == s[i]);
        lemma_pair_freq_key(s.drop_last(), a, b, i);
    }
}

proof fn lemma_pair_freq_update(s: Seq<Cooccurrence>, j: int, row: Cooccurrence)
    requires
        unique_pair_keys(s),
        0 <= j < s.len(),
        s[j].topic_a_id == row.topic_a_id,
        s[j].topic_b_id == row.topic_b_id,
    ensures
        forall|a: u64, b: u64|
            pair_freq(s.update(j, row), a, b) == (if a == row.topic_a_id && b == row.topic_b_id {
                row.frequency
            } else {
                pair_freq(s, a, b)
            }),
    decreases s.len(),
{
    let t = s.update(j, row);
    assert forall|x: int, y: int| 0 <= x < y < s.drop_last().len() implies !(
    s.drop_last()[x].topic_a_id == s.drop_last()[y].topic_a_id && s.drop_last()[x].topic_b_id
        == s.drop_last()[y].topic_b_id) by {
        assert(s.drop_last()[x] == s[x]);
        assert(s.drop_last()[y] == s[y]);
    }
    if j == s.len() - 1 {
        assert forall|a: u64, b: u64|
            pair_freq(t, a, b) == (if a == row.topic_a_id && b == row.topic_b_id {
                row.frequency
            } else {
                pair_freq(s, a, b)
            }) by {
            assert(t.last() == row);
            assert(t.drop_last() =~= s.drop_last());
        }
    } else {
        assert(s.drop_last()[j] == s[j]);
        lemma_pair_freq_update(s.drop_last(), j, row);
        assert forall|a: u64, b: u64|
            pair_freq(t, a, b) == (if a == row.topic_a_id && b == row.topic_b_id {
                row.frequency
            } else {
                pair_freq(s, a, b)
            }) by {
            assert(t.last() == s.last());
            assert(t.drop_last() =~= s.drop_last().update(j, row));
            assert(pair_freq(t.drop_last(), a, b) == pair_freq(s.drop_last().update(j, row), a, b));
            if a == s.last().topic_a_id && b == s.last().topic_b_id {
                assert(!(a == row.topic_a_id && b == row.topic_b_id));
                assert(pair_freq(s, a, b) == s.last().frequency);
            } else {
                assert(pair_freq(t, a, b) == pair_freq(t.drop_last(), a, b));
                assert(pair_freq(s, a, b) == pair_freq(s.drop_last(), a, b));
            }
        }
    }
}

} // verus!
