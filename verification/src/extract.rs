//! Keyword-based topic extraction: score free text against the topic
//! catalog, rank the matching topics by confidence, and cap the result at
//! five topics.

use vstd::prelude::*;
use crate::store::Topic;
use crate::text::{lower_bytes, to_lower, total_matches, total_whole_word};

verus! {

/// One extracted topic with its score.
pub struct ExtractedTopic {
    pub topic_id: u64,
    pub topic_name: String,
    /// Confidence in hundredths: `min(20 * mentions, 100)`, so it saturates
    /// at 100 once five keyword hits are found.
    pub confidence: u32,
    /// Total whole-word keyword hits, saturating at `u32::MAX`.
    pub mentions: u32,
}

/// The mentions counter recorded for a total hit count.
pub open spec fn mentions_of(total: nat) -> nat {
    if total > u32::MAX {
        u32::MAX as nat
    } else {
        total
    }
}

/// The confidence, in hundredths, for a total hit count:
/// `min(20 * total, 100)`.
pub open spec fn confidence_of(total: nat) -> nat {
    if total >= 5 {
        100
    } else {
        20 * total
    }
}

/// The entry produced for topic `t` on (already lower-cased) `text`.
pub open spec fn entry_of(t: Topic, text: Seq<u8>) -> ExtractedTopic {
    ExtractedTopic {
        topic_id: t.id,
        topic_name: t.name,
        confidence: confidence_of(total_matches(text, t.keywords.deep_view())) as u32,
        mentions: mentions_of(total_matches(text, t.keywords.deep_view())) as u32,
    }
}

/// The position at which an entry of confidence `c` is ranked into `s`:
/// after every entry at least as confident, so that ties keep catalog
/// order.
pub open spec fn rank_pos(s: Seq<ExtractedTopic>, c: u32) -> int
    decreases s.len(),
{
    if s.len() == 0 {
        0
    } else if s[0].confidence >= c {
        1 + rank_pos(s.drop_first(), c)
    } else {
        0
    }
}

/// `s` with `e` inserted at its rank position.
pub open spec fn insert_ranked(s: Seq<ExtractedTopic>, e: ExtractedTopic) -> Seq<ExtractedTopic>
    decreases s.len(),
{
    if s.len() == 0 {
        seq![e]
    } else if s[0].confidence >= e.confidence {
        seq![s[0]] + insert_ranked(s.drop_first(), e)
    } else {
        seq![e] + s
    }
}

/// The ranked list of entries for every catalog topic with at least one
/// keyword hit in (already lower-cased) `text`: sorted by confidence
/// descending, ties in catalog order.
pub open spec fn ranked_matches(catalog: Seq<Topic>, text: Seq<u8>) -> Seq<ExtractedTopic>
    decreases catalog.len(),
{
    if catalog.len() == 0 {
        Seq::empty()
    } else {
        let prev = ranked_matches(catalog.drop_last(), text);
        let t = catalog.last();
        if total_matches(text, t.keywords.deep_view()) > 0 {
            insert_ranked(prev, entry_of(t, text))
        } else {
            prev
        }
    }
}

/// The first five entries of a ranked list.
pub open spec fn top_five(s: Seq<ExtractedTopic>) -> Seq<ExtractedTopic> {
    if s.len() <= 5 {
        s
    } else {
        s.take(5)
    }
}

/// Sorted by confidence, descending.
pub open spec fn sorted_desc(s: Seq<ExtractedTopic>) -> bool {
    forall|i: int, j: int| 0 <= i <= j < s.len() ==> s[i].confidence >= s[j].confidence
}

/// No topic id occurs twice.
pub open spec fn distinct_topic_ids(s: Seq<ExtractedTopic>) -> bool {
    forall|i: int, j: int| 0 <= i < j < s.len() ==> s[i].topic_id != s[j].topic_id
}

/// No topic id occurs twice in a catalog.
pub open spec fn distinct_catalog_ids(catalog: Seq<Topic>) -> bool {
    forall|i: int, j: int| 0 <= i < j < catalog.len() ==> catalog[i].id != catalog[j].id
}

proof fn lemma_rank_pos(s: Seq<ExtractedTopic>, c: u32)
    ensures
        0 <= rank_pos(s, c) <= s.len(),
        forall|k: int| 0 <= k < rank_pos(s, c) ==> s[k].confidence >= c,
        rank_pos(s, c) < s.len() ==> s[rank_pos(s, c)].confidence < c,
    decreases s.len(),
{
    if s.len() == 0 {
    } else if s[0].confidence >= c {
        lemma_rank_pos(s.drop_first(), c);
        assert forall|k: int| 0 <= k < rank_pos(s, c) implies s[k].confidence >= c by {
            if k > 0 {
                assert(s.drop_first()[k - 1] == s[k]);
            }
        }
        if rank_pos(s, c) < s.len() {
            assert(s.drop_first()[rank_pos(s, c) - 1] == s[rank_pos(s, c)]);
        }
    } else {
    }
}

proof fn lemma_rank_pos_unique(s: Seq<ExtractedTopic>, c: u32, p: int)
    requires
        0 <= p <= s.len(),
        forall|k: int| 0 <= k < p ==> s[k].confidence >= c,
        p < s.len() ==> s[p].confidence < c,
    ensures
        p == rank_pos(s, c),
    decreases s.len(),
{
    if s.len() == 0 {
    } else if s[0].confidence >= c {
        assert(p != 0);
        assert forall|k: int| 0 <= k < p - 1 implies s.drop_first()[k].confidence >= c by {
            assert(s.drop_first()[k] == s[k + 1]);
        }
        if p - 1 < s.drop_first().len() {
            assert(s.drop_first()[p - 1] == s[p]);
        }
        lemma_rank_pos_unique(s.drop_first(), c, p - 1);
    } else {
        assert(p == 0);
    }
}

proof fn lemma_insert_ranked_is_insert(s: Seq<ExtractedTopic>, e: ExtractedTopic)
    ensures
        insert_ranked(s, e) == s.insert(rank_pos(s, e.confidence), e),
    decreases s.len(),
{
    lemma_rank_pos(s, e.confidence);
    s.insert_ensures(rank_pos(s, e.confidence), e);
    if s.len() == 0 {
        assert(insert_ranked(s, e) =~= s.insert(0, e));
    } else if s[0].confidence >= e.confidence {
        lemma_insert_ranked_is_insert(s.drop_first(), e);
        let p = rank_pos(s, e.confidence);
        lemma_rank_pos(s.drop_first(), e.confidence);
        s.drop_first().insert_ensures(p - 1, e);
        assert forall|j: int|
            0 <= j < s.insert(p, e).len() implies (seq![s[0]] + s.drop_first().insert(
            p - 1,
            e,
        ))[j] == s.insert(p, e)[j] by {
            if j == 0 {
            } else if j < p {
                assert(s.drop_first().insert(p - 1, e)[j - 1] == s.drop_first()[j - 1]);
                assert(s.drop_first()[j - 1] == s[j]);
                assert(s.insert(p, e)[j] == s[j]);
            } else if j == p {
                assert(s.drop_first().insert(p - 1, e)[p - 1] == e);
            } else {
                assert(s.drop_first().insert(p - 1, e)[(j - 2) + 1] == s.drop_first()[j - 2]);
                assert(s.drop_first()[j - 2] == s[j - 1]);
                assert(s.insert(p, e)[(j - 1) + 1] == s[j - 1]);
            }
        }
        assert(insert_ranked(s, e) =~= s.insert(p, e));
    } else {
        assert forall|j: int| 0 <= j < s.insert(0, e).len() implies (seq![e] + s)[j] == s.insert(
            0,
            e,
        )[j] by {
            if j > 0 {
                assert(s.insert(0, e)[(j - 1) + 1] == s[j - 1]);
            }
        }
        assert(insert_ranked(s, e) =~= s.insert(0, e));
    }
}

proof fn lemma_insert_ranked_sorted(s: Seq<ExtractedTopic>, e: ExtractedTopic)
    requires
        sorted_desc(s),
    ensures
        sorted_desc(insert_ranked(s, e)),
{
    let p = rank_pos(s, e.confidence);
    lemma_rank_pos(s, e.confidence);
    lemma_insert_ranked_is_insert(s, e);
    s.insert_ensures(p, e);
    let r = insert_ranked(s, e);
    assert forall|i: int, j: int| 0 <= i <= j < r.len() implies r[i].confidence
        >= r[j].confidence by {
        if i < p && j < p {
            assert(r[i] == s[i] && r[j] == s[j]);
        } else if i < p && j == p {
            assert(r[i] == s[i]);
        } else if i < p && j > p {
            assert(r[i] == s[i]);
            assert(r[j] == s[j - 1]);
            assert(s[j - 1].confidence <= s[p].confidence);
        } else if i == p && j == p {
        } else if i == p && j > p {
            assert(r[j] == s[j - 1]);
            assert(s[j - 1].confidence <= s[p].confidence);
        } else {
            assert(r[i] == s[i - 1] && r[j] == s[j - 1]);
        }
    }
}

proof fn lemma_ranked_matches_sorted(catalog: Seq<Topic>, text: Seq<u8>)
    ensures
        sorted_desc(ranked_matches(catalog, text)),
    decreases catalog.len(),
{
    if catalog.len() == 0 {
    } else {
        lemma_ranked_matches_sorted(catalog.drop_last(), text);
        let t = catalog.last();
        if total_matches(text, t.keywords.deep_view()) > 0 {
            lemma_insert_ranked_sorted(ranked_matches(catalog.drop_last(), text), entry_of(t, text));
        }
    }
}

proof fn lemma_ranked_matches_elems(catalog: Seq<Topic>, text: Seq<u8>)
    ensures
        forall|j: int|
            0 <= j < ranked_matches(catalog, text).len() ==> exists|i: int|
                0 <= i < catalog.len() && total_matches(text, catalog[i].keywords.deep_view()) > 0
                    && #[trigger] ranked_matches(catalog, text)[j] == entry_of(catalog[i], text),
    decreases catalog.len(),
{
    if catalog.len() == 0 {
    } else {
        lemma_ranked_matches_elems(catalog.drop_last(), text);
        let prev = ranked_matches(catalog.drop_last(), text);
        let t = catalog.last();
        let r = ranked_matches(catalog, text);
        if total_matches(text, t.keywords.deep_view()) > 0 {
            let e = entry_of(t, text);
            let p = rank_pos(prev, e.confidence);
            lemma_rank_pos(prev, e.confidence);
            lemma_insert_ranked_is_insert(prev, e);
            prev.insert_ensures(p, e);
            assert forall|j: int| 0 <= j < r.len() implies exists|i: int|
                0 <= i < catalog.len() && total_matches(text, catalog[i].keywords.deep_view()) > 0
                    && #[trigger] r[j] == entry_of(catalog[i], text) by {
                if j == p {
                    assert(r[j] == e);
                    assert(catalog[catalog.len() - 1] == t);
                    assert(r[j] == entry_of(catalog[catalog.len() - 1], text));
                } else {
                    let jp = if j < p {
                        j
                    } else {
                        j - 1
                    };
                    assert(r[j] == prev[jp]);
                    let i = choose|i: int|
                        0 <= i < catalog.drop_last().len() && total_matches(
                            text,
                            catalog.drop_last()[i].keywords.deep_view(),
                        ) > 0 && #[trigger] prev[jp] == entry_of(catalog.drop_last()[i], text);
                    assert(catalog.drop_last()[i] == catalog[i]);
                    assert(r[j] == entry_of(catalog[i], text));
                }
            }
        } else {
            assert forall|j: int| 0 <= j < r.len() implies exists|i: int|
                0 <= i < catalog.len() && total_matches(text, catalog[i].keywords.deep_view()) > 0
                    && #[trigger] r[j] == entry_of(catalog[i], text) by {
                let i = choose|i: int|
                    0 <= i < catalog.drop_last().len() && total_matches(
                        text,
                        catalog.drop_last()[i].keywords.deep_view(),
                    ) > 0 && #[trigger] prev[j] == entry_of(catalog.drop_last()[i], text);
                assert(catalog.drop_last()[i] == catalog[i]);
                assert(r[j] == entry_of(catalog[i], text));
            }
        }
    }
}

proof fn lemma_ranked_matches_distinct(catalog: Seq<Topic>, text: Seq<u8>)
    requires
        distinct_catalog_ids(catalog),
    ensures
        distinct_topic_ids(ranked_matches(catalog, text)),
    decreases catalog.len(),
{
    if catalog.len() == 0 {
    } else {
        assert forall|i: int, j: int|
            0 <= i < j < catalog.drop_last().len() implies catalog.drop_last()[i].id
            != catalog.drop_last()[j].id by {
            assert(catalog.drop_last()[i] == catalog[i]);
            assert(catalog.drop_last()[j] == catalog[j]);
        }
        lemma_ranked_matches_distinct(catalog.drop_last(), text);
        lemma_ranked_matches_elems(catalog.drop_last(), text);
        let prev = ranked_matches(catalog.drop_last(), text);
        let t = catalog.last();
        let r = ranked_matches(catalog, text);
        if total_matches(text, t.keywords.deep_view()) > 0 {
            let e = entry_of(t, text);
            let p = rank_pos(prev, e.confidence);
            lemma_rank_pos(prev, e.confidence);
            lemma_insert_ranked_is_insert(prev, e);
            prev.insert_ensures(p, e);
            assert forall|a: int| 0 <= a < prev.len() implies prev[a].topic_id != t.id by {
                let i = choose|i: int|
                    0 <= i < catalog.drop_last().len() && total_matches(
                        text,
                        catalog.drop_last()[i].keywords.deep_view(),
                    ) > 0 && #[trigger] prev[a] == entry_of(catalog.drop_last()[i], text);
                assert(catalog.drop_last()[i] == catalog[i]);
                assert(prev[a].topic_id == catalog[i].id);
                assert(catalog[i].id != catalog[catalog.len() - 1].id);
            }
            assert forall|i: int, j: int| 0 <= i < j < r.len() implies r[i].topic_id
                != r[j].topic_id by {
                let ip = if i < p {
                    i
                } else {
                    i - 1
                };
                let jp = if j < p {
                    j
                } else {
                    j - 1
                };
                if i == p {
                    assert(r[j] == prev[jp]);
                } else if j == p {
                    assert(r[i] == prev[ip]);
                } else {
                    assert(r[i] == prev[ip] && r[j] == prev[jp]);
                }
            }
        }
    }
}

/// Score free text against the catalog and return the ranked topic list,
/// capped at five entries. The text is lower-cased here, once; keywords
/// are matched as they stand. The result is sorted by confidence
/// descending with ties in catalog order, a topic with no keyword hit
/// never appears, and each entry's confidence is exactly
/// `min(20 * mentions, 100)` hundredths.
pub fn extract_topics(text: &[u8], catalog: &Vec<Topic>) -> (r: Vec<ExtractedTopic>)
    ensures
        r@ == top_five(ranked_matches(catalog@, lower_bytes(text@))),
        r@.len() <= 5,
        sorted_desc(r@),
        forall|j: int| 0 <= j < r@.len() ==> (#[trigger] r@[j].mentions) > 0,
        forall|j: int|
            0 <= j < r@.len() ==> (#[trigger] r@[j].confidence) == (if r@[j].mentions >= 5 {
                100u32
            } else {
                (20 * r@[j].mentions) as u32
            }),
        distinct_catalog_ids(catalog@) ==> distinct_topic_ids(r@),
{
    let lowered = to_lower(text);
    let ghost low = lower_bytes(text@);
    let mut out: Vec<ExtractedTopic> = Vec::new();
    let mut i: usize = 0;
    while i < catalog.len()
        invariant
            0 <= i <= catalog@.len(),
            lowered@ == low,
            out@ == ranked_matches(catalog@.take(i as int), low),
        decreases catalog@.len() - i,
    {
        let total = total_whole_word(lowered.as_slice(), &catalog[i].keywords);
        proof {
            assert(catalog@.take(i + 1).drop_last() =~= catalog@.take(i as int));
            assert(catalog@.take(i + 1).last() == catalog@[i as int]);
        }
        if total > 0 {
            let mentions: u32 = if total > 0xffff_ffffu64 {
                0xffff_ffffu32
            } else {
                total as u32
            };
            let confidence: u32 = if mentions >= 5 {
                100
            } else {
                20 * mentions
            };
            let e = ExtractedTopic {
                topic_id: catalog[i].id,
                topic_name: catalog[i].name.clone(),
                confidence,
                mentions,
            };
            proof {
                assert(e == entry_of(catalog@[i as int], low));
            }
            let mut p: usize = 0;
            while p < out.len() && out[p].confidence >= e.confidence
                invariant
                    0 <= p <= out@.len(),
                    forall|k: int| 0 <= k < p ==> out@[k].confidence >= e.confidence,
                decreases out@.len() - p,
            {
                p += 1;
            }
            proof {
                lemma_rank_pos_unique(out@, e.confidence, p as int);
                lemma_insert_ranked_is_insert(out@, e);
            }
            out.insert(p, e);
        }
        i += 1;
    }
    proof {
        assert(catalog@.take(catalog@.len() as int) =~= catalog@);
        lemma_ranked_matches_sorted(catalog@, low);
        lemma_ranked_matches_elems(catalog@, low);
        if distinct_catalog_ids(catalog@) {
            lemma_ranked_matches_distinct(catalog@, low);
        }
    }
    if out.len() > 5 {
        out.truncate(5);
        proof {
            assert(out@ =~= top_five(ranked_matches(catalog@, low)));
        }
    }
    proof {
        let full = ranked_matches(catalog@, low);
        assert forall|j: int| 0 <= j < out@.len() implies (#[trigger] out@[j].mentions) > 0 && (
        out@[j].confidence) == (if out@[j].mentions >= 5 {
            100u32
        } else {
            (20 * out@[j].mentions) as u32
        }) by {
            assert(out@[j] == full[j]);
            let i = choose|i: int|
                0 <= i < catalog@.len() && total_matches(low, catalog@[i].keywords.deep_view()) > 0
                    && #[trigger] full[j] == entry_of(catalog@[i], low);
        }
    }
    out
}

} // verus!
