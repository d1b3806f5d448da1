//! Per-platform adapters: each turns one platform's wire-level fields into
//! the unified raw item the shared ingestion consumes, plus the numeric
//! count parsing and author lookup those conversions need.

use vstd::prelude::*;
use crate::ingest::{AuthorInfo, PublishedAt, RawItem};
use crate::store::{ContentKind, Platform};

verus! {

/// An ASCII decimal digit.
pub open spec fn is_digit_byte(b: u8) -> bool {
    48 <= b && b <= 57
}

/// A non-empty, all-digit byte string.
pub open spec fn all_digits(s: Seq<u8>) -> bool {
    s.len() > 0 && (forall|i: int| 0 <= i < s.len() ==> is_digit_byte(#[trigger] s[i]))
}

/// The decimal value of a digit string.
pub open spec fn digits_value(s: Seq<u8>) -> int
    decreases s.len(),
{
    if s.len() == 0 {
        0
    } else {
        digits_value(s.drop_last()) * 10 + (s.last() - 48)
    }
}

proof fn lemma_digits_nonneg(s: Seq<u8>)
    requires
        forall|i: int| 0 <= i < s.len() ==> is_digit_byte(#[trigger] s[i]),
    ensures
        digits_value(s) >= 0,
    decreases s.len(),
{
    if s.len() > 0 {
        assert forall|i: int| 0 <= i < s.drop_last().len() implies is_digit_byte(
            #[trigger] s.drop_last()[i],
        ) by {
            assert(s.drop_last()[i] == s[i]);
        }
        lemma_digits_nonneg(s.drop_last());
    }
}

proof fn lemma_digits_prefix(s: Seq<u8>, k: int)
    requires
        0 <= k <= s.len(),
        forall|i: int| 0 <= i < s.len() ==> is_digit_byte(#[trigger] s[i]),
    ensures
        digits_value(s) >= digits_value(s.take(k)),
    decreases s.len() - k,
{
    if k == s.len() {
        assert(s.take(k) =~= s);
    } else {
        lemma_digits_prefix(s, k + 1);
        assert(s.take(k + 1).drop_last() =~= s.take(k));
        assert(s.take(k + 1).last() == s[k]);
        assert forall|i: int| 0 <= i < s.take(k).len() implies is_digit_byte(
            #[trigger] s.take(k)[i],
        ) by {
            assert(s.take(k)[i] == s[i]);
        }
        lemma_digits_nonneg(s.take(k));
        assert(digits_value(s.take(k + 1)) == digits_value(s.take(k)) * 10 + (s[k] - 48));
    }
}

/// Parse a non-negative decimal count, as the video platform reports its
/// statistics. `Some` exactly for a non-empty all-digit string whose value
/// fits a signed 64-bit integer; the value is exact.
pub fn parse_count(s: &[u8]) -> (r: Option<i64>)
    ensures
        (r is Some) <==> (all_digits(s@) && digits_value(s@) <= i64::MAX),
        r matches Some(v) ==> v == digits_value(s@),
{
    if s.len() == 0 {
        return None;
    }
    let mut acc: i64 = 0;
    let mut i: usize = 0;
    while i < s.len()
        invariant
            0 <= i <= s@.len(),
            forall|k: int| 0 <= k < i ==> is_digit_byte(#[trigger] s@[k]),
            acc == digits_value(s@.take(i as int)),
            0 <= acc,
        decreases s@.len() - i,
    {
        let b = s[i];
        if b < 48 || b > 57 {
            proof {
                assert(!is_digit_byte(s@[i as int]));
            }
            return None;
        }
        let d = (b - 48) as i64;
        if acc > (i64::MAX - d) / 10 {
            proof {
                assert(digits_value(s@.take(i + 1)) == acc * 10 + d) by {
                    assert(s@.take(i + 1).drop_last() =~= s@.take(i as int));
                    assert(s@.take(i + 1).last() == s@[i as int]);
                }
                assert(acc * 10 + d > i64::MAX) by {
                    let q = (i64::MAX - d) / 10;
                    assert(i64::MAX - d == q * 10 + (i64::MAX - d) % 10) by {
                        vstd::arithmetic::div_mod::lemma_fundamental_div_mod(
                            i64::MAX - d,
                            10,
                        );
                    }
                    assert(acc * 10 >= (q + 1) * 10) by (nonlinear_arith)
                        requires
                            acc >= q + 1,
                    ;
                }
                if all_digits(s@) {
                    lemma_digits_prefix(s@, i + 1);
                }
            }
            return None;
        }
        proof {
            let q = (i64::MAX - d) / 10;
            assert(i64::MAX - d == q * 10 + (i64::MAX - d) % 10) by {
                vstd::arithmetic::div_mod::lemma_fundamental_div_mod(i64::MAX - d, 10);
            }
            assert(acc * 10 <= q * 10) by (nonlinear_arith)
                requires
                    acc <= q,
            ;
            assert(digits_value(s@.take(i + 1)) == acc * 10 + d) by {
                assert(s@.take(i + 1).drop_last() =~= s@.take(i as int));
                assert(s@.take(i + 1).last() == s@[i as int]);
            }
        }
        acc = acc * 10 + d;
        i += 1;
    }
    proof {
        assert(s@.take(s@.len() as int) =~= s@);
    }
    Some(acc)
}

/// One short-post author profile as the platform's user expansion reports
/// it.
pub struct UserProfile {
    pub user_id: String,
    pub username: String,
    pub display_name: String,
    pub follower_count: Option<i64>,
}

/// Some entry of `s` has this user id.
pub open spec fn has_profile(s: Seq<UserProfile>, id: Seq<char>) -> bool {
    exists|i: int| 0 <= i < s.len() && (#[trigger] s[i]).user_id@ == id
}

/// The last entry of `s` with this user id (later entries win, as
/// inserting into a map overwrites).
pub open spec fn last_profile(s: Seq<UserProfile>, id: Seq<char>) -> UserProfile
    decreases s.len(),
{
    if s.len() == 0 {
        arbitrary()
    } else if s.last().user_id@ == id {
        s.last()
    } else {
        last_profile(s.drop_last(), id)
    }
}

proof fn lemma_last_profile_hit(s: Seq<UserProfile>, id: Seq<char>, j: int)
    requires
        0 <= j < s.len(),
        s[j].user_id@ == id,
        forall|k: int| j < k < s.len() ==> (#[trigger] s[k]).user_id@ != id,
    ensures
        last_profile(s, id) == s[j],
    decreases s.len(),
{
    if j == s.len() - 1 {
    } else {
        assert(s.drop_last()[j] == s[j]);
        assert forall|k: int| j < k < s.drop_last().len() implies (#[trigger] s.drop_last()[k]).user_id@
            != id by {
            assert(s.drop_last()[k] == s[k]);
        }
        lemma_last_profile_hit(s.drop_last(), id, j);
    }
}

/// The author profiles of one search response, looked up by user id.
pub struct UsersIndex {
    pub entries: Vec<UserProfile>,
}

/// Index the user expansion of a search response for author lookup.
pub fn build_users_map(users: Vec<UserProfile>) -> (m: UsersIndex)
    ensures
        m.entries@ == users@,
{
    UsersIndex { entries: users }
}

impl UsersIndex {
    /// The profile with this user id, if any; when the expansion repeated
    /// an id, the last profile wins.
    pub fn get(&self, id: &String) -> (r: Option<&UserProfile>)
        ensures
            (r is Some) <==> has_profile(self.entries@, id@),
            r matches Some(u) ==> *u == last_profile(self.entries@, id@),
    {
        let mut i: usize = self.entries.len();
        while i > 0
            invariant
                0 <= i <= self.entries@.len(),
                forall|k: int|
                    i <= k < self.entries@.len() ==> (#[trigger] self.entries@[k]).user_id@ != id@,
            decreases i,
        {
            if self.entries[i - 1].user_id == *id {
                proof {
                    lemma_last_profile_hit(self.entries@, id@, i - 1);
                }
                return Some(&self.entries[i - 1]);
            }
            i -= 1;
        }
        None
    }
}

/// Normalize one forum post: the author name keys the creator, title and
/// body become the text, the score and comment counters carry over, and
/// the publish time arrives as epoch seconds.
pub fn post_raw_item(
    id: String,
    author: String,
    title: Vec<u8>,
    selftext: Vec<u8>,
    score: i64,
    num_comments: i64,
    created_utc: i64,
) -> (r: RawItem)
    ensures
        r.platform == Platform::Reddit,
        r.platform_id == id,
        r.author.platform_author_id == author,
        r.author.username == Some(author),
        r.author.display_name is None,
        r.author.follower_count is None,
        r.content_type == ContentKind::Post,
        r.primary_text == title,
        r.secondary_text == selftext,
        r.likes == score,
        r.comments == num_comments,
        r.shares == 0,
        r.views is None,
        r.published == PublishedAt::EpochSeconds(created_utc),
{
    RawItem {
        platform: Platform::Reddit,
        platform_id: id,
        author: AuthorInfo {
            platform_author_id: author.clone(),
            username: Some(author),
            display_name: None,
            follower_count: None,
        },
        content_type: ContentKind::Post,
        primary_text: title,
        secondary_text: selftext,
        likes: score,
        comments: num_comments,
        shares: 0,
        views: None,
        published: PublishedAt::EpochSeconds(created_utc),
    }
}

/// The public engagement metrics of one short post.
pub struct TweetMetrics {
    pub like_count: i64,
    pub reply_count: i64,
    pub retweet_count: i64,
    pub impression_count: Option<i64>,
}

/// Normalize one short post: the author id keys the creator, the resolved
/// profile (when the expansion carried one) supplies name and follower
/// count, absent metrics default to zero except impressions, and the
/// publish time arrives as ISO text when present.
pub fn tweet_raw_item(
    id: String,
    text: Vec<u8>,
    author_id: String,
    created_at: Option<String>,
    metrics: Option<TweetMetrics>,
    author: Option<&UserProfile>,
) -> (r: RawItem)
    ensures
        r.platform == Platform::X,
        r.platform_id == id,
        r.author.platform_author_id == author_id,
        (match author {
            Some(u) => {
                &&& r.author.username == Some(u.username)
                &&& r.author.display_name == Some(u.display_name)
                &&& r.author.follower_count == u.follower_count
            },
            None => {
                &&& r.author.username is None
                &&& r.author.display_name is None
                &&& r.author.follower_count is None
            },
        }),
        r.content_type == ContentKind::Post,
        r.primary_text == text,
        r.secondary_text@.len() == 0,
        (match metrics {
            Some(m) => r.likes == m.like_count && r.comments == m.reply_count && r.shares
                == m.retweet_count && r.views == m.impression_count,
            None => r.likes == 0 && r.comments == 0 && r.shares == 0 && r.views is None,
        }),
        (match created_at {
            Some(t) => r.published == PublishedAt::Iso(t),
            None => r.published == PublishedAt::Absent,
        }),
{
    let (username, display_name, follower_count) = match author {
        Some(u) => (
            Some(u.username.clone()),
            Some(u.display_name.clone()),
            match u.follower_count {
                Some(n) => Some(n),
                None => None,
            },
        ),
        None => (None, None, None),
    };
    let (likes, comments, shares, views) = match metrics {
        Some(m) => (
            m.like_count,
            m.reply_count,
            m.retweet_count,
            m.impression_count,
        ),
        None => (0, 0, 0, None),
    };
    let published = match created_at {
        Some(t) => PublishedAt::Iso(t),
        None => PublishedAt::Absent,
    };
    RawItem {
        platform: Platform::X,
        platform_id: id,
        author: AuthorInfo {
            platform_author_id: author_id,
            username,
            display_name,
            follower_count,
        },
        content_type: ContentKind::Post,
        primary_text: text,
        secondary_text: Vec::new(),
        likes,
        comments,
        shares,
        views,
        published,
    }
}

/// The statistics of one video, as decimal strings the way the platform
/// reports them.
pub struct VideoStats {
    pub view_count: Option<Vec<u8>>,
    pub like_count: Option<Vec<u8>>,
    pub comment_count: Option<Vec<u8>>,
}

/// The count a statistics string contributes when a missing or unparsable
/// value defaults to zero.
pub open spec fn count_or_zero(o: Option<Seq<u8>>) -> i64 {
    match o {
        Some(s) => if all_digits(s) && digits_value(s) <= i64::MAX {
            digits_value(s) as i64
        } else {
            0
        },
        None => 0,
    }
}

/// The count a statistics string contributes when a missing or unparsable
/// value stays absent.
pub open spec fn count_or_none(o: Option<Seq<u8>>) -> Option<i64> {
    match o {
        Some(s) => if all_digits(s) && digits_value(s) <= i64::MAX {
            Some(digits_value(s) as i64)
        } else {
            None
        },
        None => None,
    }
}

/// The view of an optional byte string.
pub open spec fn opt_bytes(o: Option<Vec<u8>>) -> Option<Seq<u8>> {
    match o {
        Some(v) => Some(v@),
        None => None,
    }
}

/// Normalize one video: the channel keys the creator (its title as display
/// name), title and description become the text, the decimal statistics
/// are parsed (views stay absent when unreported, the other counters
/// default to zero), and the publish time arrives as ISO text.
pub fn video_raw_item(
    id: String,
    channel_id: String,
    channel_title: String,
    title: Vec<u8>,
    description: Option<Vec<u8>>,
    published_at: String,
    stats: Option<VideoStats>,
) -> (r: RawItem)
    ensures
        r.platform == Platform::YouTube,
        r.platform_id == id,
        r.author.platform_author_id == channel_id,
        r.author.username == Some(channel_id),
        r.author.display_name == Some(channel_title),
        r.author.follower_count is None,
        r.content_type == ContentKind::Video,
        r.primary_text == title,
        (match description {
            Some(d) => r.secondary_text == d,
            None => r.secondary_text@.len() == 0,
        }),
        (match stats {
            Some(st) => {
                &&& r.likes == count_or_zero(opt_bytes(st.like_count))
                &&& r.comments == count_or_zero(opt_bytes(st.comment_count))
                &&& r.views == count_or_none(opt_bytes(st.view_count))
            },
            None => r.likes == 0 && r.comments == 0 && r.views is None,
        }),
        r.shares == 0,
        r.published == PublishedAt::Iso(published_at),
{
    let secondary = match description {
        Some(d) => d,
        None => Vec::new(),
    };
    let (views, likes, comments) = match stats {
        Some(st) => {
            let views = match st.view_count {
                Some(v) => parse_count(v.as_slice()),
                None => None,
            };
            let likes = match st.like_count {
                Some(v) => match parse_count(v.as_slice()) {
                    Some(n) => n,
                    None => 0,
                },
                None => 0,
            };
            let comments = match st.comment_count {
                Some(v) => match parse_count(v.as_slice()) {
                    Some(n) => n,
                    None => 0,
                },
                None => 0,
            };
            (views, likes, comments)
        },
        None => (None, 0, 0),
    };
    RawItem {
        platform: Platform::YouTube,
        platform_id: id,
        author: AuthorInfo {
            platform_author_id: channel_id.clone(),
            username: Some(channel_id),
            display_name: Some(channel_title),
            follower_count: None,
        },
        content_type: ContentKind::Video,
        primary_text: title,
        secondary_text: secondary,
        likes,
        comments,
        shares: 0,
        views,
        published: PublishedAt::Iso(published_at),
    }
}

} // verus!
