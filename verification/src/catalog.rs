//! The seeded topic catalog: slug derivation and the default topic set
//! created on a store's first run.

use vstd::prelude::*;
use crate::store::{Store, Topic};
use vstd::string::{StrSliceExecFns, StringSliceAdditionalSpecFns};

verus! {

/// An ASCII letter or digit; everything else separates slug words.
pub open spec fn is_alnum_byte(b: u8) -> bool {
    (97 <= b && b <= 122) || (65 <= b && b <= 90) || (48 <= b && b <= 57)
}

/// The slug of `s` from position `i` on: lower-cased alphanumeric runs
/// joined by single dashes, with no leading or trailing dash. `emitted`
/// records whether a word has been written already, `gap` whether a
/// separator byte was crossed since.
pub open spec fn slug_from(s: Seq<u8>, i: int, emitted: bool, gap: bool) -> Seq<u8>
    decreases s.len() - i,
{
    if i < 0 || i >= s.len() {
        Seq::empty()
    } else if is_alnum_byte(s[i]) {
        (if emitted && gap {
            seq![45u8]
        } else {
            Seq::empty()
        }) + seq![crate::text::lower_byte(s[i])] + slug_from(s, i + 1, true, false)
    } else {
        slug_from(s, i + 1, emitted, true)
    }
}

/// The slug of a whole byte string.
pub open spec fn slug_of(s: Seq<u8>) -> Seq<u8> {
    slug_from(s, 0, false, false)
}

/// Derive a slug: lower-case the alphanumeric runs of `text` and join them
/// with single dashes, dropping every other byte.
pub fn slugify(text: &[u8]) -> (r: Vec<u8>)
    ensures
        r@ == slug_of(text@),
{
    let mut r: Vec<u8> = Vec::new();
    let mut i: usize = 0;
    let mut emitted = false;
    let mut gap = false;
    while i < text.len()
        invariant
            0 <= i <= text@.len(),
            slug_of(text@) == r@ + slug_from(text@, i as int, emitted, gap),
            !emitted ==> r@.len() == 0,
        decreases text@.len() - i,
    {
        let b = text[i];
        if (97 <= b && b <= 122) || (65 <= b && b <= 90) || (48 <= b && b <= 57) {
            if emitted && gap {
                r.push(45);
            }
            if 65 <= b && b <= 90 {
                r.push(b + 32);
            } else {
                r.push(b);
            }
            emitted = true;
            gap = false;
        } else {
            gap = true;
        }
        i += 1;
    }
    r
}

/// One seed topic: a name and the keyword list used for matching.
pub struct TopicSeed {
    pub name: String,
    pub keywords: Vec<Vec<u8>>,
}

fn kw(words: &[&str]) -> (r: Vec<Vec<u8>>)
    ensures
        r@.len() == words@.len(),
        forall|i: int| 0 <= i < words@.len() ==> (#[trigger] r@[i])@ == words@[i].spec_bytes(),
{
    let mut r: Vec<Vec<u8>> = Vec::new();
    let mut i: usize = 0;
    while i < words.len()
        invariant
            0 <= i <= words@.len(),
            r@.len() == i,
            forall|k: int| 0 <= k < i ==> (#[trigger] r@[k])@ == words@[k].spec_bytes(),
        decreases words@.len() - i,
    {
        r.push(words[i].as_bytes_vec());
        i += 1;
    }
    r
}

/// The keyword list `ks` holds exactly the words `ws`, in order, as their
/// byte renderings.
pub open spec fn keywords_are(ks: Seq<Vec<u8>>, ws: Seq<&str>) -> bool {
    ks.len() == ws.len() && (forall|i: int|
        0 <= i < ws.len() ==> (#[trigger] ks[i])@ == ws[i].spec_bytes())
}

/// The default topic set seeded into an empty store: ten single-level
/// topics, each with its keyword list.
pub fn default_topic_seeds() -> (r: Vec<TopicSeed>)
    ensures
        r@.len() == 10,
        r@[0].name@ == "Cryptocurrency"@ && keywords_are(
            r@[0].keywords@,
            seq!["bitcoin", "btc", "ethereum", "eth", "crypto", "blockchain", "defi", "nft"],
        ),
        r@[1].name@ == "Stocks & Investing"@ && keywords_are(
            r@[1].keywords@,
            seq!["stock", "invest", "dividend", "portfolio", "etf", "nasdaq", "trading"],
        ),
        r@[2].name@ == "Real Estate"@ && keywords_are(
            r@[2].keywords@,
            seq!["real estate", "property", "mortgage", "rental", "landlord", "housing", "reit"],
        ),
        r@[3].name@ == "Side Hustles"@ && keywords_are(
            r@[3].keywords@,
            seq!["side hustle", "passive income", "freelance", "gig", "dropshipping", "affiliate"],
        ),
        r@[4].name@ == "Artificial Intelligence"@ && keywords_are(
            r@[4].keywords@,
            seq!["ai", "artificial intelligence", "machine learning", "chatgpt", "llm", "openai"],
        ),
        r@[5].name@ == "Gaming"@ && keywords_are(
            r@[5].keywords@,
            seq!["gaming", "gamer", "esports", "twitch", "steam", "playstation", "xbox"],
        ),
        r@[6].name@ == "Fitness & Health"@ && keywords_are(
            r@[6].keywords@,
            seq!["fitness", "gym", "workout", "health", "nutrition", "diet", "protein"],
        ),
        r@[7].name@ == "Personal Finance"@ && keywords_are(
            r@[7].keywords@,
            seq!["budget", "savings", "debt", "fire", "retire", "financial", "credit"],
        ),
        r@[8].name@ == "Entrepreneurship"@ && keywords_are(
            r@[8].keywords@,
            seq!["startup", "entrepreneur", "business", "founder", "saas", "bootstrap"],
        ),
        r@[9].name@ == "Content Creation"@ && keywords_are(
            r@[9].keywords@,
            seq![
                "youtube",
                "content creator",
                "influencer",
                "subscriber",
                "viral",
                "monetization",
            ],
        ),
{
    let mut seeds: Vec<TopicSeed> = Vec::new();
    seeds.push(
        TopicSeed {
            name: "Cryptocurrency".to_owned(),
            keywords: kw(
                &["bitcoin", "btc", "ethereum", "eth", "crypto", "blockchain", "defi", "nft"],
            ),
        },
    );
    seeds.push(
        TopicSeed {
            name: "Stocks & Investing".to_owned(),
            keywords: kw(&["stock", "invest", "dividend", "portfolio", "etf", "nasdaq", "trading"]),
        },
    );
    seeds.push(
        TopicSeed {
            name: "Real Estate".to_owned(),
            keywords: kw(
                &["real estate", "property", "mortgage", "rental", "landlord", "housing", "reit"],
            ),
        },
    );
    seeds.push(
        TopicSeed {
            name: "Side Hustles".to_owned(),
            keywords: kw(
                &["side hustle", "passive income", "freelance", "gig", "dropshipping", "affiliate"],
            ),
        },
    );
    seeds.push(
        TopicSeed {
            name: "Artificial Intelligence".to_owned(),
            keywords: kw(
                &["ai", "artificial intelligence", "machine learning", "chatgpt", "llm", "openai"],
            ),
        },
    );
    seeds.push(
        TopicSeed {
            name: "Gaming".to_owned(),
            keywords: kw(&["gaming", "gamer", "esports", "twitch", "steam", "playstation", "xbox"]),
        },
    );
    seeds.push(
        TopicSeed {
            name: "Fitness & Health".to_owned(),
            keywords: kw(&["fitness", "gym", "workout", "health", "nutrition", "diet", "protein"]),
        },
    );
    seeds.push(
        TopicSeed {
            name: "Personal Finance".to_owned(),
            keywords: kw(&["budget", "savings", "debt", "fire", "retire", "financial", "credit"]),
        },
    );
    seeds.push(
        TopicSeed {
            name: "Entrepreneurship".to_owned(),
            keywords: kw(&["startup", "entrepreneur", "business", "founder", "saas", "bootstrap"]),
        },
    );
    seeds.push(
        TopicSeed {
            name: "Content Creation".to_owned(),
            keywords: kw(
                &[
                    "youtube",
                    "content creator",
                    "influencer",
                    "subscriber",
                    "viral",
                    "monetization",
                ],
            ),
        },
    );
    seeds
}

/// Seed the catalog: when the store holds no topics yet, create one topic
/// per seed, in order, with ids equal to their positions and slugs derived
/// from the names; when topics exist already, change nothing.
pub fn seed_topics(store: &mut Store, seeds: Vec<TopicSeed>, now: &String)
    requires
        old(store).wf(),
    ensures
        final(store).wf(),
        old(store).topics@.len() > 0 ==> *final(store) == *old(store),
        old(store).topics@.len() == 0 ==> {
            &&& final(store).topics@.len() == seeds@.len()
            &&& forall|i: int|
                0 <= i < seeds@.len() ==> {
                    &&& (#[trigger] final(store).topics@[i]).id == i
                    &&& final(store).topics@[i].name == seeds@[i].name
                    &&& final(store).topics@[i].keywords == seeds@[i].keywords
                    &&& final(store).topics@[i].slug@ == slug_of(
                        vstd::utf8::encode_utf8(seeds@[i].name@),
                    )
                    &&& final(store).topics@[i].parent_topic_id is None
                    &&& final(store).topics@[i].aliases@.len() == 0
                    &&& final(store).topics@[i].created_at == *now
                }
        },
        final(store).creators@ == old(store).creators@,
        final(store).content@ == old(store).content@,
        final(store).content_topics@ == old(store).content_topics@,
        final(store).cooccurrences@ == old(store).cooccurrences@,
{
    if store.topics.len() > 0 {
        return ;
    }
    let ghost all = seeds@;
    let mut seeds = seeds;
    while seeds.len() > 0
        invariant
            store.wf(),
            store.creators@ == old(store).creators@,
            store.content@ == old(store).content@,
            store.content_topics@ == old(store).content_topics@,
            store.cooccurrences@ == old(store).cooccurrences@,
            store.topics@.len() + seeds@.len() == all.len(),
            seeds@ == all.skip(store.topics@.len() as int),
            forall|i: int|
                0 <= i < store.topics@.len() ==> {
                    &&& (#[trigger] store.topics@[i]).id == i
                    &&& store.topics@[i].name == all[i].name
                    &&& store.topics@[i].keywords == all[i].keywords
                    &&& store.topics@[i].slug@ == slug_of(vstd::utf8::encode_utf8(all[i].name@))
                    &&& store.topics@[i].parent_topic_id is None
                    &&& store.topics@[i].aliases@.len() == 0
                    &&& store.topics@[i].created_at == *now
                },
        decreases seeds@.len(),
    {
        let seed = seeds.remove(0);
        proof {
            assert(seed == all[store.topics@.len() as int]);
            assert(seeds@ =~= all.skip(store.topics@.len() as int + 1));
        }
        let name_bytes = seed.name.as_str().as_bytes_vec();
        let slug = slugify(name_bytes.as_slice());
        let id = store.topics.len() as u64;
        let row = Topic {
            id,
            name: seed.name,
            slug,
            parent_topic_id: None,
            aliases: Vec::new(),
            keywords: seed.keywords,
            created_at: now.clone(),
        };
        store.topics.push(row);
    }
    proof {
        assert(all.skip(store.topics@.len() as int) =~= seeds@);
    }
}

} // verus!
