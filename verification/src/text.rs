//! Byte-level text primitives: ASCII lower-casing, whitespace trimming,
//! text normalization, and whole-word keyword counting.

use vstd::prelude::*;

verus! {

/// A word byte: ASCII letter, digit or underscore. Keyword occurrences must
/// be delimited on both sides by non-word bytes (or the ends of the text).
pub open spec fn is_word_byte(b: u8) -> bool {
    (97 <= b && b <= 122) || (65 <= b && b <= 90) || (48 <= b && b <= 57) || b == 95
}

/// Whether position `i` of `text` holds a word byte (out of range: no).
pub open spec fn word_at(text: Seq<u8>, i: int) -> bool {
    0 <= i < text.len() && is_word_byte(text[i])
}

/// A word boundary between positions `i - 1` and `i`.
pub open spec fn boundary_at(text: Seq<u8>, i: int) -> bool {
    word_at(text, i - 1) != word_at(text, i)
}

/// The keyword occurs at position `i` of `text`, delimited by word
/// boundaries on both sides.
pub open spec fn match_at(text: Seq<u8>, kw: Seq<u8>, i: int) -> bool {
    &&& 0 <= i
    &&& i + kw.len() <= text.len()
    &&& text.subrange(i, i + kw.len()) == kw
    &&& boundary_at(text, i)
    &&& boundary_at(text, i + kw.len())
}

/// Number of whole-word occurrences of `kw` in `text` from position `i` on,
/// counted left to right and non-overlapping: a match consumes its bytes.
pub open spec fn count_from(text: Seq<u8>, kw: Seq<u8>, i: int) -> nat
    decreases text.len() - i,
{
    if kw.len() <= 0 || i < 0 || i + kw.len() > text.len() {
        0
    } else if match_at(text, kw, i) {
        1 + count_from(text, kw, i + kw.len())
    } else {
        count_from(text, kw, i + 1)
    }
}

/// Number of whole-word occurrences of `kw` in `text`.
pub open spec fn count_matches(text: Seq<u8>, kw: Seq<u8>) -> nat {
    count_from(text, kw, 0)
}

proof fn lemma_count_from_bound(text: Seq<u8>, kw: Seq<u8>, i: int)
    ensures
        count_from(text, kw, i) <= text.len(),
        0 <= i <= text.len() ==> count_from(text, kw, i) + i <= text.len(),
    decreases text.len() - i,
{
    if kw.len() <= 0 || i < 0 || i + kw.len() > text.len() {
    } else if match_at(text, kw, i) {
        lemma_count_from_bound(text, kw, i + kw.len());
    } else {
        lemma_count_from_bound(text, kw, i + 1);
    }
}

fn is_word_b(b: u8) -> (r: bool)
    ensures
        r == is_word_byte(b),
{
    (97 <= b && b <= 122) || (65 <= b && b <= 90) || (48 <= b && b <= 57) || b == 95
}

fn match_at_exec(text: &[u8], kw: &[u8], i: usize) -> (r: bool)
    requires
        kw@.len() > 0,
        i + kw@.len() <= text@.len(),
    ensures
        r == match_at(text@, kw@, i as int),
{
    let text_len = text.len();
    let mut j: usize = 0;
    while j < kw.len()
        invariant
            0 <= j <= kw@.len(),
            kw@.len() > 0,
            i + kw@.len() <= text@.len(),
            text@.len() == text_len,
            forall|k: int| 0 <= k < j ==> text@[i + k] == kw@[k],
        decreases kw@.len() - j,
    {
        if text[i + j] != kw[j] {
            proof {
                assert(text@.subrange(i as int, i + kw@.len())[j as int] != kw@[j as int]);
            }
            return false;
        }
        j += 1;
    }
    proof {
        assert(text@.subrange(i as int, i + kw@.len()) =~= kw@);
    }
    let before_word = if i == 0 {
        false
    } else {
        is_word_b(text[i - 1])
    };
    let first_word = is_word_b(text[i]);
    if before_word == first_word {
        return false;
    }
    let end = i + kw.len();
    let last_word = is_word_b(text[end - 1]);
    let after_word = if end == text.len() {
        false
    } else {
        is_word_b(text[end])
    };
    last_word != after_word
}

/// Count whole-word occurrences of `kw` in `text`, left to right and
/// non-overlapping, as `count_matches` specifies. An empty keyword never
/// matches.
pub fn count_whole_word(text: &[u8], kw: &[u8]) -> (n: u64)
    ensures
        n == count_matches(text@, kw@),
{
    if kw.len() == 0 || kw.len() > text.len() {
        return 0;
    }
    let mut i: usize = 0;
    let mut n: u64 = 0;
    proof {
        lemma_count_from_bound(text@, kw@, 0);
    }
    while i <= text.len() - kw.len()
        invariant
            1 <= kw@.len() <= text@.len(),
            0 <= i <= text@.len(),
            n <= i,
            count_matches(text@, kw@) == n + count_from(text@, kw@, i as int),
        decreases text@.len() - i,
    {
        if match_at_exec(text, kw, i) {
            n += 1;
            i += kw.len();
        } else {
            i += 1;
        }
    }
    n
}

/// Total whole-word occurrences, summed across a list of keywords.
pub open spec fn total_matches(text: Seq<u8>, kws: Seq<Seq<u8>>) -> nat
    decreases kws.len(),
{
    if kws.len() == 0 {
        0
    } else {
        total_matches(text, kws.drop_last()) + count_matches(text, kws.last())
    }
}

/// Sum the whole-word occurrence counts of every keyword in `kws`,
/// saturating at `u64::MAX`.
pub fn total_whole_word(text: &[u8], kws: &Vec<Vec<u8>>) -> (n: u64)
    ensures
        n == if total_matches(text@, kws.deep_view()) <= u64::MAX {
            total_matches(text@, kws.deep_view()) as u64
        } else {
            u64::MAX
        },
{
    let mut n: u64 = 0;
    let mut i: usize = 0;
    while i < kws.len()
        invariant
            0 <= i <= kws@.len(),
            n == if total_matches(text@, kws.deep_view().take(i as int)) <= u64::MAX {
                total_matches(text@, kws.deep_view().take(i as int)) as u64
            } else {
                u64::MAX
            },
        decreases kws@.len() - i,
    {
        let c = count_whole_word(text, kws[i].as_slice());
        proof {
            assert(kws.deep_view().take(i + 1).drop_last() =~= kws.deep_view().take(i as int));
            assert(kws.deep_view().take(i + 1).last() == kws@[i as int]@);
        }
        n = n.saturating_add(c);
        i += 1;
    }
    proof {
        assert(kws.deep_view().take(kws@.len() as int) =~= kws.deep_view());
    }
    n
}

/// ASCII lower-casing of one byte.
pub open spec fn lower_byte(b: u8) -> u8 {
    if 65 <= b && b <= 90 {
        (b + 32) as u8
    } else {
        b
    }
}

/// ASCII lower-casing of a byte sequence; bytes outside `A`..`Z` are kept.
pub open spec fn lower_bytes(s: Seq<u8>) -> Seq<u8> {
    Seq::new(s.len(), |i: int| lower_byte(s[i]))
}

/// Lower-case the ASCII letters of `text`.
pub fn to_lower(text: &[u8]) -> (r: Vec<u8>)
    ensures
        r@ == lower_bytes(text@),
{
    let mut r: Vec<u8> = Vec::new();
    let mut i: usize = 0;
    while i < text.len()
        invariant
            0 <= i <= text@.len(),
            r@ == lower_bytes(text@).take(i as int),
        decreases text@.len() - i,
    {
        let b = text[i];
        if 65 <= b && b <= 90 {
            r.push(b + 32);
        } else {
            r.push(b);
        }
        proof {
            assert(r@ =~= lower_bytes(text@).take(i + 1));
        }
        i += 1;
    }
    proof {
        assert(lower_bytes(text@).take(text@.len() as int) =~= lower_bytes(text@));
    }
    r
}

/// An ASCII whitespace byte: space, or one of the control bytes tab through
/// carriage return.
pub open spec fn is_space_byte(b: u8) -> bool {
    b == 32 || (9 <= b && b <= 13)
}

/// How many whitespace bytes `s` starts with.
pub open spec fn leading_spaces(s: Seq<u8>) -> int
    decreases s.len(),
{
    if s.len() == 0 || !is_space_byte(s[0]) {
        0
    } else {
        1 + leading_spaces(s.drop_first())
    }
}

/// How many whitespace bytes `s` ends with.
pub open spec fn trailing_spaces(s: Seq<u8>) -> int
    decreases s.len(),
{
    if s.len() == 0 || !is_space_byte(s.last()) {
        0
    } else {
        1 + trailing_spaces(s.drop_last())
    }
}

/// `s` without its leading and trailing whitespace.
pub open spec fn trim_spec(s: Seq<u8>) -> Seq<u8> {
    let lo = leading_spaces(s);
    let rest = s.skip(lo);
    rest.take(rest.len() - trailing_spaces(rest))
}

proof fn lemma_leading_spaces_bound(s: Seq<u8>)
    ensures
        0 <= leading_spaces(s) <= s.len(),
        forall|k: int| 0 <= k < leading_spaces(s) ==> is_space_byte(s[k]),
        leading_spaces(s) < s.len() ==> !is_space_byte(s[leading_spaces(s)]),
    decreases s.len(),
{
    if s.len() == 0 || !is_space_byte(s[0]) {
    } else {
        lemma_leading_spaces_bound(s.drop_first());
        assert forall|k: int| 0 <= k < leading_spaces(s) implies is_space_byte(s[k]) by {
            if k > 0 {
                assert(s.drop_first()[k - 1] == s[k]);
            }
        }
    }
}

proof fn lemma_trailing_spaces_bound(s: Seq<u8>)
    ensures
        0 <= trailing_spaces(s) <= s.len(),
        forall|k: int| s.len() - trailing_spaces(s) <= k < s.len() ==> is_space_byte(s[k]),
        trailing_spaces(s) < s.len() ==> !is_space_byte(s[s.len() - trailing_spaces(s) - 1]),
    decreases s.len(),
{
    if s.len() == 0 || !is_space_byte(s.last()) {
    } else {
        lemma_trailing_spaces_bound(s.drop_last());
        assert forall|k: int| s.len() - trailing_spaces(s) <= k < s.len() implies is_space_byte(
            s[k],
        ) by {
            if k < s.len() - 1 {
                assert(s.drop_last()[k] == s[k]);
            }
        }
    }
}

fn is_space_b(b: u8) -> (r: bool)
    ensures
        r == is_space_byte(b),
{
    b == 32 || (9 <= b && b <= 13)
}

/// Remove leading and trailing ASCII whitespace from `s`.
pub fn trim_bytes(s: &[u8]) -> (r: Vec<u8>)
    ensures
        r@ == trim_spec(s@),
{
    let mut lo: usize = 0;
    while lo < s.len() && is_space_b(s[lo])
        invariant
            0 <= lo <= s@.len(),
            forall|k: int| 0 <= k < lo ==> is_space_byte(s@[k]),
        decreases s@.len() - lo,
    {
        lo += 1;
    }
    let mut hi: usize = s.len();
    while hi > lo && is_space_b(s[hi - 1])
        invariant
            lo <= hi <= s@.len(),
            forall|k: int| 0 <= k < lo ==> is_space_byte(s@[k]),
            lo == s@.len() || !is_space_byte(s@[lo as int]),
            forall|k: int| hi <= k < s@.len() ==> is_space_byte(s@[k]),
        decreases hi,
    {
        hi -= 1;
    }
    let mut r: Vec<u8> = Vec::new();
    let mut i: usize = lo;
    while i < hi
        invariant
            lo <= i <= hi <= s@.len(),
            r@ == s@.subrange(lo as int, i as int),
        decreases hi - i,
    {
        r.push(s[i]);
        proof {
            assert(r@ =~= s@.subrange(lo as int, i + 1));
        }
        i += 1;
    }
    proof {
        lemma_leading_spaces_bound(s@);
        lemma_trailing_spaces_bound(s@.skip(lo as int));
        assert(leading_spaces(s@) == lo as int) by {
            lemma_leading_spaces_agree(s@, lo as int);
        }
        assert(trailing_spaces(s@.skip(lo as int)) == s@.len() - hi) by {
            lemma_trailing_spaces_agree(s@.skip(lo as int), hi - lo);
        }
        assert(r@ =~= trim_spec(s@));
    }
    r
}

proof fn lemma_leading_spaces_agree(s: Seq<u8>, lo: int)
    requires
        0 <= lo <= s.len(),
        forall|k: int| 0 <= k < lo ==> is_space_byte(s[k]),
        lo == s.len() || !is_space_byte(s[lo]),
    ensures
        leading_spaces(s) == lo,
    decreases s.len(),
{
    if lo == 0 {
    } else {
        assert(is_space_byte(s[0]));
        assert forall|k: int| 0 <= k < lo - 1 implies is_space_byte(s.drop_first()[k]) by {
            assert(s.drop_first()[k] == s[k + 1]);
        }
        if lo - 1 < s.drop_first().len() {
            assert(s.drop_first()[lo - 1] == s[lo]);
        }
        lemma_leading_spaces_agree(s.drop_first(), lo - 1);
    }
}

proof fn lemma_trailing_spaces_agree(s: Seq<u8>, hi: int)
    requires
        0 <= hi <= s.len(),
        forall|k: int| hi <= k < s.len() ==> is_space_byte(s[k]),
        hi == 0 || !is_space_byte(s[hi - 1]),
    ensures
        trailing_spaces(s) == s.len() - hi,
    decreases s.len(),
{
    if hi == s.len() {
    } else {
        assert(is_space_byte(s.last()));
        assert forall|k: int| hi <= k < s.drop_last().len() implies is_space_byte(
            s.drop_last()[k],
        ) by {
            assert(s.drop_last()[k] == s[k]);
        }
        if hi > 0 {
            assert(s.drop_last()[hi - 1] == s[hi - 1]);
        }
        lemma_trailing_spaces_agree(s.drop_last(), hi);
    }
}

/// The normalized text body of a content item: primary text, a blank line,
/// the secondary text, the whole trimmed of surrounding whitespace.
pub open spec fn normalize_spec(primary: Seq<u8>, secondary: Seq<u8>) -> Seq<u8> {
    trim_spec(primary + seq![10u8, 10u8] + secondary)
}

/// Join the primary and secondary text of an item with a blank line and trim
/// surrounding whitespace. An absent secondary text is the empty sequence,
/// so the trailing blank line is trimmed away.
pub fn normalize_text(primary: &[u8], secondary: &[u8]) -> (r: Vec<u8>)
    ensures
        r@ == normalize_spec(primary@, secondary@),
{
    let mut joined: Vec<u8> = Vec::new();
    let mut i: usize = 0;
    while i < primary.len()
        invariant
            0 <= i <= primary@.len(),
            joined@ == primary@.take(i as int),
        decreases primary@.len() - i,
    {
        joined.push(primary[i]);
        proof {
            assert(joined@ =~= primary@.take(i + 1));
        }
        i += 1;
    }
    joined.push(10);
    joined.push(10);
    let mut j: usize = 0;
    while j < secondary.len()
        invariant
            0 <= j <= secondary@.len(),
            joined@ == primary@.take(primary@.len() as int) + seq![10u8, 10u8]
                + secondary@.take(j as int),
        decreases secondary@.len() - j,
    {
        joined.push(secondary[j]);
        proof {
            assert(joined@ =~= primary@.take(primary@.len() as int) + seq![10u8, 10u8]
                + secondary@.take(j + 1));
        }
        j += 1;
    }
    proof {
        assert(primary@.take(primary@.len() as int) =~= primary@);
        assert(secondary@.take(secondary@.len() as int) =~= secondary@);
        assert(joined@ == primary@ + seq![10u8, 10u8] + secondary@);
    }
    trim_bytes(joined.as_slice())
}

} // verus!
