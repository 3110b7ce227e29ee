//! Splitting UTF-8 text into byte ranges of a bounded number of characters.
use vstd::prelude::*;
use vstd::utf8::*;
use vstd::string::*;
use vstd::arithmetic::div_mod::lemma_fundamental_div_mod_converse;

verus! {

/// Whether byte `i` of `bytes` begins a character (it is not a continuation byte).
pub open spec fn is_char_start(bytes: Seq<u8>, i: int) -> bool {
    0 <= i < bytes.len() && !is_continuation_byte(bytes[i])
}

/// Number of characters that begin in the byte range `[start, end)`.
pub open spec fn char_starts(bytes: Seq<u8>, start: int, end: int) -> nat
    decreases end - start,
{
    if end <= start {
        0
    } else {
        char_starts(bytes, start, end - 1) + if is_char_start(bytes, end - 1) {
            1nat
        } else {
            0nat
        }
    }
}

/// `ranges` tiles `bytes` with consecutive, nonempty ranges that each begin at a
/// character; every range but the last holds exactly `max_chars` characters and the
/// last holds between one and `max_chars`. Empty text has no ranges.
pub open spec fn is_segmentation(bytes: Seq<u8>, max_chars: nat, ranges: Seq<(usize, usize)>) -> bool {
    &&& (ranges.len() == 0 <==> bytes.len() == 0)
    &&& ranges.len() > 0 ==> ranges[0].0 == 0 && ranges[ranges.len() - 1].1 == bytes.len()
    &&& forall|k: int| 0 <= k < ranges.len() - 1 ==> #[trigger] ranges[k].1 == ranges[k + 1].0
    &&& forall|k: int|
        0 <= k < ranges.len() ==> #[trigger] ranges[k].0 < ranges[k].1 && is_char_start(
            bytes,
            ranges[k].0 as int,
        )
    &&& forall|k: int|
        0 <= k < ranges.len() - 1 ==> char_starts(bytes, #[trigger] ranges[k].0 as int, ranges[k].1 as int)
            == max_chars
    &&& ranges.len() > 0 ==> 1 <= char_starts(
        bytes,
        ranges[ranges.len() - 1].0 as int,
        ranges[ranges.len() - 1].1 as int,
    ) <= max_chars
}

/// In the bytes of a string, a byte begins a character exactly when it is a
/// character boundary of that string.
pub proof fn char_starts_are_char_boundaries(text: &str, i: int)
    requires
        0 <= i < text.spec_bytes().len(),
    ensures
        is_char_start(text.spec_bytes(), i) == is_char_boundary(text.spec_bytes(), i),
{
    encode_utf8_valid_utf8(text@);
    is_char_boundary_iff_not_is_continuation_byte(text.spec_bytes(), i);
}

proof fn char_starts_step(bytes: Seq<u8>, start: int, end: int)
    requires
        start <= end,
    ensures
        char_starts(bytes, start, end + 1) == char_starts(bytes, start, end) + if is_char_start(
            bytes,
            end,
        ) {
            1nat
        } else {
            0nat
        },
{
}

/// The byte ranges of consecutive pieces of `text` holding `max_chars` characters
/// each (the last piece may hold fewer); no ranges when `max_chars` is zero.
pub fn segment_ranges(text: &str, max_chars: usize) -> (ranges: Vec<(usize, usize)>)
    ensures
        max_chars == 0 ==> ranges@.len() == 0,
        max_chars > 0 ==> is_segmentation(text.spec_bytes(), max_chars as nat, ranges@),
{
    let mut ranges: Vec<(usize, usize)> = Vec::new();
    if max_chars == 0 {
        return ranges;
    }
    let bytes = text.as_bytes();
    let n = bytes.len();
    let ghost b = bytes@;
    proof {
        encode_utf8_valid_utf8(text@);
        if b.len() > 0 {
            is_char_boundary_start_end_of_seq(b);
            is_char_boundary_iff_not_is_continuation_byte(b, 0);
        }
    }
    let mut start: usize = 0;
    let mut count: usize = 0;
    let mut i: usize = 0;
    while i < n
        invariant
            b == bytes@,
            n == b.len(),
            max_chars > 0,
            start <= i <= n,
            n > 0 ==> start < n,
            start < n ==> is_char_start(b, start as int),
            count == char_starts(b, start as int, i as int),
            count <= max_chars,
            i > start ==> count >= 1,
            ranges@.len() == 0 ==> start == 0,
            ranges@.len() > 0 ==> ranges@[0].0 == 0 && ranges@[ranges@.len() - 1].1 == start,
            forall|k: int| 0 <= k < ranges@.len() - 1 ==> #[trigger] ranges@[k].1 == ranges@[k + 1].0,
            forall|k: int|
                0 <= k < ranges@.len() ==> #[trigger] ranges@[k].0 < ranges@[k].1 && is_char_start(
                    b,
                    ranges@[k].0 as int,
                ),
            forall|k: int|
                0 <= k < ranges@.len() ==> char_starts(b, #[trigger] ranges@[k].0 as int, ranges@[k].1 as int)
                    == max_chars,
        decreases n - i,
    {
        let byte = bytes[i];
        if byte < 0x80 || byte > 0xbf {
            if count == max_chars {
                ranges.push((start, i));
                start = i;
                count = 0;
            }
            proof {
                char_starts_step(b, start as int, i as int);
            }
            count = count + 1;
        } else {
            proof {
                char_starts_step(b, start as int, i as int);
            }
        }
        i = i + 1;
    }
    if start < n {
        ranges.push((start, n));
    }
    ranges
}

proof fn lemma_char_starts_split(bytes: Seq<u8>, start: int, mid: int, end: int)
    requires
        start <= mid <= end,
    ensures
        char_starts(bytes, start, end) == char_starts(bytes, start, mid) + char_starts(bytes, mid, end),
    decreases end - mid,
{
    if end > mid {
        lemma_char_starts_split(bytes, start, mid, end - 1);
    }
}

proof fn lemma_char_start_counts(bytes: Seq<u8>, start: int, end: int)
    requires
        start < end,
        is_char_start(bytes, start),
    ensures
        char_starts(bytes, start, end) >= 1,
    decreases end - start,
{
    if end - 1 > start {
        lemma_char_start_counts(bytes, start, end - 1);
    }
}

/// Two ranges that start together and each hold `max_chars` characters followed by
/// a character start, or run to the end with at most `max_chars`, are the same.
proof fn lemma_range_end_determined(bytes: Seq<u8>, max_chars: nat, start: int, e1: int, e2: int, last1: bool, last2: bool)
    requires
        0 <= start < e1 <= bytes.len(),
        start < e2 <= bytes.len(),
        last1 ==> e1 == bytes.len() && char_starts(bytes, start, e1) <= max_chars,
        !last1 ==> e1 < bytes.len() && is_char_start(bytes, e1) && char_starts(bytes, start, e1) == max_chars,
        last2 ==> e2 == bytes.len() && char_starts(bytes, start, e2) <= max_chars,
        !last2 ==> e2 < bytes.len() && is_char_start(bytes, e2) && char_starts(bytes, start, e2) == max_chars,
    ensures
        e1 == e2,
        last1 == last2,
{
    if e1 < e2 {
        lemma_char_starts_split(bytes, start, e1, e2);
        lemma_char_start_counts(bytes, e1, e2);
    } else if e2 < e1 {
        lemma_char_starts_split(bytes, start, e2, e1);
        lemma_char_start_counts(bytes, e2, e1);
    }
}

/// A text has one segmentation for each positive limit: the ranges are determined by
/// the bytes and `max_chars`, so the result of `segment_ranges` is fixed by its
/// contract.
pub proof fn segmentation_is_unique(bytes: Seq<u8>, max_chars: nat, r1: Seq<(usize, usize)>, r2: Seq<(usize, usize)>)
    requires
        max_chars > 0,
        is_segmentation(bytes, max_chars, r1),
        is_segmentation(bytes, max_chars, r2),
    ensures
        r1 == r2,
{
    if r1.len() == 0 {
        assert(r2.len() == 0);
        assert(r1 =~= r2);
    } else {
        lemma_segments_agree(bytes, max_chars, r1, r2, r1.len() - 1);
        assert(r1 =~= r2);
    }
}

proof fn lemma_segments_agree(bytes: Seq<u8>, max_chars: nat, r1: Seq<(usize, usize)>, r2: Seq<(usize, usize)>, k: int)
    requires
        max_chars > 0,
        is_segmentation(bytes, max_chars, r1),
        is_segmentation(bytes, max_chars, r2),
        0 <= k < r1.len(),
    ensures
        k < r2.len(),
        forall|j: int| 0 <= j <= k ==> r1[j] == r2[j],
        (k == r1.len() - 1) == (k == r2.len() - 1),
    decreases k,
{
    assert(r2.len() > 0);
    let start: int = if k == 0 {
        0
    } else {
        lemma_segments_agree(bytes, max_chars, r1, r2, k - 1);
        assert(r1[k - 1].1 == r1[k].0);
        assert(r2[k - 1].1 == r2[k].0);
        r1[k].0 as int
    };
    assert(r1[k].0 == start && r2[k].0 == start);
    let last1 = k == r1.len() - 1;
    let last2 = k == r2.len() - 1;
    assert(r1[k].0 < r1[k].1);
    assert(r2[k].0 < r2[k].1);
    if !last1 {
        assert(r1[k].1 == r1[k + 1].0);
        assert(r1[k + 1].0 < r1[k + 1].1);
        assert(is_char_start(bytes, r1[k + 1].0 as int));
    }
    if !last2 {
        assert(r2[k].1 == r2[k + 1].0);
        assert(r2[k + 1].0 < r2[k + 1].1);
        assert(is_char_start(bytes, r2[k + 1].0 as int));
    }
    assert(r1[r1.len() - 1].1 <= bytes.len()) by {
        assert(r1[r1.len() - 1].1 == bytes.len());
    }
    assert(r1[k].1 <= bytes.len()) by {
        if !last1 {
            lemma_ranges_within(bytes, max_chars, r1, k);
        }
    }
    assert(r2[k].1 <= bytes.len()) by {
        if !last2 {
            lemma_ranges_within(bytes, max_chars, r2, k);
        }
    }
    lemma_range_end_determined(bytes, max_chars, start, r1[k].1 as int, r2[k].1 as int, last1, last2);
}

proof fn lemma_ranges_within(bytes: Seq<u8>, max_chars: nat, r: Seq<(usize, usize)>, k: int)
    requires
        is_segmentation(bytes, max_chars, r),
        0 <= k < r.len(),
    ensures
        r[k].1 <= bytes.len(),
    decreases r.len() - k,
{
    if k < r.len() - 1 {
        assert(r[k].1 == r[k + 1].0);
        assert(r[k + 1].0 < r[k + 1].1);
        lemma_ranges_within(bytes, max_chars, r, k + 1);
    }
}

/// The bytes that `ranges` pick out of `bytes`, one range after another.
pub open spec fn joined_ranges(bytes: Seq<u8>, ranges: Seq<(usize, usize)>) -> Seq<u8>
    decreases ranges.len(),
{
    if ranges.len() == 0 {
        Seq::empty()
    } else {
        joined_ranges(bytes, ranges.drop_last()) + bytes.subrange(
            ranges.last().0 as int,
            ranges.last().1 as int,
        )
    }
}

/// The number of pieces of at most `max_chars` characters that `chars` characters
/// fill: `chars / max_chars`, rounded up.
pub open spec fn piece_count(chars: nat, max_chars: nat) -> nat
    recommends
        max_chars > 0,
{
    ((chars + max_chars - 1) as nat / max_chars) as nat
}

proof fn lemma_char_starts_shift(bytes: Seq<u8>, off: int, start: int, end: int)
    requires
        0 <= off <= bytes.len(),
        0 <= start,
        end <= bytes.len() - off,
    ensures
        char_starts(bytes.subrange(off, bytes.len() as int), start, end) == char_starts(
            bytes,
            start + off,
            end + off,
        ),
    decreases end - start,
{
    if end > start {
        lemma_char_starts_shift(bytes, off, start, end - 1);
    }
}

/// Valid UTF-8 holds one character start for each character it encodes.
proof fn lemma_char_starts_count(bytes: Seq<u8>)
    requires
        valid_utf8(bytes),
    ensures
        char_starts(bytes, 0, bytes.len() as int) == decode_utf8(bytes).len(),
    decreases bytes.len(),
{
    if bytes.len() > 0 {
        let width = length_of_first_scalar(bytes);
        let rest = pop_first_scalar(bytes);
        assert(1 <= width <= 4 && width <= bytes.len());
        assert(char_starts(bytes, 0, width) == 1) by {
            assert(char_starts(bytes, 0, 0) == 0);
            assert(!is_continuation_byte(bytes[0]));
            assert(char_starts(bytes, 0, 1) == 1);
            if width >= 2 {
                assert(char_starts(bytes, 0, 2) == 1);
            }
            if width >= 3 {
                assert(char_starts(bytes, 0, 3) == 1);
            }
            if width >= 4 {
                assert(char_starts(bytes, 0, 4) == 1);
            }
        }
        lemma_char_starts_split(bytes, 0, width, bytes.len() as int);
        lemma_char_starts_shift(bytes, width, 0, rest.len() as int);
        lemma_char_starts_count(rest);
    }
}

/// Ranges `0..=k` of a segmentation hold `k * max_chars` characters before range `k`.
proof fn lemma_chars_before_range(bytes: Seq<u8>, max_chars: nat, ranges: Seq<(usize, usize)>, k: int)
    requires
        is_segmentation(bytes, max_chars, ranges),
        0 <= k < ranges.len(),
    ensures
        char_starts(bytes, 0, ranges[k].0 as int) == k * max_chars,
    decreases k,
{
    if k > 0 {
        lemma_chars_before_range(bytes, max_chars, ranges, k - 1);
        assert(ranges[k - 1].1 == ranges[k].0);
        assert(ranges[k - 1].0 < ranges[k - 1].1);
        lemma_char_starts_split(bytes, 0, ranges[k - 1].0 as int, ranges[k].0 as int);
        assert(char_starts(bytes, ranges[k - 1].0 as int, ranges[k - 1].1 as int) == max_chars);
        assert((k - 1) * max_chars + max_chars == k * max_chars) by (nonlinear_arith);
        assert(char_starts(bytes, 0, ranges[k].0 as int) == (k - 1) * max_chars + max_chars);
    } else {
        assert(ranges[0].0 == 0);
        assert(char_starts(bytes, 0, 0) == 0);
        assert(k * max_chars == 0) by (nonlinear_arith)
            requires
                k == 0,
        ;
    }
}

/// The first `k` ranges of a segmentation pick out the bytes before the end of range
/// `k - 1`.
proof fn lemma_joined_prefix(bytes: Seq<u8>, max_chars: nat, ranges: Seq<(usize, usize)>, k: int)
    requires
        is_segmentation(bytes, max_chars, ranges),
        1 <= k <= ranges.len(),
    ensures
        joined_ranges(bytes, ranges.take(k)) == bytes.subrange(0, ranges[k - 1].1 as int),
    decreases k,
{
    let prefix = ranges.take(k);
    assert(prefix.drop_last() =~= ranges.take(k - 1));
    assert(prefix.last() == ranges[k - 1]);
    lemma_ranges_within(bytes, max_chars, ranges, k - 1);
    if k == 1 {
        assert(joined_ranges(bytes, ranges.take(0)) =~= Seq::<u8>::empty());
        assert(joined_ranges(bytes, prefix) =~= bytes.subrange(0, ranges[0].1 as int));
    } else {
        lemma_joined_prefix(bytes, max_chars, ranges, k - 1);
        assert(ranges[k - 2].1 == ranges[k - 1].0);
        assert(joined_ranges(bytes, prefix) =~= bytes.subrange(0, ranges[k - 1].1 as int));
    }
}

/// A segmentation of a text with a positive limit has as many ranges as pieces of
/// `max_chars` characters are needed to hold the text's characters, and its ranges,
/// joined in order, give back the text's bytes.
pub proof fn segmentation_covers_text(text: &str, max_chars: nat, ranges: Seq<(usize, usize)>)
    requires
        max_chars > 0,
        is_segmentation(text.spec_bytes(), max_chars, ranges),
    ensures
        ranges.len() == piece_count(text@.len(), max_chars),
        joined_ranges(text.spec_bytes(), ranges) == text.spec_bytes(),
{
    let bytes = text.spec_bytes();
    encode_utf8_valid_utf8(text@);
    encode_utf8_decode_utf8(text@);
    lemma_char_starts_count(bytes);
    let n = ranges.len() as int;
    if n == 0 {
        assert(bytes.len() == 0);
        assert(text@.len() == 0);
        lemma_fundamental_div_mod_converse((max_chars - 1) as int, max_chars as int, 0, (max_chars - 1) as int);
        assert(joined_ranges(bytes, ranges) =~= bytes);
    } else {
        let last = ranges[n - 1];
        lemma_chars_before_range(bytes, max_chars, ranges, n - 1);
        lemma_char_starts_split(bytes, 0, last.0 as int, bytes.len() as int);
        let tail = char_starts(bytes, last.0 as int, last.1 as int);
        assert(text@.len() == (n - 1) * max_chars + tail);
        assert(text@.len() + max_chars - 1 == n * max_chars + (tail - 1)) by (nonlinear_arith)
            requires
                text@.len() == (n - 1) * max_chars + tail,
        ;
        lemma_fundamental_div_mod_converse(
            text@.len() + max_chars - 1,
            max_chars as int,
            n,
            tail - 1,
        );
        lemma_joined_prefix(bytes, max_chars, ranges, n);
        assert(ranges.take(n) =~= ranges);
        assert(bytes.subrange(0, bytes.len() as int) =~= bytes);
    }
}

} // verus!
