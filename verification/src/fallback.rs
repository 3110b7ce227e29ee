//! The substring fallback of a text query: when no lexical generation serves the
//! query, a memory still matches a pattern whose every white-space separated term
//! occurs in its text, ignoring case.
use vstd::prelude::*;
use vstd::string::*;
use crate::text::{unicode_white_space, is_white_space};

verus! {

/// The lower-case form of `text` under Unicode case mapping.
pub uninterp spec fn lowercase_of(text: Seq<char>) -> Seq<char>;

/// `str::to_lowercase`: the lower-case form of `text`, which depends on nothing but
/// the text.
#[verifier::external_body]
pub(crate) fn to_lowercase(text: &str) -> (lower: String)
    ensures
        lower@ == lowercase_of(text@),
{
    text.to_lowercase()
}

/// Whether `needle` occurs in `hay` as a run of consecutive characters.
pub open spec fn occurs_in(needle: Seq<char>, hay: Seq<char>) -> bool {
    exists|i: int| 0 <= i <= hay.len() - needle.len() && #[trigger] hay.subrange(i, i + needle.len()) == needle
}

/// Whether `[start, end)` is a term of `text`: a nonempty maximal run of characters
/// that are not white space.
pub open spec fn is_term(text: Seq<char>, start: int, end: int) -> bool {
    &&& 0 <= start < end <= text.len()
    &&& forall|k: int| start <= k < end ==> !unicode_white_space(#[trigger] text[k])
    &&& (start == 0 || unicode_white_space(text[start - 1]))
    &&& (end == text.len() || unicode_white_space(text[end]))
}

/// Whether every term of `pattern`, lower-cased, occurs in the lower-cased `text`.
pub open spec fn all_terms_occur(pattern: Seq<char>, text: Seq<char>) -> bool {
    forall|start: int, end: int|
        #[trigger] is_term(pattern, start, end) ==> occurs_in(
            lowercase_of(pattern.subrange(start, end)),
            lowercase_of(text),
        )
}

/// Whether a memory with text `representation` matches through the substring
/// fallback: it has no lexical hit, no lexical generation serves the query (or the
/// query includes suppressed memories, which that generation does not hold), the
/// pattern is not empty, and every term of the pattern occurs in the text.
pub open spec fn spec_substring_fallback(
    pattern: Seq<char>,
    representation: Seq<char>,
    lexical_hit: bool,
    lexical_served: bool,
    include_suppressed: bool,
) -> bool {
    &&& !lexical_hit
    &&& (!lexical_served || include_suppressed)
    &&& pattern.len() > 0
    &&& all_terms_occur(pattern, representation)
}

/// The characters of `text`, in order.
fn chars_of(text: &str) -> (chars: Vec<char>)
    ensures
        chars@ == text@,
{
    let n = text.unicode_len();
    let mut chars: Vec<char> = Vec::new();
    let mut i: usize = 0;
    while i < n
        invariant
            n == text@.len(),
            i <= n,
            chars@ == text@.take(i as int),
        decreases n - i,
    {
        chars.push(text.get_char(i));
        assert(text@.take(i + 1) =~= text@.take(i as int).push(text@[i as int]));
        i = i + 1;
    }
    assert(text@.take(n as int) =~= text@);
    chars
}

/// Whether `needle` occurs in `hay`.
fn occurs(needle: &Vec<char>, hay: &Vec<char>) -> (found: bool)
    ensures
        found == occurs_in(needle@, hay@),
{
    let n = needle.len();
    let h = hay.len();
    if n > h {
        return false;
    }
    let mut i: usize = 0;
    while i <= h - n
        invariant
            n == needle@.len(),
            h == hay@.len(),
            n <= h,
            i <= h - n + 1,
            forall|a: int| 0 <= a < i ==> #[trigger] hay@.subrange(a, a + n) != needle@,
        decreases h - n + 1 - i,
    {
        let mut k: usize = 0;
        while k < n && hay[i + k] == needle[k]
            invariant
                n == needle@.len(),
                h == hay@.len(),
                i + n <= h,
                k <= n,
                forall|b: int| 0 <= b < k ==> hay@[i + b] == needle@[b],
            decreases n - k,
        {
            k = k + 1;
        }
        if k == n {
            assert(hay@.subrange(i as int, i + n) =~= needle@);
            return true;
        }
        assert(hay@.subrange(i as int, i + n)[k as int] != needle@[k as int]);
        i = i + 1;
    }
    false
}

/// Whether every term of `pattern`, lower-cased, occurs in the lower-cased
/// `representation`.
pub fn all_terms_found(pattern: &str, representation: &str) -> (all: bool)
    ensures
        all == all_terms_occur(pattern@, representation@),
{
    let lowered = to_lowercase(representation);
    let hay = chars_of(lowered.as_str());
    let ghost p = pattern@;
    let n = pattern.unicode_len();
    let mut start: Option<usize> = None;
    let mut k: usize = 0;
    while k < n
        invariant
            n == p.len(),
            p == pattern@,
            k <= n,
            hay@ == lowercase_of(representation@),
            match start {
                Some(s) => s < k && (forall|m: int| s <= m < k ==> !unicode_white_space(#[trigger] p[m])) && (
                s == 0 || unicode_white_space(p[s - 1])),
                None => k == 0 || unicode_white_space(p[k - 1]),
            },
            forall|i: int, j: int|
                #[trigger] is_term(p, i, j) && j < k ==> occurs_in(lowercase_of(p.subrange(i, j)), hay@),
        decreases n - k,
    {
        let c = pattern.get_char(k);
        if is_white_space(c) {
            match start {
                Some(s) => {
                    let term = pattern.substring_char(s, k);
                    let lower_term = to_lowercase(term);
                    let needle = chars_of(lower_term.as_str());
                    assert(is_term(p, s as int, k as int));
                    if !occurs(&needle, &hay) {
                        return false;
                    }
                },
                None => {},
            }
            proof {
                assert forall|i: int, j: int| #[trigger] is_term(p, i, j) && j < k + 1 implies occurs_in(
                    lowercase_of(p.subrange(i, j)),
                    hay@,
                ) by {
                    if j == k {
                        assert(!unicode_white_space(p[j - 1]));
                        match start {
                            Some(s) => {
                                if i < s {
                                    assert(!unicode_white_space(p[s - 1]));
                                }
                                if i > s {
                                    assert(!unicode_white_space(p[i - 1]));
                                }
                            },
                            None => {},
                        }
                    }
                }
            }
            start = None;
        } else {
            proof {
                assert forall|i: int, j: int| #[trigger] is_term(p, i, j) && j < k + 1 implies occurs_in(
                    lowercase_of(p.subrange(i, j)),
                    hay@,
                ) by {
                    if j == k {
                        assert(unicode_white_space(p[j]));
                    }
                }
            }
            if start.is_none() {
                start = Some(k);
            }
        }
        k = k + 1;
    }
    match start {
        Some(s) => {
            let term = pattern.substring_char(s, n);
            let lower_term = to_lowercase(term);
            let needle = chars_of(lower_term.as_str());
            assert(is_term(p, s as int, n as int));
            if !occurs(&needle, &hay) {
                return false;
            }
            proof {
                assert forall|i: int, j: int| #[trigger] is_term(p, i, j) implies occurs_in(
                    lowercase_of(p.subrange(i, j)),
                    hay@,
                ) by {
                    if j == n {
                        if i < s {
                            assert(!unicode_white_space(p[s - 1]));
                        }
                        if i > s {
                            assert(!unicode_white_space(p[i - 1]));
                        }
                    }
                }
            }
        },
        None => {
            proof {
                assert forall|i: int, j: int| #[trigger] is_term(p, i, j) implies occurs_in(
                    lowercase_of(p.subrange(i, j)),
                    hay@,
                ) by {
                    if j == n {
                        assert(!unicode_white_space(p[j - 1]));
                    }
                }
            }
        },
    }
    true
}

/// Whether a memory with text `representation` matches `pattern` through the
/// substring fallback.
pub fn substring_fallback(
    pattern: &str,
    representation: &str,
    lexical_hit: bool,
    lexical_served: bool,
    include_suppressed: bool,
) -> (matched: bool)
    ensures
        matched == spec_substring_fallback(
            pattern@,
            representation@,
            lexical_hit,
            lexical_served,
            include_suppressed,
        ),
{
    if lexical_hit || (lexical_served && !include_suppressed) || pattern.unicode_len() == 0 {
        return false;
    }
    all_terms_found(pattern, representation)
}

/// `text` without its leading white space.
pub open spec fn trim_start(text: Seq<char>) -> Seq<char>
    decreases text.len(),
{
    if text.len() > 0 && unicode_white_space(text[0]) {
        trim_start(text.drop_first())
    } else {
        text
    }
}

/// `text` without its trailing white space.
pub open spec fn trim_end(text: Seq<char>) -> Seq<char>
    decreases text.len(),
{
    if text.len() > 0 && unicode_white_space(text.last()) {
        trim_end(text.drop_last())
    } else {
        text
    }
}

/// The pieces of `parts` joined by single spaces.
pub open spec fn joined(parts: Seq<Seq<char>>) -> Seq<char>
    decreases parts.len(),
{
    if parts.len() == 0 {
        Seq::empty()
    } else if parts.len() == 1 {
        parts[0]
    } else {
        joined(parts.drop_last()) + seq![' '] + parts.last()
    }
}

/// The text pattern of a query: its text and example cues joined by spaces, with
/// the white space at both ends removed.
pub open spec fn spec_query_pattern(cues: Seq<Seq<char>>) -> Seq<char> {
    trim_end(trim_start(joined(cues)))
}

proof fn lemma_trim_start_skips(text: Seq<char>, a: int)
    requires
        0 <= a <= text.len(),
        forall|k: int| 0 <= k < a ==> unicode_white_space(#[trigger] text[k]),
        a == text.len() || !unicode_white_space(text[a]),
    ensures
        trim_start(text) == text.subrange(a, text.len() as int),
    decreases a,
{
    if a == 0 {
        assert(text.subrange(0, text.len() as int) =~= text);
    } else {
        let rest = text.drop_first();
        assert forall|k: int| 0 <= k < a - 1 implies unicode_white_space(#[trigger] rest[k]) by {
            assert(rest[k] == text[k + 1]);
        }
        if a - 1 < rest.len() {
            assert(rest[a - 1] == text[a]);
        }
        lemma_trim_start_skips(rest, a - 1);
        assert(rest.subrange(a - 1, rest.len() as int) =~= text.subrange(a, text.len() as int));
    }
}

proof fn lemma_trim_end_skips(text: Seq<char>, b: int)
    requires
        0 <= b <= text.len(),
        forall|k: int| b <= k < text.len() ==> unicode_white_space(#[trigger] text[k]),
        b == 0 || !unicode_white_space(text[b - 1]),
    ensures
        trim_end(text) == text.subrange(0, b),
    decreases text.len() - b,
{
    if b == text.len() {
        assert(text.subrange(0, b) =~= text);
    } else {
        let rest = text.drop_last();
        assert forall|k: int| b <= k < rest.len() implies unicode_white_space(#[trigger] rest[k]) by {
            assert(rest[k] == text[k]);
        }
        if b > 0 {
            assert(rest[b - 1] == text[b - 1]);
        }
        lemma_trim_end_skips(rest, b);
        assert(rest.subrange(0, b) =~= text.subrange(0, b));
    }
}

/// The text pattern of a query whose text and example cues are `cues`.
pub fn query_pattern(cues: &[String]) -> (pattern: String)
    ensures
        pattern@ == spec_query_pattern(cues@.map_values(|c: String| c@)),
{
    let ghost views = cues@.map_values(|c: String| c@);
    let mut all = String::new();
    let mut i: usize = 0;
    while i < cues.len()
        invariant
            i <= cues@.len(),
            views == cues@.map_values(|c: String| c@),
            all@ == joined(views.take(i as int)),
        decreases cues@.len() - i,
    {
        proof {
            assert(views.take(i + 1).drop_last() =~= views.take(i as int));
            assert(views.take(i + 1).last() == cues@[i as int]@);
            if i == 0 {
                assert(views.take(1) =~= seq![cues@[0]@]);
            }
        }
        if i > 0 {
            all.append(" ");
            proof {
                reveal_strlit(" ");
                assert(" "@ =~= seq![' ']);
            }
        }
        all.append(cues[i].as_str());
        proof {
            if i == 0 {
                assert(all@ =~= cues@[0]@);
            }
        }
        i = i + 1;
    }
    proof {
        assert(views.take(cues@.len() as int) =~= views);
    }
    let text = all.as_str();
    let n = text.unicode_len();
    let mut a: usize = 0;
    while a < n && is_white_space(text.get_char(a))
        invariant
            n == text@.len(),
            a <= n,
            forall|k: int| 0 <= k < a ==> unicode_white_space(#[trigger] text@[k]),
        decreases n - a,
    {
        a = a + 1;
    }
    let mut b: usize = n;
    while b > a && is_white_space(text.get_char(b - 1))
        invariant
            n == text@.len(),
            a <= b <= n,
            forall|k: int| b <= k < n ==> unicode_white_space(#[trigger] text@[k]),
        decreases b - a,
    {
        b = b - 1;
    }
    proof {
        lemma_trim_start_skips(text@, a as int);
        let rest = text@.subrange(a as int, n as int);
        assert forall|k: int| b - a <= k < rest.len() implies unicode_white_space(#[trigger] rest[k]) by {
            assert(rest[k] == text@[a + k]);
        }
        if b > a {
            assert(rest[b - a - 1] == text@[b - 1]);
        }
        lemma_trim_end_skips(rest, (b - a) as int);
        assert(rest.subrange(0, (b - a) as int) =~= text@.subrange(a as int, b as int));
    }
    text.substring_char(a, b).to_owned()
}

} // verus!
