//! Checks on an observation's entity mentions and on the memory proposals that a
//! formation provider returns for it.
use vstd::prelude::*;
use crate::error::Error;
use crate::text::{all_white_space, is_blank, is_white_space, str_eq, unicode_white_space};
use crate::fallback::{lowercase_of, to_lowercase};

verus! {

/// The most memory proposals one observation may bring.
pub const MAX_FORMATION_PROPOSALS: usize = 32;

/// Every entity mention of an observation needs a surface that is not blank.
pub fn check_mention_surfaces(surfaces: &[String]) -> (result: Result<(), Error>)
    ensures
        result is Ok <==> forall|i: int| 0 <= i < surfaces@.len() ==> !all_white_space(#[trigger] surfaces@[i]@),
        result is Err ==> (result matches Err(Error::Invalid(_))),
{
    let mut i: usize = 0;
    while i < surfaces.len()
        invariant
            i <= surfaces@.len(),
            forall|j: int| 0 <= j < i ==> !all_white_space(#[trigger] surfaces@[j]@),
        decreases surfaces@.len() - i,
    {
        if is_blank(surfaces[i].as_str()) {
            return Err(Error::Invalid("entity mention surface is required".to_owned()));
        }
        i = i + 1;
    }
    Ok(())
}

/// A provider may propose at most `MAX_FORMATION_PROPOSALS` memories for one
/// observation.
pub fn check_proposal_count(count: usize) -> (result: Result<(), Error>)
    ensures
        result is Ok <==> count <= MAX_FORMATION_PROPOSALS,
        result is Err ==> (result matches Err(Error::Invalid(_))),
{
    if count > MAX_FORMATION_PROPOSALS {
        return Err(Error::Invalid("memory formation proposal count exceeds the request bound".to_owned()));
    }
    Ok(())
}

/// The words of `text` (its maximal runs of characters that are not white space),
/// in order, joined by single spaces.
pub open spec fn words_joined(text: Seq<char>) -> Seq<char>
    decreases text.len(),
{
    if text.len() == 0 {
        Seq::empty()
    } else {
        let prev = words_joined(text.drop_last());
        let c = text.last();
        if unicode_white_space(c) {
            prev
        } else if text.len() >= 2 && !unicode_white_space(text[text.len() - 2]) {
            prev.push(c)
        } else if prev.len() == 0 {
            prev.push(c)
        } else {
            prev.push(' ').push(c)
        }
    }
}

/// The key by which a proposal is recognised as a repeat: its text's words joined by
/// single spaces and lower-cased, a NUL character, then the encoding of its evidence.
pub open spec fn spec_proposal_key(text: Seq<char>, evidence_key: Seq<char>) -> Seq<char> {
    lowercase_of(words_joined(text)) + seq!['\0'] + evidence_key
}

/// The words of `text` joined by single spaces.
pub fn join_words(text: &str) -> (joined: String)
    ensures
        joined@ == words_joined(text@),
{
    let n = text.unicode_len();
    let mut joined = String::new();
    let mut i: usize = 0;
    while i < n
        invariant
            n == text@.len(),
            i <= n,
            joined@ == words_joined(text@.take(i as int)),
        decreases n - i,
    {
        let c = text.get_char(i);
        let ghost prefix = text@.take(i + 1);
        proof {
            assert(prefix.drop_last() =~= text@.take(i as int));
            assert(prefix.last() == c);
            if i >= 1 {
                assert(prefix[i - 1] == text@[i - 1]);
            }
        }
        if !is_white_space(c) {
            let continues = i >= 1 && !is_white_space(text.get_char(i - 1));
            if !continues && joined.as_str().unicode_len() > 0 {
                joined.append(" ");
                proof {
                    reveal_strlit(" ");
                }
            }
            joined.append(text.substring_char(i, i + 1));
            proof {
                assert(text@.subrange(i as int, i + 1) =~= seq![c]);
            }
        }
        proof {
            let prev = words_joined(text@.take(i as int));
            assert(words_joined(prefix) == if unicode_white_space(c) {
                prev
            } else if prefix.len() >= 2 && !unicode_white_space(prefix[prefix.len() - 2]) {
                prev.push(c)
            } else if prev.len() == 0 {
                prev.push(c)
            } else {
                prev.push(' ').push(c)
            });
            assert(joined@ =~= words_joined(prefix));
        }
        i = i + 1;
    }
    proof {
        assert(text@.take(n as int) =~= text@);
    }
    joined
}

/// The key by which a proposal with representation `text` and evidence encoded as
/// `evidence_key` is recognised as a repeat.
pub fn proposal_key(text: &str, evidence_key: &str) -> (key: String)
    ensures
        key@ == spec_proposal_key(text@, evidence_key@),
{
    let words = join_words(text);
    let mut key = to_lowercase(words.as_str());
    key.append("\0");
    proof {
        reveal_strlit("\0");
    }
    key.append(evidence_key);
    key
}

/// Which proposals are committed when each is known by its key: the first of each
/// key, and none that repeats an earlier key.
pub fn first_of_each_key(keys: &[String]) -> (kept: Vec<bool>)
    ensures
        kept@.len() == keys@.len(),
        forall|i: int|
            0 <= i < keys@.len() ==> (#[trigger] kept@[i] <==> forall|j: int|
                0 <= j < i ==> keys@[j]@ != keys@[i]@),
{
    let mut kept: Vec<bool> = Vec::new();
    let mut i: usize = 0;
    while i < keys.len()
        invariant
            i <= keys@.len(),
            kept@.len() == i,
            forall|k: int|
                0 <= k < i ==> (#[trigger] kept@[k] <==> forall|j: int|
                    0 <= j < k ==> keys@[j]@ != keys@[k]@),
        decreases keys@.len() - i,
    {
        let mut fresh = true;
        let mut j: usize = 0;
        while j < i
            invariant
                i < keys@.len(),
                j <= i,
                fresh <==> forall|m: int| 0 <= m < j ==> keys@[m]@ != keys@[i as int]@,
            decreases i - j,
        {
            if str_eq(keys[j].as_str(), keys[i].as_str()) {
                fresh = false;
            }
            j = j + 1;
        }
        kept.push(fresh);
        i = i + 1;
    }
    kept
}

} // verus!
