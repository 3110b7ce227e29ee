//! Text predicates: equality of string slices and blankness under Unicode white space.
use vstd::prelude::*;
use vstd::string::*;
use vstd::utf8::*;

verus! {

/// The Unicode `White_Space` property, the set that `str::trim` removes.
pub open spec fn unicode_white_space(c: char) -> bool {
    let u = c as u32;
    ||| 0x09 <= u <= 0x0d
    ||| u == 0x20
    ||| u == 0x85
    ||| u == 0xa0
    ||| u == 0x1680
    ||| 0x2000 <= u <= 0x200a
    ||| u == 0x2028
    ||| u == 0x2029
    ||| u == 0x202f
    ||| u == 0x205f
    ||| u == 0x3000
}

/// Whether every character of `chars` is white space (so trimming leaves nothing).
pub open spec fn all_white_space(chars: Seq<char>) -> bool {
    forall|i: int| 0 <= i < chars.len() ==> unicode_white_space(#[trigger] chars[i])
}

/// Whether `c` has the Unicode `White_Space` property.
pub fn is_white_space(c: char) -> (ws: bool)
    ensures
        ws == unicode_white_space(c),
{
    let u = c as u32;
    (0x09 <= u && u <= 0x0d) || u == 0x20 || u == 0x85 || u == 0xa0 || u == 0x1680 || (0x2000
        <= u && u <= 0x200a) || u == 0x2028 || u == 0x2029 || u == 0x202f || u == 0x205f || u
        == 0x3000
}

/// Whether `s` is empty after trimming white space from both ends.
pub fn is_blank(s: &str) -> (blank: bool)
    ensures
        blank == all_white_space(s@),
{
    let n = s.unicode_len();
    let mut i: usize = 0;
    while i < n
        invariant
            n == s@.len(),
            i <= n,
            forall|j: int| 0 <= j < i ==> unicode_white_space(#[trigger] s@[j]),
        decreases n - i,
    {
        let c = s.get_char(i);
        if !is_white_space(c) {
            assert(!unicode_white_space(s@[i as int]));
            return false;
        }
        i = i + 1;
    }
    true
}

/// Whether two string slices hold the same characters.
pub fn str_eq(a: &str, b: &str) -> (eq: bool)
    ensures
        eq == (a@ == b@),
{
    let x = a.as_bytes();
    let y = b.as_bytes();
    proof {
        encode_utf8_decode_utf8(a@);
        encode_utf8_decode_utf8(b@);
    }
    if x.len() != y.len() {
        proof {
            if a@ == b@ {
                assert(x@ == y@);
            }
        }
        return false;
    }
    let mut i: usize = 0;
    while i < x.len()
        invariant
            x@ == a.spec_bytes(),
            y@ == b.spec_bytes(),
            x.len() == y.len(),
            i <= x.len(),
            forall|j: int| 0 <= j < i ==> x@[j] == y@[j],
        decreases x.len() - i,
    {
        if x[i] != y[i] {
            proof {
                if a@ == b@ {
                    assert(x@ == y@);
                    assert(x@[i as int] == y@[i as int]);
                }
            }
            return false;
        }
        i = i + 1;
    }
    assert(x@ == y@);
    true
}

} // verus!
