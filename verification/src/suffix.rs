//! The suffix predicate: does an address end with the desired text?

use vstd::prelude::*;
use vstd::string::StringSliceAdditionalSpecFns;

verus! {

/// `a` ends with `pat`: `pat` occupies the last `pat.len()` positions of `a`.
pub open spec fn seq_ends_with(a: Seq<u8>, pat: Seq<u8>) -> bool {
    &&& a.len() >= pat.len()
    &&& a.skip(a.len() - pat.len()) == pat
}

/// The address ends with the desired suffix, compared over the byte
/// encodings of the two strings (exact and case-sensitive).
pub open spec fn ends_with_suffix(address: Seq<char>, suffix: Seq<char>) -> bool {
    seq_ends_with(vstd::utf8::encode_utf8(address), vstd::utf8::encode_utf8(suffix))
}

/// An empty suffix matches every address.
pub proof fn lemma_empty_suffix_matches(address: Seq<char>, suffix: Seq<char>)
    requires
        suffix.len() == 0,
    ensures
        ends_with_suffix(address, suffix),
{
    let a = vstd::utf8::encode_utf8(address);
    assert(vstd::utf8::encode_utf8(suffix) =~= Seq::<u8>::empty());
    assert(a.skip(a.len() - 0) =~= Seq::<u8>::empty());
}

/// Exact, case-sensitive suffix match on the byte encodings of the two
/// strings, as the search uses to decide whether an address counts as found.
pub fn suffix_matches(address: &str, suffix: &str) -> (r: bool)
    ensures
        r == ends_with_suffix(address@, suffix@),
{
    proof {
        assert(address.spec_bytes() == vstd::utf8::encode_utf8(address@));
        assert(suffix.spec_bytes() == vstd::utf8::encode_utf8(suffix@));
    }
    let a: &[u8] = address.as_bytes();
    let s: &[u8] = suffix.as_bytes();
    let alen: usize = a.len();
    let slen: usize = s.len();
    if slen > alen {
        return false;
    }
    let offset: usize = alen - slen;
    let mut i: usize = 0;
    while i < slen
        invariant
            a@ == address.spec_bytes(),
            s@ == suffix.spec_bytes(),
            alen == a@.len(),
            slen == s@.len(),
            slen <= alen,
            offset == alen - slen,
            i <= slen,
            forall|j: int| 0 <= j < i ==> a@[offset + j] == s@[j],
        decreases slen - i,
    {
        if a[offset + i] != s[i] {
            assert(!seq_ends_with(address.spec_bytes(), suffix.spec_bytes())) by {
                if seq_ends_with(a@, s@) {
                    assert(a@.skip(a@.len() - s@.len())[i as int] == s@[i as int]);
                }
            }
            return false;
        }
        i += 1;
    }
    assert(a@.skip(a@.len() - s@.len()) =~= s@);
    true
}

} // verus!
