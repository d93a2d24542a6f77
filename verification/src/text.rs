use vstd::prelude::*;
use vstd::utf8::{decode_utf8, valid_utf8};

verus! {

/// `std::str::from_utf8`: succeeds exactly when `bytes` are well-formed
/// UTF-8, and then hands back the text those bytes encode, borrowing them.
#[verifier::external_body]
pub(crate) fn str_from_utf8(bytes: &[u8]) -> (r: Option<&str>)
    ensures
        r is Some <==> valid_utf8(bytes@),
        r matches Some(t) ==> t@ == decode_utf8(bytes@),
{
    std::str::from_utf8(bytes).ok()
}

/// `n` is the position of the first NUL byte of `s`.
pub open spec fn first_nul(s: Seq<u8>, n: int) -> bool {
    &&& 0 <= n < s.len()
    &&& s[n] == 0
    &&& forall|j: int| 0 <= j < n ==> s[j] != 0
}

/// Reads a NUL-terminated C string: the text that the bytes before the first
/// NUL encode. `None` when there is no NUL or those bytes are not UTF-8.
pub fn from_cstr(s: &[u8]) -> (r: Option<&str>)
    ensures
        match r {
            Some(t) => exists|n: int|
                first_nul(s@, n) && valid_utf8(s@.take(n)) && t@ == decode_utf8(#[trigger] s@.take(n)),
            None => forall|n: int| first_nul(s@, n) ==> !valid_utf8(#[trigger] s@.take(n)),
        },
{
    let mut n: usize = 0;
    while n < s.len()
        invariant
            n <= s@.len(),
            forall|j: int| 0 <= j < n ==> s@[j] != 0,
        decreases s@.len() - n,
    {
        if s[n] == 0 {
            let prefix = &s[0..n];
            assert(prefix@ =~= s@.take(n as int));
            let r = str_from_utf8(prefix);
            proof {
                assert forall|m: int| first_nul(s@, m) implies m == n by {
                    if m < n {
                        assert(s@[m] != 0);
                    }
                    if m > n {
                        assert(s@[n as int] != 0);
                    }
                }
            }
            return r;
        }
        n = n + 1;
    }
    None
}

/// The text that separates a provider's name from the file name in a path.
pub open spec fn provider_marker() -> Seq<char> {
    seq!['@', 'u', 'v', 'f', 's', ':', '/', '/']
}

/// The marker starts at position `i` of `s`.
pub open spec fn marker_at(s: Seq<char>, i: int) -> bool {
    0 <= i && i + provider_marker().len() <= s.len() && s.subrange(i, i + provider_marker().len())
        == provider_marker()
}

/// `i` is where the marker first occurs in `s`.
pub open spec fn first_marker(s: Seq<char>, i: int) -> bool {
    &&& marker_at(s, i)
    &&& forall|j: int| 0 <= j < i ==> !marker_at(s, j)
}

/// The position of the first occurrence of the provider marker in `s`.
pub fn find_marker(s: &str) -> (r: Option<usize>)
    ensures
        match r {
            Some(i) => first_marker(s@, i as int),
            None => forall|i: int| !marker_at(s@, i),
        },
{
    let marker: Vec<char> = vec!['@', 'u', 'v', 'f', 's', ':', '/', '/'];
    assert(marker@ =~= provider_marker());
    let len = s.unicode_len();
    let mlen = marker.len();
    if len < mlen {
        return None;
    }
    let mut i: usize = 0;
    while i <= len - mlen
        invariant
            len == s@.len(),
            mlen == marker@.len(),
            marker@ == provider_marker(),
            mlen <= len,
            i <= len - mlen + 1,
            forall|j: int| 0 <= j < i ==> !marker_at(s@, j),
        decreases len - mlen + 1 - i,
    {
        let mut k: usize = 0;
        let mut matched = true;
        while k < mlen
            invariant
                len == s@.len(),
                mlen == marker@.len(),
                i + mlen <= len,
                k <= mlen,
                matched <==> forall|j: int| 0 <= j < k ==> s@[i + j] == marker@[j],
            decreases mlen - k,
        {
            if s.get_char(i + k) != marker[k] {
                matched = false;
            }
            k = k + 1;
        }
        if matched {
            assert(s@.subrange(i as int, i + mlen) =~= marker@);
            return Some(i);
        }
        assert(!marker_at(s@, i as int)) by {
            if marker_at(s@, i as int) {
                assert forall|j: int| 0 <= j < mlen implies s@[i + j] == marker@[j] by {
                    assert(s@.subrange(i as int, i + mlen)[j] == s@[i + j]);
                }
            }
        }
        i = i + 1;
    }
    None
}

} // verus!
