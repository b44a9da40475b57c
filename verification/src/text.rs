//! Byte-level text helpers: whitespace trimming, byte equality, and the
//! UTF-8 validity check used to decide whether a payload counts as text.

use vstd::prelude::*;

verus! {

/// A byte is ASCII whitespace: tab, line feed, carriage return, or space.
pub open spec fn is_ws(b: u8) -> bool {
    b == 9 || b == 10 || b == 13 || b == 32
}

/// The byte sequence with ASCII whitespace removed from both ends.
pub open spec fn trim_spec(s: Seq<u8>) -> Seq<u8>
    decreases s.len(),
{
    if s.len() == 0 {
        s
    } else if is_ws(s[0]) {
        trim_spec(s.subrange(1, s.len() as int))
    } else if is_ws(s[s.len() - 1]) {
        trim_spec(s.subrange(0, s.len() - 1))
    } else {
        s
    }
}

fn is_ws_byte(b: u8) -> (r: bool)
    ensures
        r == is_ws(b),
{
    b == 9 || b == 10 || b == 13 || b == 32
}

/// Copy of `bytes` with ASCII whitespace removed from both ends.
pub fn trim(bytes: &[u8]) -> (r: Vec<u8>)
    ensures
        r@ == trim_spec(bytes@),
{
    let n = bytes.len();
    let mut lo: usize = 0;
    let mut hi: usize = n;
    proof {
        assert(bytes@.subrange(0, n as int) =~= bytes@);
    }
    while lo < hi && is_ws_byte(bytes[lo])
        invariant
            0 <= lo <= hi <= n,
            n == bytes@.len(),
            trim_spec(bytes@) == trim_spec(bytes@.subrange(lo as int, hi as int)),
        decreases hi - lo,
    {
        proof {
            let sub = bytes@.subrange(lo as int, hi as int);
            assert(sub[0] == bytes@[lo as int]);
            assert(sub.subrange(1, sub.len() as int) =~= bytes@.subrange(
                lo as int + 1,
                hi as int,
            ));
        }
        lo = lo + 1;
    }
    while lo < hi && is_ws_byte(bytes[hi - 1])
        invariant
            0 <= lo <= hi <= n,
            n == bytes@.len(),
            trim_spec(bytes@) == trim_spec(bytes@.subrange(lo as int, hi as int)),
            lo < hi ==> !is_ws(bytes@[lo as int]),
        decreases hi - lo,
    {
        proof {
            let sub = bytes@.subrange(lo as int, hi as int);
            assert(sub[0] == bytes@[lo as int]);
            assert(sub[sub.len() - 1] == bytes@[hi as int - 1]);
            assert(sub.subrange(0, sub.len() - 1) =~= bytes@.subrange(
                lo as int,
                hi as int - 1,
            ));
        }
        hi = hi - 1;
    }
    proof {
        let sub = bytes@.subrange(lo as int, hi as int);
        if sub.len() > 0 {
            assert(sub[0] == bytes@[lo as int]);
            assert(sub[sub.len() - 1] == bytes@[hi as int - 1]);
        }
        assert(trim_spec(bytes@) == sub);
    }
    let mut r: Vec<u8> = Vec::new();
    let mut i: usize = lo;
    while i < hi
        invariant
            lo <= i <= hi <= n,
            n == bytes@.len(),
            r@ == bytes@.subrange(lo as int, i as int),
        decreases hi - i,
    {
        r.push(bytes[i]);
        proof {
            assert(bytes@.subrange(lo as int, i as int).push(bytes@[i as int]) =~= bytes@
                .subrange(lo as int, i as int + 1));
        }
        i = i + 1;
    }
    r
}

/// Whether two byte slices hold the same bytes.
pub fn bytes_eq(a: &[u8], b: &[u8]) -> (r: bool)
    ensures
        r == (a@ == b@),
{
    if a.len() != b.len() {
        return false;
    }
    let n = a.len();
    let mut i: usize = 0;
    while i < n
        invariant
            0 <= i <= n,
            n == a@.len() && n == b@.len(),
            forall|j: int| 0 <= j < i ==> a@[j] == b@[j],
        decreases n - i,
    {
        if a[i] != b[i] {
            return false;
        }
        i = i + 1;
    }
    proof {
        assert(a@ =~= b@);
    }
    true
}

/// Relies on std's `str::from_utf8`: it returns `Ok` exactly when the bytes
/// are a valid UTF-8 encoding, the property vstd states as `valid_utf8`.
#[verifier::external_body]
pub(crate) fn is_text(bytes: &[u8]) -> (r: bool)
    ensures
        r == vstd::utf8::valid_utf8(bytes@),
{
    core::str::from_utf8(bytes).is_ok()
}

} // verus!
