//! Generation of the shared authentication token: a fixed-length random
//! byte sequence, hex-encoded into an opaque ASCII secret.

use vstd::prelude::*;
use crate::text::trim_spec;

verus! {

/// How many random bytes feed the token; the token itself is twice as long.
pub const TOKEN_RANDOM_BYTES: usize = 16;

/// The ASCII code of one uppercase hex digit.
pub open spec fn hex_digit(n: u8) -> u8
    recommends
        n < 16,
{
    if n < 10 {
        (48 + n) as u8
    } else {
        (55 + n) as u8
    }
}

/// A byte is the ASCII code of an uppercase hex digit.
pub open spec fn is_hex_char(b: u8) -> bool {
    48 <= b <= 57 || 65 <= b <= 70
}

/// The uppercase hex encoding of a byte sequence: two digits per byte,
/// high digit first.
pub open spec fn hex_of(bytes: Seq<u8>) -> Seq<u8>
    decreases bytes.len(),
{
    if bytes.len() == 0 {
        Seq::empty()
    } else {
        hex_of(bytes.drop_last()) + seq![
            hex_digit(bytes.last() / 16),
            hex_digit(bytes.last() % 16),
        ]
    }
}

/// Hex encodings are twice as long as their input and hold hex digits only.
pub proof fn lemma_hex_of_shape(bytes: Seq<u8>)
    ensures
        hex_of(bytes).len() == 2 * bytes.len(),
        forall|i: int| 0 <= i < hex_of(bytes).len() ==> is_hex_char(hex_of(bytes)[i]),
    decreases bytes.len(),
{
    if bytes.len() > 0 {
        lemma_hex_of_shape(bytes.drop_last());
    }
}

fn hex_digit_byte(n: u8) -> (r: u8)
    requires
        n < 16,
    ensures
        r == hex_digit(n),
{
    if n < 10 {
        48 + n
    } else {
        55 + n
    }
}

/// The uppercase hex encoding of `bytes`.
pub fn hex_encode(bytes: &Vec<u8>) -> (r: Vec<u8>)
    ensures
        r@ == hex_of(bytes@),
{
    let mut r: Vec<u8> = Vec::new();
    let n = bytes.len();
    let mut i: usize = 0;
    while i < n
        invariant
            0 <= i <= n,
            n == bytes@.len(),
            r@ == hex_of(bytes@.take(i as int)),
        decreases n - i,
    {
        let b = bytes[i];
        r.push(hex_digit_byte(b / 16));
        r.push(hex_digit_byte(b % 16));
        proof {
            let pre = bytes@.take(i as int);
            let cur = bytes@.take(i as int + 1);
            assert(cur.drop_last() =~= pre);
            assert(cur.last() == bytes@[i as int]);
            assert(r@ =~= hex_of(pre) + seq![
                hex_digit(bytes@[i as int] / 16),
                hex_digit(bytes@[i as int] % 16),
            ]);
        }
        i = i + 1;
    }
    proof {
        assert(bytes@.take(n as int) =~= bytes@);
    }
    r
}

/// Relies on `getrandom::getrandom`: on success the buffer is filled with
/// bytes from the system's random source; nothing is promised of the
/// values, and on failure nothing is returned.
#[verifier::external_body]
fn random_bytes(n: usize) -> (r: Option<Vec<u8>>)
    ensures
        r matches Some(v) ==> v@.len() == n,
{
    let mut buf = vec![0u8; n];
    match getrandom::getrandom(&mut buf) {
        Ok(()) => Some(buf),
        Err(_) => None,
    }
}

/// Generates the shared token: the uppercase hex encoding of
/// `TOKEN_RANDOM_BYTES` random bytes, or nothing when the random source
/// fails.  The token holds hex digits only, so trimming whitespace from a
/// bare token submission leaves it unchanged.
pub fn generate_token() -> (r: Option<Vec<u8>>)
    ensures
        r matches Some(t) ==> {
            &&& t@.len() == 2 * TOKEN_RANDOM_BYTES
            &&& forall|i: int| 0 <= i < t@.len() ==> is_hex_char(t@[i])
            &&& trim_spec(t@) == t@
        },
{
    match random_bytes(TOKEN_RANDOM_BYTES) {
        Some(bytes) => {
            let t = hex_encode(&bytes);
            proof {
                lemma_hex_of_shape(bytes@);
                assert(!crate::text::is_ws(t@[0]));
                assert(!crate::text::is_ws(t@[t@.len() - 1]));
            }
            Some(t)
        },
        None => None,
    }
}

} // verus!
