//! SHA-256 digests and their lowercase hexadecimal form.

use sha2::{Digest, Sha256};
use vstd::prelude::*;

verus! {

/// The SHA-256 digest of a byte sequence.
pub uninterp spec fn sha256(data: Seq<u8>) -> Seq<u8>;

/// The sixteen lowercase hexadecimal digits, by value.
pub open spec fn hex_digits() -> Seq<char> {
    seq!['0', '1', '2', '3', '4', '5', '6', '7', '8', '9', 'a', 'b', 'c', 'd', 'e', 'f']
}

/// Lowercase hexadecimal text of a byte sequence: two digits per byte, the
/// high half first.
pub open spec fn hex_lower(data: Seq<u8>) -> Seq<char> {
    Seq::new(
        2 * data.len(),
        |i: int|
            if i % 2 == 0 {
                hex_digits()[data[i / 2] as int / 16]
            } else {
                hex_digits()[data[i / 2] as int % 16]
            },
    )
}

/// Whether a text is made of lowercase hexadecimal digits alone.
pub open spec fn is_lower_hex(text: Seq<char>) -> bool {
    forall|i: int| 0 <= i < text.len() ==> hex_digits().contains(#[trigger] text[i])
}

/// Hexadecimal text has two digits for each byte, and nothing but digits.
pub proof fn lemma_hex_lower_shape(data: Seq<u8>)
    ensures
        hex_lower(data).len() == 2 * data.len(),
        is_lower_hex(hex_lower(data)),
{
    assert forall|i: int| 0 <= i < hex_lower(data).len() implies hex_digits().contains(
        #[trigger] hex_lower(data)[i],
    ) by {
        let byte = data[i / 2] as int;
        let value = if i % 2 == 0 {
            byte / 16
        } else {
            byte % 16
        };
        assert(0 <= value < 16);
        assert(hex_lower(data)[i] == hex_digits()[value]);
    }
}

/// Different bytes have different hexadecimal text.
pub proof fn lemma_hex_lower_injective(a: Seq<u8>, b: Seq<u8>)
    requires
        hex_lower(a) == hex_lower(b),
    ensures
        a == b,
{
    assert(hex_lower(a).len() == 2 * a.len());
    assert(hex_lower(b).len() == 2 * b.len());
    assert forall|i: int| 0 <= i < a.len() implies a[i] == b[i] by {
        let x = a[i] as int;
        let y = b[i] as int;
        assert((2 * i) % 2 == 0 && (2 * i) / 2 == i);
        assert((2 * i + 1) % 2 == 1 && (2 * i + 1) / 2 == i);
        assert(hex_lower(a)[2 * i] == hex_digits()[x / 16]);
        assert(hex_lower(b)[2 * i] == hex_digits()[y / 16]);
        assert(hex_lower(a)[2 * i + 1] == hex_digits()[x % 16]);
        assert(hex_lower(b)[2 * i + 1] == hex_digits()[y % 16]);
        lemma_hex_digits_differ(x / 16, y / 16);
        lemma_hex_digits_differ(x % 16, y % 16);
    }
    assert(a =~= b);
}

/// No two values below sixteen share a digit.
proof fn lemma_hex_digits_differ(m: int, n: int)
    requires
        0 <= m < 16,
        0 <= n < 16,
        hex_digits()[m] == hex_digits()[n],
    ensures
        m == n,
{
}

/// Calls `sha2::Sha256::digest`. Trusted: the bytes returned are the SHA-256
/// digest of `data`, which is always 32 bytes long.
#[verifier::external_body]
pub(crate) fn sha256_digest(data: &[u8]) -> (digest: Vec<u8>)
    ensures
        digest@ == sha256(data@),
        digest@.len() == 32,
{
    Sha256::digest(data).to_vec()
}

/// Calls `hex::encode`. Trusted: every byte becomes two lowercase
/// hexadecimal digits, the high four bits first.
#[verifier::external_body]
pub(crate) fn hex_encode(data: &[u8]) -> (text: String)
    ensures
        text@ == hex_lower(data@),
{
    hex::encode(data)
}

} // verus!
