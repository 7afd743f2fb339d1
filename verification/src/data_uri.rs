//! Thumbnail bytes as a `data:` URI that a page can show.

use crate::text::concat;
use base64::engine::general_purpose::STANDARD;
use base64::Engine;
use vstd::prelude::*;

verus! {

/// The base64 alphabet of RFC 4648, by value.
pub open spec fn base64_alphabet() -> Seq<char> {
    "ABCDEFGHIJKLMNOPQRSTUVWXYZabcdefghijklmnopqrstuvwxyz0123456789+/"@
}

/// The digit for a value below 64.
pub open spec fn base64_digit(value: int) -> char {
    base64_alphabet()[value]
}

/// The base64 text of a byte sequence, padded with `=` to a multiple of four
/// characters: each three bytes become four digits of six bits each.
pub open spec fn base64_of(data: Seq<u8>) -> Seq<char>
    decreases data.len(),
{
    if data.len() == 0 {
        Seq::empty()
    } else if data.len() == 1 {
        seq![base64_digit(data[0] as int / 4), base64_digit(data[0] as int % 4 * 16), '=', '=']
    } else if data.len() == 2 {
        seq![
            base64_digit(data[0] as int / 4),
            base64_digit(data[0] as int % 4 * 16 + data[1] as int / 16),
            base64_digit(data[1] as int % 16 * 4),
            '=',
        ]
    } else {
        seq![
            base64_digit(data[0] as int / 4),
            base64_digit(data[0] as int % 4 * 16 + data[1] as int / 16),
            base64_digit(data[1] as int % 16 * 4 + data[2] as int / 64),
            base64_digit(data[2] as int % 64),
        ] + base64_of(data.skip(3))
    }
}

/// The length of the base64 text of `len` bytes.
pub open spec fn base64_len(len: int) -> int {
    4 * ((len + 2) / 3)
}

/// A thumbnail's bytes as a `data:` URI. The media type is that of the
/// format in which thumbnails are encoded.
pub open spec fn data_uri_of(artifact: Seq<u8>) -> Seq<char> {
    "data:image/webp;base64,"@ + base64_of(artifact)
}

/// Calls `base64::engine::general_purpose::STANDARD.encode`. Trusted: the
/// text is the padded base64 form of `data` in the standard alphabet. The
/// call panics where the text's length does not fit in `usize`, which the
/// precondition leaves out.
#[verifier::external_body]
pub(crate) fn base64_encode(data: &[u8]) -> (text: String)
    requires
        base64_len(data@.len() as int) <= usize::MAX,
    ensures
        text@ == base64_of(data@),
{
    STANDARD.encode(data)
}

/// The `data:` URI that shows a thumbnail.
pub fn thumbnail_data_uri(artifact: &[u8]) -> (uri: String)
    requires
        base64_len(artifact@.len() as int) <= usize::MAX,
    ensures
        uri@ == data_uri_of(artifact@),
{
    let encoded = base64_encode(artifact);
    concat("data:image/webp;base64,", encoded.as_str())
}

} // verus!
