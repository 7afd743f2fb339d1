//! The key and the file under which a source path's thumbnail is cached, and
//! the test that tells images from other files by their extension.

use crate::hashing::{
    hex_encode, hex_lower, is_lower_hex, lemma_hex_lower_injective, lemma_hex_lower_shape, sha256,
    sha256_digest,
};
use crate::text::lemma_utf8_injective;
use crate::paths::{extension, join, path_extension, path_join};
use crate::text::{concat, lowercase, lowercase_of, str_eq};
use vstd::prelude::*;
use vstd::string::*;
use vstd::utf8::encode_utf8;

verus! {

/// The cache key of a source path: the lowercase hexadecimal SHA-256 digest
/// of the path's UTF-8 bytes. The path is taken as written: it is neither
/// resolved nor normalised.
pub open spec fn cache_key_of(source_path: Seq<char>) -> Seq<char> {
    hex_lower(sha256(encode_utf8(source_path)))
}

/// The name of the file that holds the thumbnail of `source_path`.
pub open spec fn cache_file_name_of(source_path: Seq<char>) -> Seq<char> {
    cache_key_of(source_path) + ".webp"@
}

/// The path of that file in the cache directory `cache_dir`.
pub open spec fn cache_path_of(cache_dir: Seq<char>, source_path: Seq<char>) -> Seq<char> {
    path_join(cache_dir, cache_file_name_of(source_path))
}

/// The application's cache directory below the platform's cache root.
pub open spec fn cache_dir_of(cache_root: Seq<char>) -> Seq<char> {
    path_join(cache_root, "image-viewer-cache"@)
}

/// The key that stands for a digest: its bytes in lowercase hexadecimal,
/// two digits each.
pub fn digest_key(digest: &[u8]) -> (key: String)
    ensures
        key@ == hex_lower(digest@),
        key@.len() == 2 * digest@.len(),
        is_lower_hex(key@),
{
    proof {
        lemma_hex_lower_shape(digest@);
    }
    hex_encode(digest)
}

/// Derives the cache key of a source path. Total: every string has a key,
/// and the key is always 64 lowercase hexadecimal digits.
pub fn cache_key(source_path: &str) -> (key: String)
    ensures
        key@ == cache_key_of(source_path@),
        key@.len() == 64,
        is_lower_hex(key@),
{
    let digest = sha256_digest(source_path.as_bytes());
    digest_key(digest.as_slice())
}

/// The key is a function of the path's characters: the same path has the
/// same key, whenever and wherever it is derived.
pub proof fn lemma_key_is_deterministic(first: Seq<char>, second: Seq<char>)
    requires
        first == second,
    ensures
        cache_key_of(first) == cache_key_of(second),
{
}

/// Two paths share a key exactly when SHA-256 gives their bytes the same
/// digest; and paths that differ in any character differ in their bytes. So
/// different paths, however alike, have different keys unless SHA-256
/// collides on them.
pub proof fn lemma_keys_differ_unless_digests_collide(first: Seq<char>, second: Seq<char>)
    ensures
        cache_key_of(first) == cache_key_of(second) <==> sha256(encode_utf8(first)) == sha256(
            encode_utf8(second),
        ),
        first != second ==> encode_utf8(first) != encode_utf8(second),
{
    if cache_key_of(first) == cache_key_of(second) {
        lemma_hex_lower_injective(sha256(encode_utf8(first)), sha256(encode_utf8(second)));
    }
    if encode_utf8(first) == encode_utf8(second) {
        lemma_utf8_injective(first, second);
    }
}

/// The application's cache directory below `cache_root`.
pub fn cache_dir_under(cache_root: &str) -> (dir: String)
    ensures
        dir@ == cache_dir_of(cache_root@),
{
    join(cache_root, "image-viewer-cache")
}

/// The name of the file that caches the thumbnail of `source_path`: the 64
/// digits of the key, then `.webp`.
pub fn cache_file_name(source_path: &str) -> (name: String)
    ensures
        name@ == cache_file_name_of(source_path@),
        name@.len() == 69,
        name@.subrange(0, 64) == cache_key_of(source_path@),
        name@.subrange(64, 69) == ".webp"@,
{
    let key = cache_key(source_path);
    let name = concat(key.as_str(), ".webp");
    proof {
        reveal_strlit(".webp");
        assert(name@.subrange(0, 64) =~= key@);
        assert(name@.subrange(64, 69) =~= ".webp"@);
    }
    name
}

/// The path under which the thumbnail of `source_path` is cached in
/// `cache_dir`: the file of that name directly in the directory.
pub fn get_cache_path(cache_dir: &str, source_path: &str) -> (path: String)
    ensures
        path@ == cache_path_of(cache_dir@, source_path@),
{
    let file_name = cache_file_name(source_path);
    join(cache_dir, file_name.as_str())
}

/// Whether a lowercase extension is one of the image types that the viewer
/// shows.
pub open spec fn is_image_extension(lowered: Seq<char>) -> bool {
    lowered == "jpg"@ || lowered == "jpeg"@ || lowered == "png"@ || lowered == "gif"@ || lowered
        == "bmp"@ || lowered == "webp"@
}

/// Whether a path names an image: it has an extension, and the extension's
/// lowercase form is that of an image type.
pub open spec fn is_image_path(path: Seq<char>) -> bool {
    match path_extension(path) {
        Some(ext) => is_image_extension(lowercase_of(ext)),
        None => false,
    }
}

/// Whether `lowered`, an extension in lowercase, is that of an image type.
pub fn has_image_extension(lowered: &str) -> (known: bool)
    ensures
        known == is_image_extension(lowered@),
{
    str_eq(lowered, "jpg") || str_eq(lowered, "jpeg") || str_eq(lowered, "png") || str_eq(
        lowered,
        "gif",
    ) || str_eq(lowered, "bmp") || str_eq(lowered, "webp")
}

/// Whether `path` names an image, judged by its extension alone. The file
/// is not looked at.
pub fn is_image(path: &str) -> (image: bool)
    ensures
        image == is_image_path(path@),
{
    match extension(path) {
        Some(ext) => {
            let lowered = lowercase(ext.as_str());
            has_image_extension(lowered.as_str())
        },
        None => false,
    }
}

} // verus!
