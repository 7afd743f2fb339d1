use image_viewer::utils::{
    cache_dir_under, cache_file_name, cache_key, digest_key, get_cache_path, has_image_extension, is_image,
};
use std::path::{Path, PathBuf};

#[test]
fn test_get_cache_path() {
    let source_path = "/tests/resources/image.jpg";
    let cache_path = PathBuf::from(get_cache_path("/tmp/image-viewer-cache", source_path));
    assert!(cache_path.extension().unwrap() == "webp", "Expected .webp extension, got {:?}", cache_path.extension());
    assert!(cache_path.file_stem().unwrap().len() == 64, "Expected 64 character hash, got {} characters", cache_path.file_stem().unwrap().len());
}

#[test]
fn test_is_image() {
    assert!(is_image("/tmp/some-dir/test.jpg"));
    assert!(!is_image("/tmp/some-dir/test.txt"));
}

#[test]
fn cache_dir_is_the_named_folder_under_the_root() {
    let dir = PathBuf::from(cache_dir_under("/home/user/.cache"));
    assert!(dir.ends_with("image-viewer-cache"));
    assert_eq!(dir.parent(), Some(Path::new("/home/user/.cache")));
}

#[test]
fn cache_path_lies_in_the_cache_dir_under_the_key() {
    let path = PathBuf::from(get_cache_path("/var/cache/viewer", "/photos/sunset.jpg"));
    assert_eq!(path.parent(), Some(Path::new("/var/cache/viewer")));
    assert_eq!(
        path.file_name().unwrap().to_str().unwrap(),
        "c2ef84f9262536cbec09926c72a85d2c0146a693c9b9f6120a35984b55848af9.webp"
    );
}

#[test]
fn key_is_the_hex_sha256_of_the_path() {
    assert_eq!(cache_key("abc"), "ba7816bf8f01cfea414140de5dae2223b00361a396177a9cb410ff61f20015ad");
    assert_eq!(
        cache_key("/photos/sunset.jpg"),
        "c2ef84f9262536cbec09926c72a85d2c0146a693c9b9f6120a35984b55848af9"
    );
    assert_eq!(
        cache_key("/tests/resources/image.jpg"),
        "72c85879159f75fa5f14ae18127fdc57498172eeaedd257adeb4ee1055e9f51e"
    );
}

#[test]
fn key_is_taken_over_the_utf8_bytes() {
    assert_eq!(cache_key("\u{e9}"), "4a99557e4033c3539de2eb65472017cad5f9557f7a0625a09f1c3f6e2ba69c4c");
}

#[test]
fn every_string_has_a_key_even_the_empty_one() {
    assert_eq!(cache_key(""), "e3b0c44298fc1c149afbf4c8996fb92427ae41e4649b934ca495991b7852b855");
}

#[test]
fn key_is_deterministic() {
    let paths = ["/photos/sunset.jpg", "", "relative/a.png", "C:\\Pictures\\b.gif", "/\u{5199}\u{771f}.webp"];
    for path in paths {
        assert_eq!(cache_key(path), cache_key(path));
        assert_eq!(get_cache_path("/cache", path), get_cache_path("/cache", path));
    }
}

#[test]
fn key_is_64_lowercase_hex_digits() {
    let long = "/a/very/long/path/".repeat(50);
    let paths = ["/photos/sunset.jpg", "", "x", long.as_str()];
    for path in paths {
        let key = cache_key(path);
        assert_eq!(key.len(), 64);
        assert!(key.chars().all(|c| c.is_ascii_digit() || ('a'..='f').contains(&c)));
    }
}

#[test]
fn near_duplicate_paths_have_different_keys() {
    let corpus = [
        "/photos/sunset.jpg",
        "/photos/sunset.jpG",
        "/photos/sunset.jpeg",
        "/photos/sunset.jp",
        "/photos/sunse.jpg",
        "/photos/sunset1.jpg",
        "/photos/Sunset.jpg",
        "/photos//sunset.jpg",
        "/photos/sunset.jpg ",
        " /photos/sunset.jpg",
        "photos/sunset.jpg",
        "/photo/ssunset.jpg",
    ];
    for (i, a) in corpus.iter().enumerate() {
        for (j, b) in corpus.iter().enumerate() {
            if i != j {
                assert_ne!(cache_key(a), cache_key(b), "{:?} and {:?}", a, b);
            }
        }
    }
    assert_eq!(cache_key("/photos/sunset.jpG"), "cab3ddea4ad9f2fc5932eb3eb4b310f8802b5301e39e68dec457ad381e076afa");
}

#[test]
fn spellings_of_one_file_are_different_entries() {
    let spellings = ["/photos/a.jpg", "/photos/./a.jpg", "/photos/../photos/a.jpg", "/photos/a.jpg/", "photos/a.jpg", "./photos/a.jpg"];
    for (i, a) in spellings.iter().enumerate() {
        for (j, b) in spellings.iter().enumerate() {
            if i != j {
                assert_ne!(get_cache_path("/cache", a), get_cache_path("/cache", b));
            }
        }
    }
}

#[test]
fn image_types_are_told_by_extension_whatever_its_case() {
    for path in ["a.jpg", "a.jpeg", "a.png", "a.gif", "a.bmp", "a.webp", "A.JPG", "b.Jpeg", "c.PnG", "/x/y.WEBP", "dir.d/e.GIF"] {
        assert!(is_image(path), "{}", path);
    }
}

#[test]
fn other_files_are_no_images() {
    for path in ["a.txt", "a.tiff", "a.jpg.bak", "archive.tar.gz", "jpg", "/x/png", ".jpg", "a.", "", "dir.png/readme", "a.jp", "a.jpgg", "a.svg"] {
        assert!(!is_image(path), "{}", path);
    }
}

#[test]
fn known_extensions_are_six() {
    for ext in ["jpg", "jpeg", "png", "gif", "bmp", "webp"] {
        assert!(has_image_extension(ext));
    }
    for ext in ["", "JPG", "tif", "jpe", "webpp", "ico", " png"] {
        assert!(!has_image_extension(ext), "{:?}", ext);
    }
}

#[test]
fn cached_files_are_named_by_key_and_type() {
    assert_eq!(
        cache_file_name("/photos/sunset.jpg"),
        "c2ef84f9262536cbec09926c72a85d2c0146a693c9b9f6120a35984b55848af9.webp"
    );
    assert_eq!(cache_file_name("").len(), 69);
    assert_eq!(cache_file_name("x.png"), format!("{}.webp", cache_key("x.png")));
}

#[test]
fn a_digest_is_written_in_lowercase_hex() {
    assert_eq!(digest_key(&[]), "");
    assert_eq!(digest_key(&[0x00, 0x0f, 0xa0, 0xff, 0x1b]), "000fa0ff1b");
    assert_eq!(digest_key(b"Hello world!"), "48656c6c6f20776f726c6421");
}

#[test]
fn every_byte_has_its_two_digits() {
    for byte in 0..=255u8 {
        assert_eq!(digest_key(&[byte]), format!("{:02x}", byte));
    }
    let all: Vec<u8> = (0..=255u8).collect();
    let expected: String = all.iter().map(|byte| format!("{:02x}", byte)).collect();
    assert_eq!(digest_key(&all), expected);
}
