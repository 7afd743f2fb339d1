use image_viewer::file_system::{
    collect_images, get_directory_contents, get_full_image_list, get_root_folders, read_dir_failure, sort_images,
    DirEntryInfo, EntryMetadata, ImageFile, Timestamp,
};
use image_viewer::image_sort::image_precedes;
use image_viewer::models::{PathTable, SortBy, SortOrder};
use image_viewer::sorting::bytes_precede;
use image_viewer::utils::cache_key;

fn at(secs: u64, nanos: u32) -> Option<Timestamp> {
    Some(Timestamp { before_epoch: false, secs, nanos })
}

fn file(dir: &str, name: &str, len: u64, modified: Option<Timestamp>) -> DirEntryInfo {
    DirEntryInfo {
        name: name.to_string(),
        path: format!("{}/{}", dir, name),
        metadata: Some(EntryMetadata { is_dir: false, is_file: true, modified, len }),
    }
}

fn folder(dir: &str, name: &str, modified: Option<Timestamp>) -> DirEntryInfo {
    DirEntryInfo {
        name: name.to_string(),
        path: format!("{}/{}", dir, name),
        metadata: Some(EntryMetadata { is_dir: true, is_file: false, modified, len: 4096 }),
    }
}

/// A directory with `file1.txt` ("Hello"), `file2.jpg` ("Hello World") and
/// `file3.png` ("Hello World!"), each modified later than the one before.
fn create_test_directory() -> Vec<DirEntryInfo> {
    vec![
        file("/tmp/test", "file3.png", 12, at(1_700_000_004, 0)),
        file("/tmp/test", "file1.txt", 5, at(1_700_000_000, 0)),
        file("/tmp/test", "file2.jpg", 11, at(1_700_000_001, 0)),
    ]
}

fn as_images(entries: &[DirEntryInfo]) -> Vec<ImageFile> {
    entries
        .iter()
        .map(|entry| {
            let metadata = entry.metadata.unwrap();
            ImageFile { name: entry.name.clone(), path: entry.path.clone(), modified: metadata.modified, len: metadata.len }
        })
        .collect()
}

fn names(images: &[ImageFile]) -> Vec<&str> {
    images.iter().map(|image| image.name.as_str()).collect()
}

#[test]
fn test_get_directory_contents() {
    let entries = create_test_directory();
    let mut image_paths = PathTable::new();

    let contents = get_directory_contents(&entries, &mut image_paths);

    assert_eq!(contents.len(), 3, "Expected 3 files, but found {}", contents.len());
    assert!(contents.iter().any(|item| item.name == "file1.txt"));
    assert!(contents.iter().any(|item| item.name == "file2.jpg"));
    assert!(contents.iter().any(|item| item.name == "file3.png"));
}

#[test]
fn test_get_full_image_list() {
    let entries = create_test_directory();
    let images = get_full_image_list(&entries, SortBy::Name, SortOrder::Asc);
    assert_eq!(images.len(), 2, "Expected 2 image files, but found {}", images.len());
    if images.len() >= 2 {
        assert!(images[0].ends_with("file2.jpg"), "Expected file2.jpg, got {}", images[0]);
        assert!(images[1].ends_with("file3.png"), "Expected file3.png, got {}", images[1]);
    }
}

#[test]
fn test_sort_images() {
    let mut images = as_images(&create_test_directory());

    sort_images(&mut images, &SortBy::Name, &SortOrder::Asc);
    assert_eq!(images.len(), 3, "Expected 3 files, but found {}", images.len());
    assert_eq!(images[0].name, "file1.txt");
    assert_eq!(images[1].name, "file2.jpg");
    assert_eq!(images[2].name, "file3.png");
}

#[test]
fn test_sort_images_by_date() {
    let mut images = as_images(&create_test_directory());

    sort_images(&mut images, &SortBy::Date, &SortOrder::Asc);
    assert_eq!(images[0].name, "file1.txt", "Expected file1.txt to be oldest");
    assert_eq!(images[1].name, "file2.jpg", "Expected file2.jpg to be second oldest");
    assert_eq!(images[2].name, "file3.png", "Expected file3.png to be newest");

    sort_images(&mut images, &SortBy::Date, &SortOrder::Desc);
    assert_eq!(images[0].name, "file3.png", "Expected file3.png to be newest");
    assert_eq!(images[1].name, "file2.jpg", "Expected file2.jpg to be second newest");
    assert_eq!(images[2].name, "file1.txt", "Expected file1.txt to be oldest");
}

#[test]
fn test_sort_images_by_size() {
    let mut images = as_images(&create_test_directory());

    sort_images(&mut images, &SortBy::Size, &SortOrder::Asc);
    assert_eq!(images[0].name, "file1.txt");
    assert_eq!(images[1].name, "file2.jpg");
    assert_eq!(images[2].name, "file3.png");

    sort_images(&mut images, &SortBy::Size, &SortOrder::Desc);
    assert_eq!(images[0].name, "file3.png");
    assert_eq!(images[1].name, "file2.jpg");
    assert_eq!(images[2].name, "file1.txt");
}

#[test]
fn rows_show_what_the_entries_hold() {
    let entries = vec![
        folder("/data", "albums", at(1_600_000_000, 999_999_999)),
        file("/data", "a.png", 77, at(1_234_567_890, 500)),
        DirEntryInfo { name: "dangling".to_string(), path: "/data/dangling".to_string(), metadata: None },
        file("/data", "notes.txt", 0, None),
        file("/data", "old.jpg", 9, Some(Timestamp { before_epoch: true, secs: 5, nanos: 1 })),
    ];
    let mut image_paths = PathTable::new();
    let items = get_directory_contents(&entries, &mut image_paths);
    let rows: Vec<(&str, &str, bool, u64, u64)> = items
        .iter()
        .map(|item| (item.name.as_str(), item.path.as_str(), item.is_dir, item.date_modified, item.size))
        .collect();
    assert_eq!(
        rows,
        vec![
            ("albums", "/data/albums", true, 1_600_000_000, 0),
            ("a.png", "/data/a.png", false, 1_234_567_890, 77),
            ("notes.txt", "/data/notes.txt", false, 0, 0),
            ("old.jpg", "/data/old.jpg", false, 0, 9),
        ]
    );
}

#[test]
fn files_are_recorded_under_the_key_of_their_path() {
    let entries = vec![
        folder("/data", "albums", None),
        file("/data", "a.png", 1, None),
        DirEntryInfo { name: "gone".to_string(), path: "/data/gone".to_string(), metadata: None },
        file("/data", "notes.txt", 2, None),
    ];
    let mut image_paths = PathTable::new();
    image_paths.insert("earlier".to_string(), "/elsewhere".to_string());
    get_directory_contents(&entries, &mut image_paths);
    assert_eq!(image_paths.get(&cache_key("/data/a.png")), Some(&"/data/a.png".to_string()));
    assert_eq!(image_paths.get(&cache_key("/data/notes.txt")), Some(&"/data/notes.txt".to_string()));
    assert_eq!(image_paths.get(&cache_key("/data/albums")), None);
    assert_eq!(image_paths.get("albums"), None);
    assert_eq!(image_paths.get(&cache_key("/data/gone")), None);
    assert_eq!(image_paths.get("earlier"), Some(&"/elsewhere".to_string()));
}

#[test]
fn empty_directory_has_no_rows() {
    let mut image_paths = PathTable::new();
    assert!(get_directory_contents(&Vec::new(), &mut image_paths).is_empty());
    assert!(get_full_image_list(&Vec::new(), SortBy::Date, SortOrder::Desc).is_empty());
}

#[test]
fn only_regular_image_files_are_listed() {
    let entries = vec![
        file("/p", "b.PNG", 1, None),
        folder("/p", "dir.jpg", None),
        file("/p", "readme.md", 1, None),
        DirEntryInfo { name: "x.gif".to_string(), path: "/p/x.gif".to_string(), metadata: None },
        DirEntryInfo {
            name: "socket.bmp".to_string(),
            path: "/p/socket.bmp".to_string(),
            metadata: Some(EntryMetadata { is_dir: false, is_file: false, modified: None, len: 0 }),
        },
        file("/p", "a.webp", 1, None),
    ];
    let found = collect_images(&entries);
    assert_eq!(names(&found), vec!["b.PNG", "a.webp"]);
    assert_eq!(get_full_image_list(&entries, SortBy::Name, SortOrder::Asc), vec!["/p/a.webp", "/p/b.PNG"]);
    assert_eq!(get_full_image_list(&entries, SortBy::Name, SortOrder::Desc), vec!["/p/b.PNG", "/p/a.webp"]);
}

#[test]
fn images_of_equal_rank_keep_their_order() {
    let entries = vec![
        file("/p", "d.png", 10, at(5, 0)),
        file("/p", "a.jpg", 10, at(5, 0)),
        file("/p", "c.png", 3, at(5, 0)),
        file("/p", "b.jpg", 10, at(5, 0)),
        file("/p", "e.gif", 3, at(5, 0)),
    ];
    let mut by_size = as_images(&entries);
    sort_images(&mut by_size, &SortBy::Size, &SortOrder::Asc);
    assert_eq!(names(&by_size), vec!["c.png", "e.gif", "d.png", "a.jpg", "b.jpg"]);

    let mut by_size_down = as_images(&entries);
    sort_images(&mut by_size_down, &SortBy::Size, &SortOrder::Desc);
    assert_eq!(names(&by_size_down), vec!["d.png", "a.jpg", "b.jpg", "c.png", "e.gif"]);

    let mut by_date = as_images(&entries);
    sort_images(&mut by_date, &SortBy::Date, &SortOrder::Desc);
    assert_eq!(names(&by_date), vec!["d.png", "a.jpg", "c.png", "b.jpg", "e.gif"]);

    let mut by_type = as_images(&entries);
    sort_images(&mut by_type, &SortBy::Type, &SortOrder::Asc);
    assert_eq!(names(&by_type), vec!["e.gif", "a.jpg", "b.jpg", "d.png", "c.png"]);

    let mut by_type_down = as_images(&entries);
    sort_images(&mut by_type_down, &SortBy::Type, &SortOrder::Desc);
    assert_eq!(names(&by_type_down), vec!["d.png", "c.png", "a.jpg", "b.jpg", "e.gif"]);
}

#[test]
fn names_are_ordered_byte_by_byte() {
    let entries = vec![
        file("/p", "b.png", 1, None),
        file("/p", "B.png", 1, None),
        file("/p", "a10.png", 1, None),
        file("/p", "a2.png", 1, None),
        file("/p", "\u{e9}.png", 1, None),
        file("/p", "a.png", 1, None),
        file("/p", "a", 1, None),
    ];
    let mut images = as_images(&entries);
    sort_images(&mut images, &SortBy::Name, &SortOrder::Asc);
    assert_eq!(names(&images), vec!["B.png", "a", "a.png", "a10.png", "a2.png", "b.png", "\u{e9}.png"]);
}

#[test]
fn type_is_the_extension_as_written_and_none_comes_first() {
    let entries = vec![
        file("/p", "x.png", 1, None),
        file("/p", "y.PNG", 1, None),
        file("/p", "noext", 1, None),
        file("/p", "z.jpg", 1, None),
        file("/p", ".hidden", 1, None),
    ];
    let mut images = as_images(&entries);
    sort_images(&mut images, &SortBy::Type, &SortOrder::Asc);
    assert_eq!(names(&images), vec!["noext", ".hidden", "y.PNG", "z.jpg", "x.png"]);
}

#[test]
fn dates_are_ordered_to_the_nanosecond_and_across_the_epoch() {
    let entries = vec![
        file("/p", "later.png", 1, at(10, 2)),
        file("/p", "unknown.png", 1, None),
        file("/p", "before.png", 1, Some(Timestamp { before_epoch: true, secs: 0, nanos: 1 })),
        file("/p", "soon.png", 1, at(10, 1)),
        file("/p", "long-before.png", 1, Some(Timestamp { before_epoch: true, secs: 3, nanos: 0 })),
        file("/p", "epoch.png", 1, at(0, 0)),
        file("/p", "far.png", 1, at(u64::MAX, 999_999_999)),
    ];
    let mut images = as_images(&entries);
    sort_images(&mut images, &SortBy::Date, &SortOrder::Asc);
    assert_eq!(
        names(&images),
        vec!["long-before.png", "before.png", "unknown.png", "epoch.png", "soon.png", "later.png", "far.png"]
    );
}

#[test]
fn sorting_keeps_every_image() {
    let mut entries = Vec::new();
    for i in 0..60u64 {
        entries.push(file("/p", &format!("img{}.png", (i * 37) % 60), (i * 7) % 5, at((i * 11) % 13, 0)));
    }
    for by in [SortBy::Name, SortBy::Type, SortBy::Date, SortBy::Size] {
        for order in [SortOrder::Asc, SortOrder::Desc] {
            let mut images = as_images(&entries);
            sort_images(&mut images, &by, &order);
            assert_eq!(images.len(), 60);
            let mut sorted_names: Vec<String> = images.iter().map(|image| image.name.clone()).collect();
            sorted_names.sort();
            let mut given: Vec<String> = entries.iter().map(|entry| entry.name.clone()).collect();
            given.sort();
            assert_eq!(sorted_names, given);
            for pair in images.windows(2) {
                assert!(!image_precedes(&pair[1], &pair[0], &by, &order));
            }
        }
    }
}

#[test]
fn sorting_agrees_with_a_stable_sort() {
    let mut entries = Vec::new();
    for i in 0..40u64 {
        entries.push(file("/p", &format!("n{}.jpg", i), (i * 3) % 4, None));
    }
    let mut images = as_images(&entries);
    sort_images(&mut images, &SortBy::Size, &SortOrder::Desc);
    let mut expected = as_images(&entries);
    expected.sort_by(|a, b| a.len.cmp(&b.len).reverse());
    assert_eq!(names(&images), names(&expected));
}

#[test]
fn bytes_are_compared_as_in_a_dictionary() {
    assert!(bytes_precede(b"", b"a"));
    assert!(!bytes_precede(b"a", b""));
    assert!(!bytes_precede(b"", b""));
    assert!(bytes_precede(b"abc", b"abd"));
    assert!(bytes_precede(b"ab", b"abc"));
    assert!(!bytes_precede(b"abc", b"ab"));
    assert!(!bytes_precede(b"abc", b"abc"));
    assert!(bytes_precede(b"Z", b"a"));
    assert!(bytes_precede(&[0x7f], &[0x80]));
    assert!(bytes_precede(&[1, 255], &[2, 0]));
}

#[test]
fn images_are_compared_by_what_the_sort_reads() {
    let small_old = ImageFile {
        name: "b.PNG".to_string(),
        path: "/p/b.PNG".to_string(),
        modified: Some(Timestamp { before_epoch: false, secs: 2, nanos: 5 }),
        len: 10,
    };
    let large_new = ImageFile {
        name: "a.jpg".to_string(),
        path: "/p/a.jpg".to_string(),
        modified: Some(Timestamp { before_epoch: false, secs: 2, nanos: 6 }),
        len: 11,
    };
    for order in [SortOrder::Asc, SortOrder::Desc] {
        let up = matches!(order, SortOrder::Asc);
        assert_eq!(image_precedes(&large_new, &small_old, &SortBy::Name, &order), up);
        assert_eq!(image_precedes(&small_old, &large_new, &SortBy::Name, &order), !up);
        assert_eq!(image_precedes(&small_old, &large_new, &SortBy::Type, &order), up);
        assert_eq!(image_precedes(&large_new, &small_old, &SortBy::Type, &order), !up);
        assert_eq!(image_precedes(&small_old, &large_new, &SortBy::Date, &order), up);
        assert_eq!(image_precedes(&large_new, &small_old, &SortBy::Date, &order), !up);
        assert_eq!(image_precedes(&small_old, &large_new, &SortBy::Size, &order), up);
        assert_eq!(image_precedes(&large_new, &small_old, &SortBy::Size, &order), !up);
        for by in [SortBy::Name, SortBy::Type, SortBy::Date, SortBy::Size] {
            assert!(!image_precedes(&small_old, &small_old, &by, &order));
        }
    }
}

#[test]
fn large_folders_are_sorted_too() {
    let mut entries = Vec::new();
    for i in 0..5000u64 {
        let scattered = (i * 7919) % 5000;
        entries.push(file("/p", &format!("img{:05}.png", scattered), scattered % 97, at(scattered % 101, 0)));
    }
    let mut by_name = as_images(&entries);
    sort_images(&mut by_name, &SortBy::Name, &SortOrder::Asc);
    for (i, image) in by_name.iter().enumerate() {
        assert_eq!(image.name, format!("img{:05}.png", i));
    }
    let mut by_size = as_images(&entries);
    sort_images(&mut by_size, &SortBy::Size, &SortOrder::Desc);
    let mut expected = as_images(&entries);
    expected.sort_by(|a, b| b.len.cmp(&a.len));
    assert_eq!(names(&by_size), names(&expected));
}

#[test]
fn roots_are_home_then_root_then_drives() {
    let roots = get_root_folders(Some("/home/user".to_string()), &Vec::new());
    let rows: Vec<(&str, &str, bool, u64, u64)> =
        roots.iter().map(|r| (r.name.as_str(), r.path.as_str(), r.is_dir, r.date_modified, r.size)).collect();
    assert_eq!(rows, vec![("Home", "/home/user", true, 0, 0), ("Root", "/", true, 0, 0)]);

    let roots = get_root_folders(None, &vec!["C".to_string(), "D".to_string(), "Z".to_string()]);
    let rows: Vec<(&str, &str, bool, u64, u64)> =
        roots.iter().map(|r| (r.name.as_str(), r.path.as_str(), r.is_dir, r.date_modified, r.size)).collect();
    assert_eq!(
        rows,
        vec![
            ("Root", "/", true, 0, 0),
            ("Drive (C:)", "C:\\", true, 0, 0),
            ("Drive (D:)", "D:\\", true, 0, 0),
            ("Drive (Z:)", "Z:\\", true, 0, 0),
        ]
    );
}

#[test]
fn a_directory_that_cannot_be_read_is_reported_with_the_reason() {
    assert_eq!(read_dir_failure("Permission denied (os error 13)"), "Failed to read directory: Permission denied (os error 13)");
    assert_eq!(read_dir_failure(""), "Failed to read directory: ");
}
