use image_viewer::config::{
    config_base_variable, config_dir, config_path, get_startup_info, load_config, save_last_folder, startup_source,
    AppConfig, PathKind, StartupFacts, StartupInfo, StartupSource,
};

#[test]
fn test_get_startup_info() {
    let test_file = "/tmp/some-dir/test.txt".to_string();
    let source = startup_source(Some(test_file.clone()), &vec!["viewer".to_string(), "/elsewhere".to_string()]);
    let facts = match source {
        StartupSource::TestFile(path) => StartupFacts::TestFile(path),
        _ => panic!("the test file decides"),
    };
    let result = get_startup_info(facts);
    assert!(result.is_ok(), "get_startup_info failed: {:?}", result.err());
    let startup_info = result.unwrap();
    assert_eq!(startup_info.folder, "/tmp/some-dir");
    assert_eq!(startup_info.file, Some(test_file));
}

#[test]
fn test_save_last_folder() {
    let test_folder = "/tmp/some-dir/test_folder".to_string();
    let config = save_last_folder(test_folder.clone());
    assert_eq!(config.last_folder, Some(test_folder));
    let config_path = config_path(false, "/tmp/some-dir");
    assert_eq!(config_path, "/tmp/some-dir/.config/image_viewer_config.json");
}

#[test]
fn the_first_argument_decides_when_no_test_file_is_set() {
    let args = vec!["viewer".to_string(), "/photos".to_string(), "ignored".to_string()];
    assert!(matches!(startup_source(None, &args), StartupSource::Argument(path) if path == "/photos"));
    assert!(matches!(startup_source(None, &vec!["viewer".to_string()]), StartupSource::LastFolder));
    assert!(matches!(startup_source(None, &Vec::new()), StartupSource::LastFolder));
    assert!(matches!(startup_source(Some("/t".to_string()), &Vec::new()), StartupSource::TestFile(path) if path == "/t"));
}

#[test]
fn an_argument_opens_as_what_it_is() {
    let file = get_startup_info(StartupFacts::Argument { path: "/photos/a.jpg".to_string(), kind: PathKind::File }).unwrap();
    assert_eq!((file.folder.as_str(), file.file.as_deref()), ("/photos", Some("/photos/a.jpg")));

    let dir = get_startup_info(StartupFacts::Argument { path: "/photos".to_string(), kind: PathKind::Directory }).unwrap();
    assert_eq!((dir.folder.as_str(), dir.file), ("/photos", None));

    let other = get_startup_info(StartupFacts::Argument { path: "/nowhere".to_string(), kind: PathKind::Other });
    assert_eq!(other.err(), Some("Invalid path".to_string()));
}

#[test]
fn a_file_without_a_parent_opens_nothing() {
    let rootless = get_startup_info(StartupFacts::TestFile("/".to_string()));
    assert_eq!(rootless.err(), Some("Invalid file path".to_string()));
    let empty = get_startup_info(StartupFacts::Argument { path: "".to_string(), kind: PathKind::File });
    assert_eq!(empty.err(), Some("Invalid file path".to_string()));
}

#[test]
fn a_bare_file_name_opens_in_the_empty_folder() {
    let info = get_startup_info(StartupFacts::TestFile("a.jpg".to_string())).unwrap();
    assert_eq!((info.folder.as_str(), info.file.as_deref()), ("", Some("a.jpg")));
}

#[test]
fn the_last_folder_is_opened_or_the_current_one() {
    let saved = StartupFacts::Saved(Ok(AppConfig { last_folder: Some("/photos/2024".to_string()) }));
    let info: StartupInfo = get_startup_info(saved).unwrap();
    assert_eq!((info.folder.as_str(), info.file), ("/photos/2024", None));

    let nothing = get_startup_info(StartupFacts::Saved(Ok(AppConfig { last_folder: None }))).unwrap();
    assert_eq!((nothing.folder.as_str(), nothing.file), (".", None));

    let failed = get_startup_info(StartupFacts::Saved(Err("environment variable not found".to_string())));
    assert_eq!(failed.err(), Some("environment variable not found".to_string()));
}

#[test]
fn no_configuration_file_means_nothing_is_remembered() {
    assert_eq!(load_config(None).unwrap().last_folder, None);
    let held = load_config(Some(Ok(AppConfig { last_folder: Some("/p".to_string()) }))).unwrap();
    assert_eq!(held.last_folder, Some("/p".to_string()));
    let broken = load_config(Some(Err("expected value at line 1 column 1".to_string())));
    assert_eq!(broken.err(), Some("expected value at line 1 column 1".to_string()));
}

#[test]
fn configuration_lives_under_the_platform_base() {
    assert_eq!(config_base_variable(true), "APPDATA");
    assert_eq!(config_base_variable(false), "HOME");
    assert_eq!(config_dir(false, "/home/user"), "/home/user/.config");
    assert_eq!(config_dir(true, "C:\\Users\\u\\AppData\\Roaming"), "C:\\Users\\u\\AppData\\Roaming");
    assert_eq!(config_path(false, "/home/user"), "/home/user/.config/image_viewer_config.json");
}
