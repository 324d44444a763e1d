use std::path::Path;

use yt_dlp_ui::error::AppError;
use yt_dlp_ui::paths::{
    album_file_path, is_absolute, join_path, parse_directory_path, path_starts_with,
    sanitize_child_path, sanitize_file_name, validate_album, validate_archive,
};

fn reason(e: AppError) -> String {
    match e {
        AppError::Invalid(m) => m,
        other => panic!("{:?}", other),
    }
}

fn samples() -> Vec<&'static str> {
    vec![
        "",
        ".",
        "..",
        "/",
        "//",
        "a",
        "a/",
        "./a",
        "a/.",
        "a/./b",
        "a//b",
        "/a",
        "/./a",
        "/a/b/",
        "./data",
        "data/downloads",
        "a/../b",
        "ab",
        "Ünïcode/x",
    ]
}

#[test]
fn join_agrees_with_path() {
    for root in samples() {
        for name in samples() {
            let expected = Path::new(root).join(name).to_string_lossy().to_string();
            assert_eq!(join_path(root, name), expected, "{:?} {:?}", root, name);
        }
    }
    assert_eq!(join_path("./data", "settings.json"), "./data/settings.json");
    assert_eq!(join_path("/data/", "x"), "/data/x");
}

#[test]
fn absolute_agrees_with_path() {
    for path in samples() {
        assert_eq!(is_absolute(path), Path::new(path).is_absolute());
    }
}

#[test]
fn starts_with_agrees_with_path() {
    for path in samples() {
        for base in samples() {
            assert_eq!(
                path_starts_with(path, base),
                Path::new(path).starts_with(base),
                "{:?} under {:?}",
                path,
                base
            );
        }
    }
    assert!(!path_starts_with("/music2/x", "/music"));
}

#[test]
fn accepted_child_stays_inside() {
    for root in vec!["/music", "./data/downloads", "", "/"] {
        for name in vec!["Album", "a/b", "", ".", "a.b", "./x", "x/"] {
            let path = sanitize_child_path(root, name).unwrap();
            assert_eq!(path, join_path(root, name));
            assert!(Path::new(&path).starts_with(root));
            assert_eq!(validate_album(root, name).unwrap(), path);
        }
    }
}

#[test]
fn joining_appends_the_entries_of_the_name() {
    let path = join_path("./data", "a/./b//c");
    let mut steps: Vec<_> = Path::new("./data").components().collect();
    steps.extend(Path::new("a/b/c").components());
    assert_eq!(Path::new(&path).components().collect::<Vec<_>>(), steps);
}

#[test]
fn climbing_names_are_refused() {
    for name in vec!["..", "../x", "a/../b", "a..b", "/..", "..."] {
        assert_eq!(
            reason(sanitize_child_path("/music", name).unwrap_err()),
            "Invalid path component"
        );
        assert_eq!(
            reason(validate_album("/music", name).unwrap_err()),
            "Invalid path component"
        );
    }
}

#[test]
fn absolute_names_are_refused() {
    assert_eq!(
        reason(sanitize_child_path("/music", "/etc/passwd").unwrap_err()),
        "Absolute paths are not allowed"
    );
    assert_eq!(
        reason(validate_album("/music", "/").unwrap_err()),
        "Absolute paths are not allowed"
    );
}

#[test]
fn album_files() {
    assert_eq!(
        album_file_path("/music", "Album", "01 - Song.mp3").unwrap(),
        "/music/Album/01 - Song.mp3"
    );
    assert_eq!(
        reason(album_file_path("/music", "..", "/x").unwrap_err()),
        "Invalid path component"
    );
    assert_eq!(
        reason(album_file_path("/music", "/a", "..").unwrap_err()),
        "Absolute paths are not allowed"
    );
    assert_eq!(
        reason(album_file_path("/music", "Album", "../x").unwrap_err()),
        "Invalid path component"
    );
    assert_eq!(
        reason(album_file_path("/music", "Album", "/x").unwrap_err()),
        "Absolute paths are not allowed"
    );
}

#[test]
fn archives_are_direct_children() {
    assert_eq!(
        validate_archive("/archives", "downloaded_Mix.txt").unwrap(),
        "/archives/downloaded_Mix.txt"
    );
    let path = validate_archive("/archives", "a..b").unwrap();
    assert_eq!(Path::new(&path).parent(), Some(Path::new("/archives")));
    for name in vec!["a/b", "/a", "a\\b", "\\"] {
        assert_eq!(
            reason(validate_archive("/archives", name).unwrap_err()),
            "Archive name must not contain path separators"
        );
    }
}

#[test]
fn names_without_an_entry_are_accepted_as_archives() {
    assert_eq!(validate_archive("/archives", "..").unwrap(), "/archives/..");
    assert_eq!(validate_archive("/archives", "").unwrap(), "/archives/");
}

#[test]
fn sanitized_names_are_plain() {
    assert_eq!(sanitize_file_name("AC/DC \\ live"), "AC_DC _ live");
    assert_eq!(sanitize_file_name("plain"), "plain");
    assert_eq!(sanitize_file_name(""), "");
    let once = sanitize_file_name("/a\\b/");
    assert_eq!(once, "_a_b_");
    assert_eq!(sanitize_file_name(&once), once);
    assert!(validate_archive("/archives", &once).is_ok());
}

#[test]
fn directory_fields() {
    assert_eq!(parse_directory_path("  /mnt/music \n", "Downloads directory").unwrap(), "/mnt/music");
    assert_eq!(
        reason(parse_directory_path(" \t", "Downloads directory").unwrap_err()),
        "Downloads directory cannot be empty"
    );
}
