use yt_dlp_ui::clock::Timestamp;
use yt_dlp_ui::config::{
    bind_address, directories_from_form, AppConfig, AppPaths, DirectoryConfig, DirectoryForm,
    StoredState,
};
use yt_dlp_ui::error::AppError;
use yt_dlp_ui::paths::path_starts_with;
use yt_dlp_ui::schedule::{AlbumSchedule, ScheduleFrequency};
use yt_dlp_ui::sources::AlbumSource;

fn nothing_stored() -> StoredState {
    StoredState {
        directories: None,
        downloads_override: None,
        archives_override: None,
        schedules: None,
        album_sources: None,
    }
}

fn config_of(stored: StoredState) -> AppConfig {
    AppConfig::from_env(AppPaths::from_env(Some("/data".to_string()), None), stored)
}

fn schedule(album: &str, playlist_url: &str) -> AlbumSchedule {
    AlbumSchedule {
        album: album.to_string(),
        playlist_url: playlist_url.to_string(),
        frequency: ScheduleFrequency::Daily,
        last_run_ts: None,
    }
}

fn reason(e: AppError) -> String {
    match e {
        AppError::Invalid(m) => m,
        other => panic!("{:?}", other),
    }
}

#[test]
fn default_address() {
    assert_eq!(bind_address(None), "0.0.0.0:8090");
    assert_eq!(bind_address(Some("127.0.0.1:80".to_string())), "127.0.0.1:80");
}

#[test]
fn default_paths() {
    let paths = AppPaths::from_env(None, None);
    assert_eq!(paths.data_dir, "./data");
    assert_eq!(paths.yt_dlp_path, "yt-dlp");
    assert_eq!(paths.settings_path, "./data/settings.json");
    assert_eq!(paths.schedules_path, "./data/schedules.json");
    assert_eq!(paths.album_sources_path, "./data/album_sources.json");
}

#[test]
fn given_paths() {
    let paths = AppPaths::from_env(Some("/data/".to_string()), Some("/usr/bin/yt-dlp".to_string()));
    assert_eq!(paths.data_dir, "/data/");
    assert_eq!(paths.yt_dlp_path, "/usr/bin/yt-dlp");
    assert_eq!(paths.settings_path, "/data/settings.json");
}

#[test]
fn default_state_lies_under_the_data_directory() {
    for data_dir in vec!["/data", "./data", "data/", "", "/"] {
        let paths = AppPaths::from_env(Some(data_dir.to_string()), None);
        let config = AppConfig::from_env(paths, nothing_stored());
        assert!(path_starts_with(&config.paths.settings_path, data_dir));
        assert!(path_starts_with(&config.paths.schedules_path, data_dir));
        assert!(path_starts_with(&config.paths.album_sources_path, data_dir));
        assert!(path_starts_with(&config.directories.downloads_dir, data_dir));
        assert!(path_starts_with(&config.directories.archives_dir, data_dir));
    }
}

#[test]
fn nothing_stored_gives_defaults() {
    let config = config_of(nothing_stored());
    assert_eq!(config.directories.downloads_dir, "/data/downloads");
    assert_eq!(config.directories.archives_dir, "/data/archives");
    assert!(config.album_schedules.is_empty());
    assert!(config.album_sources.entries().is_empty());
}

#[test]
fn stored_state_is_taken() {
    let mut stored = nothing_stored();
    stored.directories = Some(DirectoryConfig {
        downloads_dir: "/m".to_string(),
        archives_dir: "/a".to_string(),
    });
    stored.schedules = Some(vec![schedule("Mix", "u")]);
    stored.album_sources = Some(vec![AlbumSource {
        album: "Mix".to_string(),
        playlist_url: "v".to_string(),
    }]);
    let config = config_of(stored);
    assert_eq!(config.directories.downloads_dir, "/m");
    assert_eq!(config.directories.archives_dir, "/a");
    assert_eq!(config.schedule_for_album("Mix").unwrap().playlist_url, "u");
    assert_eq!(config.album_playlist_url("Mix").as_deref(), Some("v"));
}

#[test]
fn variables_override_stored_and_default_directories() {
    let mut stored = nothing_stored();
    stored.directories = Some(DirectoryConfig {
        downloads_dir: "/m".to_string(),
        archives_dir: "/a".to_string(),
    });
    stored.downloads_override = Some("/downloads".to_string());
    let config = config_of(stored);
    assert_eq!(config.directories.downloads_dir, "/downloads");
    assert_eq!(config.directories.archives_dir, "/a");

    let mut stored = nothing_stored();
    stored.archives_override = Some("/archives".to_string());
    let config = config_of(stored);
    assert_eq!(config.directories.downloads_dir, "/data/downloads");
    assert_eq!(config.directories.archives_dir, "/archives");
}

#[test]
fn directories_change_together() {
    let mut config = config_of(nothing_stored());
    config.set_directories("/x".to_string(), "/y".to_string()).unwrap();
    assert_eq!(config.directories.downloads_dir, "/x");
    assert_eq!(config.directories.archives_dir, "/y");
    for (a, b) in vec![("", "/z"), ("/z", ""), ("", "")] {
        let refused = config.set_directories(a.to_string(), b.to_string()).unwrap_err();
        assert_eq!(reason(refused), "Directory paths must not be empty");
        assert_eq!(
            reason(AppConfig::check_directories(a, b).unwrap_err()),
            "Directory paths must not be empty"
        );
        assert_eq!(config.directories.downloads_dir, "/x");
        assert_eq!(config.directories.archives_dir, "/y");
    }
    assert!(AppConfig::check_directories("/x", "/y").is_ok());
}

#[test]
fn schedules_come_and_go() {
    let mut config = config_of(nothing_stored());
    assert!(config.schedule_for_album("A").is_none());
    config.upsert_schedule(schedule("A", "1"));
    config.upsert_schedule(schedule("B", "2"));
    config.upsert_schedule(schedule("A", "3"));
    let albums: Vec<String> = config.album_schedules.iter().map(|s| s.album.clone()).collect();
    assert_eq!(albums, vec!["A", "B"]);
    assert_eq!(config.schedule_for_album("A").unwrap().playlist_url, "3");
    assert_eq!(config.schedule_for_album("B").unwrap().playlist_url, "2");

    config.mark_schedule_run("B", Timestamp::new(1_700_000_000, 5).unwrap());
    assert_eq!(config.schedule_for_album("B").unwrap().last_run_ts, Some(1_700_000_000));
    assert_eq!(config.schedule_for_album("A").unwrap().last_run_ts, None);
    config.mark_schedule_run("C", Timestamp::new(1, 0).unwrap());
    assert_eq!(config.album_schedules.len(), 2);

    config.clear_schedule("A");
    assert!(config.schedule_for_album("A").is_none());
    assert_eq!(config.schedule_for_album("B").unwrap().playlist_url, "2");
    config.clear_schedule("A");
    assert_eq!(config.album_schedules.len(), 1);
}

#[test]
fn all_schedules_of_an_album_are_cleared() {
    let mut stored = nothing_stored();
    stored.schedules =
        Some(vec![schedule("A", "1"), schedule("B", "2"), schedule("A", "3"), schedule("A", "4")]);
    let mut config = config_of(stored);
    assert_eq!(config.schedule_for_album("A").unwrap().playlist_url, "1");
    config.clear_schedule("A");
    assert_eq!(config.album_schedules.len(), 1);
    assert_eq!(config.album_schedules[0].album, "B");
}

#[test]
fn playlists_of_albums() {
    let mut config = config_of(nothing_stored());
    assert!(config.album_playlist_url("Mix").is_none());
    config.set_album_playlist("Mix".to_string(), "u1".to_string());
    config.set_album_playlist("Mix".to_string(), "u2".to_string());
    assert_eq!(config.album_playlist_url("Mix").as_deref(), Some("u2"));
}

#[test]
fn settings_form() {
    let form = DirectoryForm {
        downloads_dir: " /music ".to_string(),
        archives_dir: "/archives\n".to_string(),
    };
    let directories = directories_from_form(&form).unwrap();
    assert_eq!(directories.downloads_dir, "/music");
    assert_eq!(directories.archives_dir, "/archives");
    assert_eq!(directories.clone().archives_dir, "/archives");

    let form = DirectoryForm { downloads_dir: " ".to_string(), archives_dir: "".to_string() };
    assert_eq!(
        reason(directories_from_form(&form).unwrap_err()),
        "Downloads directory cannot be empty"
    );
    let form = DirectoryForm { downloads_dir: "x".to_string(), archives_dir: "\t".to_string() };
    assert_eq!(
        reason(directories_from_form(&form).unwrap_err()),
        "Archive directory cannot be empty"
    );
}
