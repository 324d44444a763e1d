use yt_dlp_ui::command::{
    build_command_preview, download_command, is_blank, playlist_title,
    resolve_download_archive_name, title_command, title_in,
};
use yt_dlp_ui::config::DirectoryConfig;
use yt_dlp_ui::form::DownloadForm;
use yt_dlp_ui::paths::{path_starts_with, validate_archive};

fn directories() -> DirectoryConfig {
    DirectoryConfig { downloads_dir: "/music".to_string(), archives_dir: "/archives".to_string() }
}

fn initial() -> DownloadForm {
    let mut form = DownloadForm::default();
    form.playlist_url = "https://example.org/list".to_string();
    form
}

fn bare() -> DownloadForm {
    DownloadForm {
        playlist_url: "u".to_string(),
        format: "best".to_string(),
        extractor_args: " ".to_string(),
        force_ipv4: false,
        extract_audio: false,
        audio_format: "mp3".to_string(),
        audio_quality: "0".to_string(),
        download_archive: "".to_string(),
        ignore_errors: false,
        embed_metadata: false,
        embed_thumbnail: false,
        add_metadata: false,
        parse_metadata: "\t".to_string(),
        output_template: "/abs/%(title)s".to_string(),
    }
}

#[test]
fn full_download_command() {
    assert_eq!(
        download_command(&initial(), &directories(), Some(" AC/DC live ")),
        vec![
            "-f",
            "bestaudio[ext=m4a]/bestaudio/best",
            "--force-overwrites",
            "--extractor-args",
            "youtube:player_client=android",
            "--force-ipv4",
            "-x",
            "--audio-format",
            "mp3",
            "--audio-quality",
            "0",
            "--download-archive",
            "/archives/downloaded_AC_DC live.txt",
            "--ignore-errors",
            "--embed-metadata",
            "--embed-thumbnail",
            "--add-metadata",
            "--parse-metadata",
            "playlist_title:%(album)s",
            "-o",
            "/music/%(playlist_title)s/%(playlist_index)02d - %(title)s.%(ext)s",
            "https://example.org/list",
        ]
    );
}

#[test]
fn bare_download_command() {
    assert_eq!(
        download_command(&bare(), &directories(), None),
        vec!["-f", "best", "--force-overwrites", "-o", "/abs/%(title)s", "u"]
    );
}

#[test]
fn each_flag_has_its_argument() {
    let mut form = bare();
    form.ignore_errors = true;
    assert_eq!(download_command(&form, &directories(), None)[3], "--ignore-errors");
    let mut form = bare();
    form.embed_metadata = true;
    assert_eq!(download_command(&form, &directories(), None)[3], "--embed-metadata");
    let mut form = bare();
    form.embed_thumbnail = true;
    assert_eq!(download_command(&form, &directories(), None)[3], "--embed-thumbnail");
    let mut form = bare();
    form.add_metadata = true;
    assert_eq!(download_command(&form, &directories(), None)[3], "--add-metadata");
    let mut form = bare();
    form.force_ipv4 = true;
    assert_eq!(download_command(&form, &directories(), None)[3], "--force-ipv4");
}

#[test]
fn full_preview() {
    assert_eq!(
        build_command_preview(&initial(), "yt-dlp", &directories()),
        "yt-dlp -f bestaudio[ext=m4a]/bestaudio/best --extractor-args \
         youtube:player_client=android --force-ipv4 -x --audio-format mp3 --audio-quality 0 \
         --download-archive /archives/downloaded_%(playlist_title)s.txt --ignore-errors \
         --embed-metadata --embed-thumbnail --add-metadata --parse-metadata \
         playlist_title:%(album)s -o \
         /music/%(playlist_title)s/%(playlist_index)02d - %(title)s.%(ext)s \
         https://example.org/list"
    );
}

#[test]
fn preview_shows_the_command() {
    for form in vec![initial(), bare()] {
        let mut words = download_command(&form, &directories(), None);
        words.remove(2);
        words.insert(0, "/bin/yt-dlp".to_string());
        assert_eq!(build_command_preview(&form, "/bin/yt-dlp", &directories()), words.join(" "));
    }
}

#[test]
fn preview_with_the_archive_resolved_shows_the_command() {
    for title in vec![None, Some("Mix"), Some(" AC/DC "), Some("")] {
        let mut words = download_command(&initial(), &directories(), title);
        words.remove(2);
        words.insert(0, "yt-dlp".to_string());
        let mut resolved = initial();
        resolved.download_archive =
            resolve_download_archive_name(&initial().download_archive, title);
        assert_eq!(build_command_preview(&resolved, "yt-dlp", &directories()), words.join(" "));
    }
}

#[test]
fn archive_path_of_a_download_is_accepted() {
    let mut form = bare();
    form.download_archive = "a\\%(playlist_title)s/b".to_string();
    let words = download_command(&form, &directories(), Some("x/y"));
    assert_eq!(words[3], "--download-archive");
    assert_eq!(words[4], "/archives/a_x_y_b");
    assert_eq!(validate_archive("/archives", "a_x_y_b").unwrap(), words[4]);
}

#[test]
fn output_path_lies_under_the_downloads_folder() {
    for mut form in vec![initial(), bare()] {
        form.output_template = "%(album)s/%(title)s".to_string();
        let words = download_command(&form, &directories(), None);
        let n = words.len();
        assert_eq!(words[n - 3], "-o");
        assert_eq!(words[n - 2], "/music/%(album)s/%(title)s");
        assert_eq!(words[n - 1], form.playlist_url);
        assert!(path_starts_with(&words[n - 2], "/music"));
    }
}

#[test]
fn archive_names() {
    let resolve = resolve_download_archive_name;
    assert_eq!(resolve("d_%(playlist_title)s.txt", Some("Mix")), "d_Mix.txt");
    assert_eq!(resolve("d_%(playlist_title)s.txt", Some("  a/b\\c ")), "d_a_b_c.txt");
    assert_eq!(
        resolve("%(playlist_title)s-%(playlist_title)s", Some("%(playlist_title)s!")),
        "%(playlist_title)s!-%(playlist_title)s!"
    );
    assert_eq!(resolve("d_%(playlist_title)s.txt", None), "d_%(playlist_title)s.txt");
    assert_eq!(resolve("plain.txt", Some("Mix")), "plain.txt");
    assert_eq!(resolve("  ", Some("Mix")), "  ");
    assert_eq!(resolve("", None), "");
    assert_eq!(resolve("%(playlist_title)s", Some(" ")), "");
}

#[test]
fn blank_texts() {
    assert!(is_blank("") && is_blank(" \t\r\n\u{3000}"));
    assert!(!is_blank(" x "));
}

#[test]
fn title_arguments() {
    assert_eq!(
        title_command("u"),
        vec!["--print", "%(playlist_title)s", "--playlist-items", "1", "u"]
    );
}

#[test]
fn titles_in_output() {
    assert_eq!(title_in("\n  \r\n  Road Mix \r\nOther\n").as_deref(), Some("Road Mix"));
    assert_eq!(title_in("One").as_deref(), Some("One"));
    assert_eq!(title_in(""), None);
    assert_eq!(title_in(" \n\t\n"), None);
}

#[test]
fn titles_of_playlists() {
    assert_eq!(playlist_title(true, "Größe\n".as_bytes()).as_deref(), Some("Größe"));
    assert_eq!(playlist_title(false, b"Mix\n"), None);
    assert_eq!(playlist_title(true, b""), None);
    assert_eq!(playlist_title(true, b"a\xffb\n").as_deref(), Some("a\u{fffd}b"));
}
