use yt_dlp_ui::form::{checkbox_bool, DownloadForm};

#[test]
fn ticked_boxes() {
    for value in vec!["true", "1", "yes", "on", "ON", " True\n", "\tYES ", "tRUE"] {
        assert!(checkbox_bool(Some(value)), "{:?}", value);
    }
}

#[test]
fn other_boxes() {
    for value in vec!["", " ", "false", "0", "no", "off", "truee", "11", "t rue", "oN\u{200b}"] {
        assert!(!checkbox_bool(Some(value)), "{:?}", value);
    }
    assert!(!checkbox_bool(None));
}

#[test]
fn initial_form() {
    let form = DownloadForm::default();
    assert_eq!(form.playlist_url, "");
    assert_eq!(form.format, "bestaudio[ext=m4a]/bestaudio/best");
    assert_eq!(form.extractor_args, "youtube:player_client=android");
    assert_eq!(form.audio_format, "mp3");
    assert_eq!(form.audio_quality, "0");
    assert_eq!(form.download_archive, "downloaded_%(playlist_title)s.txt");
    assert_eq!(form.parse_metadata, "playlist_title:%(album)s");
    assert_eq!(
        form.output_template,
        "%(playlist_title)s/%(playlist_index)02d - %(title)s.%(ext)s"
    );
    assert!(form.force_ipv4 && form.extract_audio && form.ignore_errors);
    assert!(form.embed_metadata && form.embed_thumbnail && form.add_metadata);
}

#[test]
fn a_copy_is_the_same_form() {
    let mut form = DownloadForm::default();
    form.playlist_url = "https://example.org/list".to_string();
    form.force_ipv4 = false;
    assert_eq!(format!("{:?}", form.clone()), format!("{:?}", form));
}
