use yt_dlp_ui::sources::{AlbumSource, AlbumSources};

fn source(album: &str, playlist_url: &str) -> AlbumSource {
    AlbumSource { album: album.to_string(), playlist_url: playlist_url.to_string() }
}

#[test]
fn recorded_playlist_is_found() {
    let mut sources = AlbumSources::new();
    assert!(sources.get("Mix").is_none());
    sources.insert("Mix".to_string(), "u1".to_string());
    sources.insert("Other".to_string(), "u2".to_string());
    sources.insert("Mix".to_string(), "u3".to_string());
    assert_eq!(sources.get("Mix").as_deref(), Some("u3"));
    assert_eq!(sources.get("Other").as_deref(), Some("u2"));
    assert!(sources.get("mix").is_none());
    assert_eq!(sources.entries().len(), 2);
}

#[test]
fn later_entries_take_precedence() {
    let sources =
        AlbumSources::from_entries(&vec![source("a", "1"), source("b", "2"), source("a", "3")]);
    assert_eq!(sources.get("a").as_deref(), Some("3"));
    assert_eq!(sources.get("b").as_deref(), Some("2"));
    assert_eq!(sources.entries().len(), 2);
}

#[test]
fn stored_order_is_irrelevant() {
    let forth = AlbumSources::from_entries(&vec![source("a", "1"), source("b", "2")]);
    let back = AlbumSources::from_entries(&vec![source("b", "2"), source("a", "1")]);
    for album in vec!["a", "b", "c"] {
        assert_eq!(forth.get(album), back.get(album));
    }
}

#[test]
fn entries_can_be_stored_and_read_back() {
    let mut sources = AlbumSources::new();
    sources.insert("x".to_string(), "1".to_string());
    sources.insert("y".to_string(), "2".to_string());
    let again = AlbumSources::from_entries(sources.entries());
    assert_eq!(again.get("x").as_deref(), Some("1"));
    assert_eq!(again.get("y").as_deref(), Some("2"));
    assert!(again.get("z").is_none());
}

#[test]
fn a_copied_source_is_the_same() {
    let copy = source("a", "1").clone();
    assert_eq!(copy.album, "a");
    assert_eq!(copy.playlist_url, "1");
}
