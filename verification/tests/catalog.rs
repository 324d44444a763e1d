use yt_dlp_ui::catalog::{
    archive_file, gather_album_detail, gather_albums, gather_archives, nav_albums,
    schedule_display, sort_albums, summarize_dir, AlbumInfo, KeyedAlbum, ListedFile, ListedFolder,
    WalkedEntry,
};
use yt_dlp_ui::clock::Timestamp;
use yt_dlp_ui::schedule::{AlbumSchedule, ScheduleFrequency};

fn entry(is_file: bool, size: Option<u64>) -> WalkedEntry {
    WalkedEntry { is_file, size }
}

fn folder(name: &str, sizes: Vec<u64>) -> ListedFolder {
    let mut entries = vec![entry(false, Some(4096))];
    for size in sizes {
        entries.push(entry(true, Some(size)));
    }
    ListedFolder { name: name.to_string(), is_dir: true, entries }
}

fn file(name: &str, size: u64) -> ListedFile {
    ListedFile { name: name.to_string(), is_file: true, size }
}

#[test]
fn summaries_count_files_only() {
    assert_eq!(summarize_dir(&Vec::new()), Some((0, 0)));
    let entries = vec![
        entry(false, Some(4096)),
        entry(true, Some(10)),
        entry(true, None),
        entry(true, Some(32)),
    ];
    assert_eq!(summarize_dir(&entries), Some((3, 42)));
}

#[test]
fn summaries_that_overflow() {
    let entries = vec![entry(true, Some(u64::MAX)), entry(true, Some(1))];
    assert_eq!(summarize_dir(&entries), None);
    let entries = vec![entry(true, Some(u64::MAX)), entry(false, Some(1)), entry(true, None)];
    assert_eq!(summarize_dir(&entries), Some((2, u64::MAX)));
}

#[test]
fn albums_in_order_of_their_names() {
    let mut listed = vec![
        folder("beta", vec![1024]),
        folder("Alpha", vec![]),
        folder("ÄRGER", vec![1, 2]),
        folder("alpha", vec![5]),
        folder("Zoo & Co", vec![1_500_000]),
    ];
    listed.push(ListedFolder { name: "note.txt".to_string(), is_dir: false, entries: Vec::new() });
    let albums = gather_albums(&listed).unwrap();
    let names: Vec<&str> = albums.iter().map(|a| a.name.as_str()).collect();
    assert_eq!(names, vec!["Alpha", "alpha", "beta", "Zoo & Co", "ÄRGER"]);
    assert_eq!(albums[2].file_count, 1);
    assert_eq!(albums[2].total_size, 1024);
    assert_eq!(albums[2].total_size_display, "1.00 KB");
    assert_eq!(albums[0].total_size_display, "0 B");
    assert_eq!(albums[3].encoded_name, "Zoo%20%26%20Co");
    assert_eq!(albums[3].total_size_display, "1.43 MB");
    assert_eq!(albums[4].file_count, 2);
    assert_eq!(albums[4].encoded_name, "%C3%84RGER");
}

#[test]
fn lower_case_is_that_of_all_letters() {
    let albums = gather_albums(&vec![folder("Öl", vec![]), folder("öa", vec![])]).unwrap();
    assert_eq!(albums[0].name, "öa");
    assert_eq!(albums[1].name, "Öl");
}

#[test]
fn albums_that_overflow() {
    assert!(gather_albums(&vec![folder("a", vec![1]), folder("b", vec![u64::MAX, 1])]).is_none());
    let mut not_a_folder = folder("b", vec![u64::MAX, 1]);
    not_a_folder.is_dir = false;
    assert!(gather_albums(&vec![not_a_folder]).unwrap().is_empty());
}

#[test]
fn albums_with_the_same_key_keep_their_order() {
    let mut albums = Vec::new();
    for (key, name) in vec![("b", "1"), ("a", "2"), ("b", "3"), ("a", "4")] {
        albums.push(KeyedAlbum {
            key: key.to_string(),
            album: AlbumInfo {
                name: name.to_string(),
                encoded_name: String::new(),
                file_count: 0,
                total_size: 0,
                total_size_display: String::new(),
            },
        });
    }
    let names: Vec<String> = sort_albums(albums).into_iter().map(|a| a.name).collect();
    assert_eq!(names, vec!["2", "4", "1", "3"]);
}

#[test]
fn navigation_lists_the_albums() {
    let albums = gather_albums(&vec![folder("b c", vec![]), folder("a", vec![])]).unwrap();
    let nav = nav_albums(&albums);
    assert_eq!(nav.len(), 2);
    assert_eq!(nav[0].name, "a");
    assert_eq!(nav[1].name, "b c");
    assert_eq!(nav[1].encoded_name, "b%20c");
}

#[test]
fn page_of_an_album() {
    let mut listed = vec![file("b.mp3", 2048), file("B.mp3", 10), file("a.mp3", 2_000)];
    listed.push(ListedFile { name: "sub".to_string(), is_file: false, size: 4096 });
    let detail = gather_album_detail("Road Mix", &listed).unwrap();
    assert_eq!(detail.name, "Road Mix");
    assert_eq!(detail.encoded_name, "Road%20Mix");
    let names: Vec<&str> = detail.files.iter().map(|f| f.name.as_str()).collect();
    assert_eq!(names, vec!["B.mp3", "a.mp3", "b.mp3"]);
    assert_eq!(detail.files[1].size, 2_000);
    assert_eq!(detail.files[1].size_display, "1.95 KB");
    assert_eq!(detail.total_size, 4_058);
    assert_eq!(detail.total_size_display, "3.96 KB");
}

#[test]
fn total_is_the_sum_of_the_shown_sizes() {
    let listed = vec![file("c", 3), file("a", 500), file("b", 70_000)];
    let detail = gather_album_detail("x", &listed).unwrap();
    let shown: u64 = detail.files.iter().map(|f| f.size).sum();
    assert_eq!(detail.total_size, shown);
}

#[test]
fn page_that_overflows() {
    assert!(gather_album_detail("x", &vec![file("a", u64::MAX), file("b", 1)]).is_none());
    let empty = gather_album_detail("x", &Vec::new()).unwrap();
    assert_eq!(empty.total_size_display, "0 B");
    assert!(empty.files.is_empty());
}

#[test]
fn largest_archive_comes_first() {
    let mut listed = vec![file("small", 1), file("big one", 5_000), file("tie", 1), file("mid", 40)];
    listed.push(ListedFile { name: "dir".to_string(), is_file: false, size: 9_999 });
    let archives = gather_archives(&listed);
    let names: Vec<&str> = archives.iter().map(|a| a.name.as_str()).collect();
    assert_eq!(names, vec!["big one", "mid", "small", "tie"]);
    assert_eq!(archives[0].encoded_name, "big%20one");
    assert_eq!(archives[0].size, 5_000);
    assert_eq!(archives[0].size_display, "4.88 KB");
}

#[test]
fn edited_archives() {
    let page = archive_file("a b.txt".to_string(), Some("line\n".to_string()));
    assert_eq!(page.name, "a b.txt");
    assert_eq!(page.encoded_name, "a%20b.txt");
    assert_eq!(page.content, "line\n");
    assert_eq!(archive_file("new".to_string(), None).content, "");
}

#[test]
fn shown_schedules() {
    let schedule = AlbumSchedule {
        album: "Mix".to_string(),
        playlist_url: "u".to_string(),
        frequency: ScheduleFrequency::Hourly,
        last_run_ts: Some(1_700_000_000),
    };
    let shown = schedule_display(&schedule, Timestamp::new(0, 0).unwrap());
    assert_eq!(shown.playlist_url, "u");
    assert_eq!(shown.frequency_label, "Hourly");
    assert_eq!(shown.frequency_value, "hourly");
    assert_eq!(shown.next_run_display, "2023-11-14 23:13 UTC");
}
