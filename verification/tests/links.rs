use yt_dlp_ui::links::{album_location, archive_location, job_location};

#[test]
fn job_page() {
    assert_eq!(
        job_location(0x0123_4567_89ab_4cde_8f01_2345_6789_abcd),
        "/jobs/01234567-89ab-4cde-8f01-23456789abcd"
    );
    assert_eq!(job_location(0), "/jobs/00000000-0000-0000-0000-000000000000");
    let id = uuid::Uuid::new_v4();
    assert_eq!(job_location(id.as_u128()), format!("/jobs/{}", id));
}

#[test]
fn different_jobs_have_different_pages() {
    assert_ne!(job_location(1), job_location(2));
    assert_ne!(job_location(u128::MAX), job_location(u128::MAX - 1));
}

#[test]
fn album_page() {
    assert_eq!(album_location("Road Mix"), "/albums/Road%20Mix");
    assert_eq!(album_location("a-b_c.d~9"), "/albums/a-b_c.d~9");
    assert_eq!(album_location("50% /?#"), "/albums/50%25%20%2F%3F%23");
    assert_eq!(album_location("é"), "/albums/%C3%A9");
    assert_eq!(album_location(""), "/albums/");
}

#[test]
fn archive_page() {
    assert_eq!(archive_location("my list.txt"), "/archives/my%20list.txt/edit");
}

#[test]
fn encoded_names_are_one_segment_and_differ() {
    let names = vec!["a/b", "a%2Fb", "a b", "a+b", "a%20b", "ä", "a\u{308}", "A", "a"];
    for x in &names {
        let page = album_location(x);
        assert_eq!(page.matches('/').count(), 2);
        assert!(!page.contains('?') && !page.contains('#'));
        assert_eq!(urlencoding::decode(&page["/albums/".len()..]).unwrap(), *x);
        for y in &names {
            assert_eq!(page == album_location(y), x == y);
        }
    }
}
