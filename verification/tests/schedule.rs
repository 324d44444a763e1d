use yt_dlp_ui::clock::{Timestamp, FIRST_SECOND, LAST_SECOND};
use yt_dlp_ui::error::AppError;
use yt_dlp_ui::paths::{join_path, path_starts_with};
use yt_dlp_ui::schedule::{
    due_before_overflow, due_schedules, schedule_from_form, AlbumSchedule, ScheduleForm,
    ScheduleFrequency,
};

fn at(seconds: i64) -> Timestamp {
    Timestamp::new(seconds, 250_000_000).unwrap()
}

fn schedule(frequency: ScheduleFrequency, last_run_ts: Option<i64>) -> AlbumSchedule {
    AlbumSchedule {
        album: "Road Mix".to_string(),
        playlist_url: "https://example.org/list".to_string(),
        frequency,
        last_run_ts,
    }
}

fn all() -> Vec<ScheduleFrequency> {
    vec![ScheduleFrequency::Hourly, ScheduleFrequency::Daily, ScheduleFrequency::Weekly]
}

fn reason(e: AppError) -> String {
    match e {
        AppError::Invalid(m) => m,
        other => panic!("{:?}", other),
    }
}

#[test]
fn periods() {
    assert_eq!(ScheduleFrequency::Hourly.interval(), chrono::Duration::hours(1).num_seconds());
    assert_eq!(ScheduleFrequency::Daily.interval(), chrono::Duration::days(1).num_seconds());
    assert_eq!(ScheduleFrequency::Weekly.interval(), chrono::Duration::weeks(1).num_seconds());
}

#[test]
fn names_round_trip() {
    for frequency in all() {
        assert_eq!(ScheduleFrequency::from_str(frequency.as_str()), Ok(frequency));
        assert_eq!(ScheduleFrequency::from_str(frequency.form_value()), Ok(frequency));
        assert_eq!(ScheduleFrequency::from_lowercase(frequency.form_value()), Ok(frequency));
        assert!(ScheduleFrequency::from_lowercase(frequency.as_str()).is_err());
    }
    assert_eq!(ScheduleFrequency::Hourly.as_str(), "Hourly");
    assert_eq!(ScheduleFrequency::Daily.form_value(), "daily");
    assert_eq!(ScheduleFrequency::Weekly.form_value(), "weekly");
}

#[test]
fn names_in_any_case() {
    assert_eq!(ScheduleFrequency::from_str("hOURLY"), Ok(ScheduleFrequency::Hourly));
    assert_eq!(ScheduleFrequency::from_str("WEE\u{212a}LY"), Ok(ScheduleFrequency::Weekly));
    for word in vec!["", "monthly", " daily", "daily ", "dailyy"] {
        assert_eq!(ScheduleFrequency::from_str(word), Err(()));
    }
}

#[test]
fn last_runs() {
    assert!(schedule(ScheduleFrequency::Daily, None).last_run().is_none());
    assert_eq!(
        schedule(ScheduleFrequency::Daily, Some(5)).last_run(),
        Timestamp::new(5, 0)
    );
    for outside in vec![i64::MIN, FIRST_SECOND - 1, LAST_SECOND + 1, i64::MAX] {
        assert!(schedule(ScheduleFrequency::Daily, Some(outside)).last_run().is_none());
    }
}

#[test]
fn due_when_the_period_has_passed() {
    for frequency in all() {
        let ran = schedule(frequency, Some(1_700_000_000));
        let next = 1_700_000_000 + frequency.interval();
        assert!(ran.follow_up_fits());
        assert!(!ran.is_due(at(1_700_000_000)));
        assert!(!ran.is_due(at(next - 1)));
        assert!(ran.is_due(Timestamp::new(next, 0).unwrap()));
        assert!(ran.is_due(at(next)));
        assert!(schedule(frequency, None).is_due(at(FIRST_SECOND)));
        assert!(schedule(frequency, Some(i64::MAX)).is_due(at(0)));
    }
}

#[test]
fn follow_up_beyond_the_calendar() {
    assert!(!schedule(ScheduleFrequency::Hourly, Some(LAST_SECOND)).follow_up_fits());
    assert!(!schedule(ScheduleFrequency::Hourly, Some(LAST_SECOND - 3_599)).follow_up_fits());
    assert!(schedule(ScheduleFrequency::Hourly, Some(LAST_SECOND - 3_600)).follow_up_fits());
    assert!(schedule(ScheduleFrequency::Hourly, Some(LAST_SECOND + 1)).follow_up_fits());
    assert!(schedule(ScheduleFrequency::Hourly, None).follow_up_fits());
}

#[test]
fn next_run_fits_the_calendar() {
    let hourly = schedule(ScheduleFrequency::Hourly, None);
    assert!(!hourly.next_run_fits(at(FIRST_SECOND)));
    assert!(!hourly.next_run_fits(at(FIRST_SECOND + 3_599)));
    assert!(hourly.next_run_fits(at(FIRST_SECOND + 3_600)));
    assert!(hourly.next_run_fits(at(LAST_SECOND)));
    assert!(!schedule(ScheduleFrequency::Hourly, Some(LAST_SECOND)).next_run_fits(at(0)));
    assert!(schedule(ScheduleFrequency::Hourly, Some(0)).next_run_fits(at(FIRST_SECOND)));
}

#[test]
fn next_runs() {
    let now = at(1_700_000_000);
    assert_eq!(schedule(ScheduleFrequency::Weekly, None).next_run(now), now);
    assert_eq!(
        schedule(ScheduleFrequency::Daily, Some(1_700_000_000)).next_run(now),
        Timestamp::new(1_700_086_400, 0).unwrap()
    );
    assert_eq!(
        schedule(ScheduleFrequency::Daily, Some(1_700_000_000)).next_run_display(now),
        "2023-11-15 22:13 UTC"
    );
    assert_eq!(
        schedule(ScheduleFrequency::Daily, None).next_run_display(now),
        "2023-11-14 22:13 UTC"
    );
}

#[test]
fn form_of_a_scheduled_run() {
    let form = schedule(ScheduleFrequency::Daily, None).scheduled_form();
    assert_eq!(form.playlist_url, "https://example.org/list");
    assert_eq!(form.download_archive, "downloaded_Road Mix.txt");
    assert_eq!(form.output_template, "Road Mix/%(playlist_index)02d - %(title)s.%(ext)s");
    assert_eq!(form.format, "bestaudio[ext=m4a]/bestaudio/best");
    assert!(form.extract_audio);
}

#[test]
fn output_path_of_a_scheduled_run_lies_under_the_album() {
    for album in vec!["Road Mix", "a/b", "x/", "/abs"] {
        let mut s = schedule(ScheduleFrequency::Daily, None);
        s.album = album.to_string();
        let template = s.scheduled_form().output_template;
        for root in vec!["/music", "./data/downloads", ""] {
            assert!(path_starts_with(&join_path(root, &template), &join_path(root, album)));
        }
    }
}

#[test]
fn schedule_forms() {
    let form = ScheduleForm {
        playlist_url: "  https://example.org/list\n".to_string(),
        frequency: "Weekly".to_string(),
    };
    let made = schedule_from_form("Mix", &form).unwrap();
    assert_eq!(made.album, "Mix");
    assert_eq!(made.playlist_url, "https://example.org/list");
    assert_eq!(made.frequency, ScheduleFrequency::Weekly);
    assert_eq!(made.last_run_ts, None);

    let form = ScheduleForm { playlist_url: " ".to_string(), frequency: "never".to_string() };
    assert_eq!(
        reason(schedule_from_form("Mix", &form).unwrap_err()),
        "Playlist URL is required for scheduling"
    );
    let form = ScheduleForm { playlist_url: "u".to_string(), frequency: "never".to_string() };
    assert_eq!(reason(schedule_from_form("Mix", &form).unwrap_err()), "Invalid frequency");
}

#[test]
fn due_schedules_in_order() {
    let mut list = Vec::new();
    for (album, last) in vec![
        ("a", None),
        ("b", Some(1_700_000_000)),
        ("c", Some(1_699_990_000)),
        ("d", Some(i64::MIN)),
    ] {
        let mut s = schedule(ScheduleFrequency::Hourly, last);
        s.album = album.to_string();
        list.push(s);
    }
    let due: Vec<String> =
        due_schedules(&list, at(1_700_000_100)).into_iter().map(|s| s.album).collect();
    assert_eq!(due, vec!["a", "c", "d"]);
    assert!(due_schedules(&Vec::new(), at(0)).is_empty());
}

#[test]
fn due_schedules_before_an_overflow() {
    let mut list = Vec::new();
    for (album, last) in vec![
        ("a", None),
        ("b", Some(1_700_000_000)),
        ("c", Some(1_699_990_000)),
        ("d", Some(LAST_SECOND)),
        ("e", None),
    ] {
        let mut s = schedule(ScheduleFrequency::Hourly, last);
        s.album = album.to_string();
        list.push(s);
    }
    let (due, all_reachable) = due_before_overflow(&list, at(1_700_000_100));
    let albums: Vec<String> = due.into_iter().map(|s| s.album).collect();
    assert_eq!(albums, vec!["a", "c"]);
    assert!(!all_reachable);

    list.remove(3);
    let (due, all_reachable) = due_before_overflow(&list, at(1_700_000_100));
    let albums: Vec<String> = due.into_iter().map(|s| s.album).collect();
    assert_eq!(albums, vec!["a", "c", "e"]);
    assert!(all_reachable);

    let (due, all_reachable) = due_before_overflow(&Vec::new(), at(0));
    assert!(due.is_empty() && all_reachable);
}
