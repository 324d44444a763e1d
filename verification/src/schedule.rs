//! Schedules: which albums are downloaded again, how often, and when they are due.

use vstd::prelude::*;
use vstd::string::StringExecFns;
use vstd::utf8::is_ascii_chars;

use crate::clock::{
    format_next_run, in_calendar, utc_format, Timestamp, FIRST_SECOND, LAST_SECOND,
    NEXT_RUN_FORMAT,
};
use crate::command::blank;
use crate::error::AppError;
use crate::form::{DownloadForm, DownloadFormView};
use crate::order::views;
use crate::paths::{law_extended_path_lies_under, lies_under, path_join};
use crate::text::{ascii_lowered, lowered, same_text, to_lowercase, trim, trimmed};

verus! {

/// How often an album is downloaded again.
#[derive(Debug, Clone, Copy, PartialEq, Eq, Structural)]
pub enum ScheduleFrequency {
    Hourly,
    Daily,
    Weekly,
}

/// The frequency that a word in lower case names.
pub open spec fn frequency_named(word: Seq<char>) -> Option<ScheduleFrequency> {
    if word == "hourly"@ {
        Some(ScheduleFrequency::Hourly)
    } else if word == "daily"@ {
        Some(ScheduleFrequency::Daily)
    } else if word == "weekly"@ {
        Some(ScheduleFrequency::Weekly)
    } else {
        None
    }
}

/// What parsing gives for the frequency that a word names.
pub open spec fn parsed_frequency(named: Option<ScheduleFrequency>) -> Result<
    ScheduleFrequency,
    (),
> {
    match named {
        Some(frequency) => Ok(frequency),
        None => Err(()),
    }
}

impl ScheduleFrequency {
    /// The seconds from one run to the next.
    pub open spec fn period(self) -> nat {
        match self {
            ScheduleFrequency::Hourly => 3_600,
            ScheduleFrequency::Daily => 24 * 3_600,
            ScheduleFrequency::Weekly => 7 * 24 * 3_600,
        }
    }

    /// The name of the frequency on a page.
    pub open spec fn label(self) -> Seq<char> {
        match self {
            ScheduleFrequency::Hourly => "Hourly"@,
            ScheduleFrequency::Daily => "Daily"@,
            ScheduleFrequency::Weekly => "Weekly"@,
        }
    }

    /// The name of the frequency in a form.
    pub open spec fn field(self) -> Seq<char> {
        match self {
            ScheduleFrequency::Hourly => "hourly"@,
            ScheduleFrequency::Daily => "daily"@,
            ScheduleFrequency::Weekly => "weekly"@,
        }
    }

    /// The seconds from one run to the next.
    pub fn interval(self) -> (r: i64)
        ensures
            r == self.period(),
    {
        match self {
            ScheduleFrequency::Hourly => 3_600,
            ScheduleFrequency::Daily => 86_400,
            ScheduleFrequency::Weekly => 604_800,
        }
    }

    /// The name of the frequency on a page.
    pub fn as_str(self) -> (r: &'static str)
        ensures
            r@ == self.label(),
    {
        match self {
            ScheduleFrequency::Hourly => "Hourly",
            ScheduleFrequency::Daily => "Daily",
            ScheduleFrequency::Weekly => "Weekly",
        }
    }

    /// The name of the frequency in a form.
    pub fn form_value(self) -> (r: &'static str)
        ensures
            r@ == self.field(),
    {
        match self {
            ScheduleFrequency::Hourly => "hourly",
            ScheduleFrequency::Daily => "daily",
            ScheduleFrequency::Weekly => "weekly",
        }
    }

    /// The frequency that a word in lower case names.
    pub fn from_lowercase(word: &str) -> (r: Result<ScheduleFrequency, ()>)
        ensures
            r == parsed_frequency(frequency_named(word@)),
    {
        if same_text(word, "hourly") {
            Ok(ScheduleFrequency::Hourly)
        } else if same_text(word, "daily") {
            Ok(ScheduleFrequency::Daily)
        } else if same_text(word, "weekly") {
            Ok(ScheduleFrequency::Weekly)
        } else {
            Err(())
        }
    }

    /// The frequency that a word names, in whatever case it is written.
    pub fn from_str(s: &str) -> (r: Result<ScheduleFrequency, ()>)
        ensures
            r == parsed_frequency(frequency_named(lowered(s@))),
            is_ascii_chars(s@) ==> r == parsed_frequency(frequency_named(ascii_lowered(s@))),
    {
        let word = to_lowercase(s);
        ScheduleFrequency::from_lowercase(word.as_str())
    }
}

/// Both names of a frequency are read back as that frequency.
pub proof fn law_frequency_names_round_trip(frequency: ScheduleFrequency)
    ensures
        is_ascii_chars(frequency.field()),
        is_ascii_chars(frequency.label()),
        frequency_named(ascii_lowered(frequency.field())) == Some(frequency),
        frequency_named(ascii_lowered(frequency.label())) == Some(frequency),
{
    reveal_strlit("Hourly");
    reveal_strlit("Daily");
    reveal_strlit("Weekly");
    reveal_strlit("hourly");
    reveal_strlit("daily");
    reveal_strlit("weekly");
    assert(ascii_lowered("Hourly"@) == "hourly"@);
    assert(ascii_lowered("Daily"@) == "daily"@);
    assert(ascii_lowered("Weekly"@) == "weekly"@);
    assert(ascii_lowered("hourly"@) == "hourly"@);
    assert(ascii_lowered("daily"@) == "daily"@);
    assert(ascii_lowered("weekly"@) == "weekly"@);
    assert("hourly"@.len() == 6 && "daily"@.len() == 5 && "weekly"@.len() == 6);
    assert("hourly"@[0] == 'h' && "weekly"@[0] == 'w');
}

/// A standing order to download an album again.
#[derive(Debug)]
pub struct AlbumSchedule {
    pub album: String,
    pub playlist_url: String,
    pub frequency: ScheduleFrequency,
    pub last_run_ts: Option<i64>,
}

/// The contents of a schedule.
#[verifier::ext_equal]
pub struct AlbumScheduleView {
    pub album: Seq<char>,
    pub playlist_url: Seq<char>,
    pub frequency: ScheduleFrequency,
    pub last_run_ts: Option<i64>,
}

impl View for AlbumSchedule {
    type V = AlbumScheduleView;

    open spec fn view(&self) -> AlbumScheduleView {
        AlbumScheduleView {
            album: self.album@,
            playlist_url: self.playlist_url@,
            frequency: self.frequency,
            last_run_ts: self.last_run_ts,
        }
    }
}

impl Clone for AlbumSchedule {
    fn clone(&self) -> (r: AlbumSchedule)
        ensures
            r == *self,
    {
        AlbumSchedule {
            album: self.album.clone(),
            playlist_url: self.playlist_url.clone(),
            frequency: self.frequency,
            last_run_ts: self.last_run_ts,
        }
    }
}

impl AlbumScheduleView {
    /// The second of the last run. A recorded second that the calendar does not reach
    /// counts as none.
    pub open spec fn last_run_second(self) -> Option<i64> {
        match self.last_run_ts {
            Some(ts) if in_calendar(ts as int) => Some(ts),
            _ => None,
        }
    }

    /// Whether the calendar reaches the run that follows the last one.
    pub open spec fn follow_up_in_calendar(self) -> bool {
        self.last_run_second() matches Some(ts) ==> ts + self.frequency.period() <= LAST_SECOND
    }

    /// Whether the schedule is due at the given second: it never ran, or its period has
    /// passed since it did.
    pub open spec fn due_at(self, second: int) -> bool {
        match self.last_run_second() {
            Some(ts) => ts + self.frequency.period() <= second,
            None => true,
        }
    }

    /// The second of the next run: one period after the last, at once if it never ran.
    pub open spec fn next_run_second(self, now: int) -> int {
        match self.last_run_second() {
            Some(ts) => ts + self.frequency.period(),
            None => now,
        }
    }

    /// Whether the calendar reaches the times that the next run is worked out from.
    pub open spec fn next_run_in_calendar(self, now: int) -> bool {
        match self.last_run_second() {
            Some(_) => self.follow_up_in_calendar(),
            None => FIRST_SECOND <= now - self.frequency.period(),
        }
    }

    /// The form that a run of the schedule downloads with: the initial form with the
    /// playlist, and with the album in place of the playlist title.
    pub open spec fn download_form(self) -> DownloadFormView {
        DownloadFormView {
            playlist_url: self.playlist_url,
            download_archive: "downloaded_"@ + self.album + ".txt"@,
            output_template: self.album + "/%(playlist_index)02d - %(title)s.%(ext)s"@,
            ..DownloadFormView::initial()
        }
    }
}

impl AlbumSchedule {
    /// The time of the last run.
    pub fn last_run(&self) -> (r: Option<Timestamp>)
        ensures
            r is Some <==> self@.last_run_second() is Some,
            r matches Some(t) ==> Some(t.secs()) == self@.last_run_second() && t.subsec()
                == 0,
    {
        match self.last_run_ts {
            Some(ts) => Timestamp::new(ts, 0),
            None => None,
        }
    }

    /// Whether the calendar reaches the run that follows the last one.
    pub fn follow_up_fits(&self) -> (r: bool)
        ensures
            r == self@.follow_up_in_calendar(),
    {
        match self.last_run() {
            Some(last) => last.seconds() + self.frequency.interval() <= LAST_SECOND,
            None => true,
        }
    }

    /// Whether the schedule is due.
    pub fn is_due(&self, now: Timestamp) -> (r: bool)
        requires
            self@.follow_up_in_calendar(),
        ensures
            r == self@.due_at(now.secs() as int),
    {
        match self.last_run() {
            Some(last) => last.plus(self.frequency.interval()).not_after(&now),
            None => true,
        }
    }

    /// Whether the calendar reaches the times that the next run is worked out from.
    pub fn next_run_fits(&self, now: Timestamp) -> (r: bool)
        ensures
            r == self@.next_run_in_calendar(now.secs() as int),
    {
        match self.last_run() {
            Some(_) => self.follow_up_fits(),
            None => FIRST_SECOND + self.frequency.interval() <= now.seconds(),
        }
    }

    /// The time of the next run: one period after the last, or after the time one period
    /// ago if there was none.
    pub fn next_run(&self, now: Timestamp) -> (r: Timestamp)
        requires
            self@.next_run_in_calendar(now.secs() as int),
        ensures
            r.secs() == self@.next_run_second(now.secs() as int),
            self@.last_run_second() is None ==> r.subsec() == now.subsec(),
            self@.last_run_second() is Some ==> r.subsec() == 0,
    {
        let interval = self.frequency.interval();
        let base = match self.last_run() {
            Some(last) => last,
            None => now.minus(interval),
        };
        base.plus(interval)
    }

    /// The text of the next run.
    pub fn next_run_display(&self, now: Timestamp) -> (r: String)
        requires
            self@.next_run_in_calendar(now.secs() as int),
        ensures
            r@ == utc_format(self@.next_run_second(now.secs() as int) as i64, NEXT_RUN_FORMAT@),
    {
        format_next_run(self.next_run(now))
    }

    /// The form that a run of the schedule downloads with.
    pub fn scheduled_form(&self) -> (r: DownloadForm)
        ensures
            r@ == self@.download_form(),
    {
        let mut form = DownloadForm::default();
        form.playlist_url = self.playlist_url.clone();
        form.download_archive = "downloaded_".to_string().concat(self.album.as_str()).concat(
            ".txt",
        );
        form.output_template = self.album.clone().concat(
            "/%(playlist_index)02d - %(title)s.%(ext)s",
        );
        form
    }
}

/// The output path of a scheduled run begins with the path of its album.
///
/// Whatever the downloads folder, the steps of the path that the album has in it are the
/// first steps of the output path that the form of a run gives.
pub proof fn law_scheduled_output_path_lies_under_album(
    schedule: AlbumScheduleView,
    downloads_dir: Seq<char>,
)
    requires
        schedule.album.len() > 0,
    ensures
        lies_under(
            path_join(downloads_dir, schedule.download_form().output_template),
            path_join(downloads_dir, schedule.album),
        ),
{
    reveal_strlit("/%(playlist_index)02d - %(title)s.%(ext)s");
    let tail = "/%(playlist_index)02d - %(title)s.%(ext)s"@;
    let template = schedule.album + tail;
    let folder = path_join(downloads_dir, schedule.album);
    assert(template == schedule.album.push('/') + tail.skip(1));
    assert(template[0] == schedule.album[0]);
    assert(path_join(downloads_dir, template) == folder.push('/') + tail.skip(1));
    law_extended_path_lies_under(folder, tail.skip(1));
}

/// What a user enters to schedule an album.
#[derive(Debug)]
pub struct ScheduleForm {
    pub playlist_url: String,
    pub frequency: String,
}

/// The schedule of an album that a form asks for.
pub fn schedule_from_form(album: &str, form: &ScheduleForm) -> (r: Result<AlbumSchedule, AppError>)
    ensures
        match r {
            Ok(schedule) => {
                &&& !blank(form.playlist_url@)
                &&& frequency_named(lowered(form.frequency@)) == Some(schedule.frequency)
                &&& schedule.album@ == album@
                &&& schedule.playlist_url@ == trimmed(form.playlist_url@)
                &&& schedule.last_run_ts is None
            },
            Err(e) => if blank(form.playlist_url@) {
                e.rejects("Playlist URL is required for scheduling"@)
            } else {
                frequency_named(lowered(form.frequency@)) is None && e.rejects(
                    "Invalid frequency"@,
                )
            },
        },
        is_ascii_chars(form.frequency@) && !blank(form.playlist_url@) ==> (r is Ok
            <==> frequency_named(ascii_lowered(form.frequency@)) is Some),
        is_ascii_chars(form.frequency@) ==> (r matches Ok(schedule) ==> frequency_named(
            ascii_lowered(form.frequency@),
        ) == Some(schedule.frequency)),
{
    let playlist_url = trim(form.playlist_url.as_str());
    if playlist_url.is_empty() {
        return Err(AppError::invalid("Playlist URL is required for scheduling"));
    }
    match ScheduleFrequency::from_str(form.frequency.as_str()) {
        Ok(frequency) => Ok(
            AlbumSchedule {
                album: album.to_string(),
                playlist_url: playlist_url.to_string(),
                frequency,
                last_run_ts: None,
            },
        ),
        Err(_) => Err(AppError::invalid("Invalid frequency")),
    }
}

/// The place of the first schedule of an album.
pub open spec fn schedule_place(schedules: Seq<AlbumScheduleView>, album: Seq<char>) -> Option<int>
    decreases schedules.len(),
{
    if schedules.len() == 0 {
        None
    } else {
        match schedule_place(schedules.drop_last(), album) {
            Some(i) => Some(i),
            None => if schedules.last().album == album {
                Some(schedules.len() - 1)
            } else {
                None
            },
        }
    }
}

/// The first schedule of an album.
pub open spec fn schedule_of(
    schedules: Seq<AlbumScheduleView>,
    album: Seq<char>,
) -> Option<AlbumScheduleView> {
    match schedule_place(schedules, album) {
        Some(i) => Some(schedules[i]),
        None => None,
    }
}

/// The list with `schedule` in place of the first schedule of its album, or at the end
/// where the album has none.
pub open spec fn with_schedule(
    schedules: Seq<AlbumScheduleView>,
    schedule: AlbumScheduleView,
) -> Seq<AlbumScheduleView> {
    match schedule_place(schedules, schedule.album) {
        Some(i) => schedules.update(i, schedule),
        None => schedules.push(schedule),
    }
}

/// The list without the schedules of an album.
pub open spec fn without_album(
    schedules: Seq<AlbumScheduleView>,
    album: Seq<char>,
) -> Seq<AlbumScheduleView> {
    schedules.filter(|s: AlbumScheduleView| s.album != album)
}

/// The list with a run of the first schedule of an album recorded.
pub open spec fn with_run(
    schedules: Seq<AlbumScheduleView>,
    album: Seq<char>,
    second: i64,
) -> Seq<AlbumScheduleView> {
    match schedule_place(schedules, album) {
        Some(i) => schedules.update(
            i,
            AlbumScheduleView { last_run_ts: Some(second), ..schedules[i] },
        ),
        None => schedules,
    }
}

/// The list of schedules that are due at the given second.
pub open spec fn due_at(schedules: Seq<AlbumScheduleView>, second: int) -> Seq<AlbumScheduleView> {
    schedules.filter(|s: AlbumScheduleView| s.due_at(second))
}

/// The place found is that of the album, and no earlier one is.
proof fn lemma_schedule_place(schedules: Seq<AlbumScheduleView>, album: Seq<char>)
    ensures
        match schedule_place(schedules, album) {
            Some(i) => {
                &&& 0 <= i < schedules.len()
                &&& schedules[i].album == album
                &&& forall|j: int| 0 <= j < i ==> (#[trigger] schedules[j]).album != album
            },
            None => forall|j: int|
                0 <= j < schedules.len() ==> (#[trigger] schedules[j]).album != album,
        },
    decreases schedules.len(),
{
    if schedules.len() > 0 {
        let init = schedules.drop_last();
        lemma_schedule_place(init, album);
        assert forall|j: int| 0 <= j < init.len() implies #[trigger] schedules[j] == init[j] by {
        }
    }
}

/// The place of the first schedule of an album.
pub(crate) fn find_schedule(schedules: &Vec<AlbumSchedule>, album: &str) -> (r: Option<usize>)
    ensures
        match r {
            Some(i) => schedule_place(views(schedules@), album@) == Some(i as int) && i
                < schedules.len(),
            None => schedule_place(views(schedules@), album@) is None,
        },
{
    let ghost all = views(schedules@);
    let mut i: usize = 0;
    while i < schedules.len()
        invariant
            i <= schedules.len(),
            all == views(schedules@),
            forall|j: int| 0 <= j < i ==> (#[trigger] all[j]).album != album@,
        decreases schedules.len() - i,
    {
        assert(all[i as int].album == schedules@[i as int].album@);
        if same_text(schedules[i].album.as_str(), album) {
            proof {
                lemma_schedule_place(all, album@);
            }
            return Some(i);
        }
        i = i + 1;
    }
    proof {
        lemma_schedule_place(all, album@);
    }
    None
}

/// Puts a schedule in place of the first one of its album, or at the end.
pub(crate) fn put_schedule(schedules: &mut Vec<AlbumSchedule>, schedule: AlbumSchedule)
    ensures
        views(final(schedules)@) == with_schedule(
            views(old(schedules)@),
            schedule@,
        ),
{
    let ghost before = views(schedules@);
    let ghost added = schedule@;
    match find_schedule(schedules, schedule.album.as_str()) {
        Some(i) => {
            schedules[i] = schedule;
            assert(views(schedules@) == before.update(i as int, added));
        },
        None => {
            schedules.push(schedule);
            assert(views(schedules@) == before.push(added));
        },
    }
}

/// Removes the schedules of an album.
pub(crate) fn drop_schedules(schedules: &mut Vec<AlbumSchedule>, album: &str)
    ensures
        views(final(schedules)@) == without_album(
            views(old(schedules)@),
            album@,
        ),
{
    let ghost all = views(schedules@);
    let ghost keep = |s: AlbumScheduleView| s.album != album@;
    let ghost mut seen: int = 0;
    let mut i: usize = 0;
    proof {
        reveal(Seq::filter);
        assert(all.take(0).filter(keep) + all.skip(0) == all);
    }
    while i < schedules.len()
        invariant
            keep == (|s: AlbumScheduleView| s.album != album@),
            0 <= seen <= all.len(),
            i <= schedules.len(),
            schedules.len() - i == all.len() - seen,
            i == all.take(seen).filter(keep).len(),
            views(schedules@) == all.take(seen).filter(keep) + all.skip(seen),
        decreases schedules.len() - i,
    {
        let ghost now = views(schedules@);
        let ghost current = schedules@[i as int]@;
        proof {
            assert(now[i as int] == current);
            assert(all.skip(seen)[0] == current);
            assert(all.take(seen + 1) == all.take(seen).push(current));
            all.take(seen).lemma_filter_push(current, keep);
        }
        if same_text(schedules[i].album.as_str(), album) {
            schedules.remove(i);
            assert(views(schedules@) == now.remove(i as int));
            assert(now.remove(i as int) == all.take(seen).filter(keep) + all.skip(seen + 1));
        } else {
            assert(now == all.take(seen + 1).filter(keep) + all.skip(seen + 1));
            i = i + 1;
        }
        proof {
            seen = seen + 1;
        }
    }
    assert(all.take(seen) == all);
    assert(all.skip(seen) == Seq::<AlbumScheduleView>::empty());
    assert(views(schedules@) == all.filter(keep));
}

/// Records a run of the first schedule of an album.
pub(crate) fn record_run(schedules: &mut Vec<AlbumSchedule>, album: &str, second: i64)
    ensures
        views(final(schedules)@) == with_run(
            views(old(schedules)@),
            album@,
            second,
        ),
{
    let ghost before = views(schedules@);
    if let Some(i) = find_schedule(schedules, album) {
        let mut schedule = schedules[i].clone();
        schedule.last_run_ts = Some(second);
        let ghost marked = schedule@;
        schedules[i] = schedule;
        assert(before[i as int] == old(schedules)@[i as int]@);
        assert(views(schedules@) == before.update(i as int, marked));
    }
}

/// The schedules that are due, in the order of the list.
pub fn due_schedules(schedules: &Vec<AlbumSchedule>, now: Timestamp) -> (r: Vec<AlbumSchedule>)
    requires
        forall|i: int|
            0 <= i < schedules.len() ==> (#[trigger] schedules[i])@.follow_up_in_calendar(),
    ensures
        views(r@) == due_at(views(schedules@), now.secs() as int),
{
    let ghost all = views(schedules@);
    let ghost keep = |s: AlbumScheduleView| s.due_at(now.secs() as int);
    let mut out: Vec<AlbumSchedule> = Vec::new();
    let mut i: usize = 0;
    proof {
        reveal(Seq::filter);
        assert(views(out@) == all.take(0).filter(keep));
    }
    while i < schedules.len()
        invariant
            i <= schedules.len(),
            all == views(schedules@),
            keep == (|s: AlbumScheduleView| s.due_at(now.secs() as int)),
            views(out@) == all.take(i as int).filter(keep),
            forall|j: int|
                0 <= j < schedules.len() ==> (#[trigger] schedules[j])@.follow_up_in_calendar(),
        decreases schedules.len() - i,
    {
        let ghost before = views(out@);
        proof {
            assert(all.take(i + 1) == all.take(i as int).push(schedules@[i as int]@));
            all.take(i as int).lemma_filter_push(schedules@[i as int]@, keep);
        }
        if schedules[i].is_due(now) {
            out.push(schedules[i].clone());
            assert(views(out@) == before.push(schedules@[i as int]@));
        }
        i = i + 1;
    }
    assert(all.take(schedules@.len() as int) == all);
    out
}

/// How many schedules stand before the first one whose follow-up the calendar does not
/// reach.
pub open spec fn reachable_count(schedules: Seq<AlbumScheduleView>) -> int
    decreases schedules.len(),
{
    if schedules.len() == 0 {
        0
    } else {
        let count = reachable_count(schedules.drop_last());
        if count == schedules.len() - 1 && schedules.last().follow_up_in_calendar() {
            schedules.len() as int
        } else {
            count
        }
    }
}

/// The schedules counted are the longest beginning of the list in which the calendar reaches
/// every follow-up.
pub proof fn law_reachable_schedules(schedules: Seq<AlbumScheduleView>)
    ensures
        0 <= reachable_count(schedules) <= schedules.len(),
        forall|i: int|
            0 <= i < reachable_count(schedules) ==> (
            #[trigger] schedules[i]).follow_up_in_calendar(),
        reachable_count(schedules) < schedules.len() ==> !schedules[reachable_count(
            schedules,
        )].follow_up_in_calendar(),
    decreases schedules.len(),
{
    if schedules.len() > 0 {
        let init = schedules.drop_last();
        law_reachable_schedules(init);
        assert forall|i: int| 0 <= i < reachable_count(schedules) implies (
        #[trigger] schedules[i]).follow_up_in_calendar() by {
            if i < init.len() {
                assert(init[i] == schedules[i]);
            }
        }
    }
}

/// The schedules that are due among those before the first one whose follow-up the calendar
/// does not reach, in the order of the list, and whether there is no such one.
pub fn due_before_overflow(schedules: &Vec<AlbumSchedule>, now: Timestamp) -> (r: (
    Vec<AlbumSchedule>,
    bool,
))
    ensures
        views(r.0@) == due_at(
            views(schedules@).take(reachable_count(views(schedules@))),
            now.secs() as int,
        ),
        r.1 <==> reachable_count(views(schedules@)) == schedules.len(),
{
    let ghost all = views(schedules@);
    let mut reachable: Vec<AlbumSchedule> = Vec::new();
    let mut i: usize = 0;
    while i < schedules.len() && schedules[i].follow_up_fits()
        invariant
            i <= schedules.len(),
            all == views(schedules@),
            views(reachable@) == all.take(i as int),
            forall|j: int| 0 <= j < i ==> (#[trigger] all[j]).follow_up_in_calendar(),
        ensures
            i < schedules.len() ==> !all[i as int].follow_up_in_calendar(),
        decreases schedules.len() - i,
    {
        let ghost before = views(reachable@);
        assert(all[i as int] == schedules@[i as int]@);
        reachable.push(schedules[i].clone());
        assert(views(reachable@) == before.push(all[i as int]));
        assert(all.take(i + 1) == all.take(i as int).push(all[i as int]));
        i = i + 1;
    }
    proof {
        law_reachable_schedules(all);
        assert(reachable_count(all) == i) by {
            let count = reachable_count(all);
            if count < i {
                assert(all[count].follow_up_in_calendar());
            }
        }
        assert forall|j: int| 0 <= j < reachable@.len() implies (
        #[trigger] reachable[j])@.follow_up_in_calendar() by {
            assert(views(reachable@)[j] == all[j]);
        }
    }
    let due = due_schedules(&reachable, now);
    (due, i == schedules.len())
}

/// Whether no two schedules are of the same album.
pub open spec fn one_per_album(schedules: Seq<AlbumScheduleView>) -> bool {
    forall|i: int, j: int|
        0 <= i < j < schedules.len() ==> (#[trigger] schedules[i]).album != (
        #[trigger] schedules[j]).album
}

/// Lists that agree on where an album stands agree on its first schedule.
proof fn lemma_same_place(
    a: Seq<AlbumScheduleView>,
    b: Seq<AlbumScheduleView>,
    album: Seq<char>,
)
    requires
        a.len() <= b.len(),
        forall|i: int| 0 <= i < a.len() ==> (a[i].album == album <==> b[i].album == album),
        forall|i: int| a.len() <= i < b.len() ==> (#[trigger] b[i]).album != album,
    ensures
        schedule_place(a, album) == schedule_place(b, album),
{
    lemma_schedule_place(a, album);
    lemma_schedule_place(b, album);
    if let Some(i) = schedule_place(a, album) {
        assert(b[i].album == album);
    }
    if let Some(j) = schedule_place(b, album) {
        assert(a[j].album == album);
    }
}

/// A schedule that was put in the list is the one that the list gives for its album, and
/// every other album keeps the schedule it had. One schedule per album stays one.
pub proof fn law_put_schedule_is_found(
    schedules: Seq<AlbumScheduleView>,
    schedule: AlbumScheduleView,
    other: Seq<char>,
)
    requires
        other != schedule.album,
    ensures
        schedule_of(with_schedule(schedules, schedule), schedule.album) == Some(schedule),
        schedule_of(with_schedule(schedules, schedule), other) == schedule_of(schedules, other),
        one_per_album(schedules) ==> one_per_album(with_schedule(schedules, schedule)),
{
    let after = with_schedule(schedules, schedule);
    lemma_schedule_place(schedules, schedule.album);
    lemma_schedule_place(schedules, other);
    lemma_schedule_place(after, schedule.album);
    match schedule_place(schedules, schedule.album) {
        Some(i) => {
            assert(after[i].album == schedule.album);
        },
        None => {
            assert(after[schedules.len() as int] == schedule);
        },
    }
    lemma_same_place(schedules, after, other);
}

/// After the schedules of an album were removed the list gives none for it, and every
/// other album keeps the schedule it had.
pub proof fn law_removed_album_has_no_schedule(
    schedules: Seq<AlbumScheduleView>,
    album: Seq<char>,
    other: Seq<char>,
)
    requires
        other != album,
    ensures
        schedule_of(without_album(schedules, album), album) is None,
        schedule_of(without_album(schedules, album), other) == schedule_of(schedules, other),
        one_per_album(schedules) ==> one_per_album(without_album(schedules, album)),
    decreases schedules.len(),
{
    let keep = |s: AlbumScheduleView| s.album != album;
    let after = without_album(schedules, album);
    if schedules.len() > 0 {
        let init = schedules.drop_last();
        let last = schedules.last();
        law_removed_album_has_no_schedule(init, album, other);
        assert(schedules == init.push(last));
        init.lemma_filter_push(last, keep);
        lemma_schedule_place(init, other);
        lemma_schedule_place(schedules, other);
        if keep(last) {
            assert(after.drop_last() == without_album(init, album));
            lemma_schedule_place(after, other);
            lemma_schedule_place(after, album);
            lemma_schedule_place(without_album(init, album), other);
        }
        if one_per_album(schedules) {
            assert(one_per_album(init)) by {
                assert forall|i: int, j: int| 0 <= i < j < init.len() implies (
                #[trigger] init[i]).album != (#[trigger] init[j]).album by {
                    assert(schedules[i].album != schedules[j].album);
                }
            }
            if keep(last) {
                assert forall|i: int| 0 <= i < without_album(init, album).len() implies (
                #[trigger] without_album(init, album)[i]).album != last.album by {
                    init.lemma_filter_contains_rev(keep, without_album(init, album)[i]);
                    let k = choose|k: int|
                        0 <= k < init.len() && init[k] == without_album(init, album)[i];
                    assert(schedules[k].album != schedules[schedules.len() - 1].album);
                }
            }
        }
    } else {
        reveal(Seq::filter);
    }
}

/// Recording a run changes the time of the last run of that schedule, and nothing else.
pub proof fn law_recorded_run_is_found(
    schedules: Seq<AlbumScheduleView>,
    album: Seq<char>,
    second: i64,
    other: Seq<char>,
)
    requires
        other != album,
    ensures
        schedule_of(with_run(schedules, album, second), album) == (match schedule_of(
            schedules,
            album,
        ) {
            Some(s) => Some(AlbumScheduleView { last_run_ts: Some(second), ..s }),
            None => None,
        }),
        schedule_of(with_run(schedules, album, second), other) == schedule_of(schedules, other),
        one_per_album(schedules) ==> one_per_album(with_run(schedules, album, second)),
{
    let after = with_run(schedules, album, second);
    lemma_schedule_place(schedules, album);
    lemma_schedule_place(schedules, other);
    if let Some(i) = schedule_place(schedules, album) {
        assert(forall|j: int| 0 <= j < schedules.len() ==> after[j].album == schedules[j].album);
    }
    lemma_same_place(schedules, after, album);
    lemma_same_place(schedules, after, other);
}

/// Once the run of a schedule was recorded, the schedules of its album are not among those
/// that are due until the period has passed, where the album has one schedule.
pub proof fn law_recorded_run_is_not_repeated(
    schedules: Seq<AlbumScheduleView>,
    album: Seq<char>,
    second: i64,
    now: int,
)
    requires
        one_per_album(schedules),
        in_calendar(second as int),
        schedule_of(schedules, album) matches Some(s) ==> now < second + s.frequency.period(),
    ensures
        forall|i: int|
            0 <= i < due_at(with_run(schedules, album, second), now).len() ==> (
            #[trigger] due_at(with_run(schedules, album, second), now)[i]).album != album,
{
    let after = with_run(schedules, album, second);
    let keep = |s: AlbumScheduleView| s.due_at(now);
    lemma_schedule_place(schedules, album);
    assert forall|i: int| 0 <= i < due_at(after, now).len() implies (
    #[trigger] due_at(after, now)[i]).album != album by {
        let due = after.filter(keep)[i];
        after.lemma_filter_pred(keep, i);
        after.lemma_filter_contains_rev(keep, due);
        let k = choose|k: int| 0 <= k < after.len() && after[k] == due;
        if due.album == album {
            let place = schedule_place(schedules, album);
            assert(schedules[k].album == album);
            assert(place == Some(k));
        }
    }
}

/// A schedule that never ran is due at once; one whose run was recorded is due again
/// exactly when its period has passed.
pub proof fn law_due_once_per_period(schedule: AlbumScheduleView, second: i64, now: int)
    requires
        in_calendar(second as int),
    ensures
        schedule.last_run_ts is None ==> schedule.due_at(now),
        ({
            let ran = AlbumScheduleView { last_run_ts: Some(second), ..schedule };
            ran.due_at(now) <==> now >= second + schedule.frequency.period()
        }),
{
}

/// The periods: an hour, a day of twenty-four hours, and a week of seven days.
pub proof fn law_periods()
    ensures
        ScheduleFrequency::Hourly.period() == 60 * 60,
        ScheduleFrequency::Daily.period() == 24 * ScheduleFrequency::Hourly.period(),
        ScheduleFrequency::Weekly.period() == 7 * ScheduleFrequency::Daily.period(),
{
}

/// A frequency has its label in lower case as its name in a form, and only that name names
/// it.
pub proof fn law_names_of_frequencies(word: Seq<char>, frequency: ScheduleFrequency)
    ensures
        frequency.field() == ascii_lowered(frequency.label()),
        frequency_named(word) == Some(frequency) <==> word == frequency.field(),
        ScheduleFrequency::Hourly.label() == "Hourly"@,
        ScheduleFrequency::Daily.label() == "Daily"@,
        ScheduleFrequency::Weekly.label() == "Weekly"@,
        parsed_frequency(Some(frequency)) == Ok::<ScheduleFrequency, ()>(frequency),
        parsed_frequency(None) == Err::<ScheduleFrequency, ()>(()),
{
    law_frequency_names_round_trip(frequency);
    reveal_strlit("Hourly");
    reveal_strlit("Daily");
    reveal_strlit("Weekly");
    reveal_strlit("hourly");
    reveal_strlit("daily");
    reveal_strlit("weekly");
    assert(ascii_lowered("Hourly"@) == "hourly"@);
    assert(ascii_lowered("Daily"@) == "daily"@);
    assert(ascii_lowered("Weekly"@) == "weekly"@);
    assert("hourly"@.len() == 6 && "daily"@.len() == 5 && "weekly"@.len() == 6);
    assert("hourly"@[0] == 'h' && "weekly"@[0] == 'w');
}

/// The contents of a schedule are its fields.
pub proof fn law_contents_of_a_schedule(schedule: AlbumSchedule)
    ensures
        schedule@.album == schedule.album@,
        schedule@.playlist_url == schedule.playlist_url@,
        schedule@.frequency == schedule.frequency,
        schedule@.last_run_ts == schedule.last_run_ts,
{
}

/// The last run is the recorded second, where one is recorded and the calendar reaches it.
pub proof fn law_last_run_is_the_recorded_second(schedule: AlbumScheduleView, ts: i64)
    ensures
        schedule.last_run_second() == Some(ts) <==> schedule.last_run_ts == Some(ts)
            && FIRST_SECOND <= ts <= LAST_SECOND,
        schedule.last_run_second() is None <==> (schedule.last_run_ts matches Some(t) ==> !(
        FIRST_SECOND <= t <= LAST_SECOND)),
{
}

/// The next run is the first second at which the schedule is due: a schedule that ran is due
/// at that second and later, and not before, and it comes one period after the last run. A
/// schedule that never ran is due at any time and runs next at once.
pub proof fn law_next_run_is_when_it_is_due(schedule: AlbumScheduleView, now: int, second: int)
    ensures
        schedule.last_run_second() is Some ==> (schedule.due_at(second) <==> second
            >= schedule.next_run_second(now)),
        schedule.last_run_second() matches Some(ts) ==> schedule.next_run_second(now) - ts
            == schedule.frequency.period(),
        schedule.last_run_second() is None ==> schedule.due_at(second) && schedule.next_run_second(
            now,
        ) == now,
{
}

/// The calendar reaches the follow-up of a schedule exactly if it never ran or the calendar
/// reaches its next run, and it reaches what the next run is worked out from exactly if it
/// reaches the next run and, for a schedule that never ran, the time one period ago.
pub proof fn law_next_run_in_the_calendar(schedule: AlbumScheduleView, now: int)
    requires
        in_calendar(now),
    ensures
        schedule.follow_up_in_calendar() <==> (schedule.last_run_second() is Some ==> in_calendar(
            schedule.next_run_second(now),
        )),
        schedule.next_run_in_calendar(now) <==> in_calendar(schedule.next_run_second(now)) && (
        schedule.last_run_second() is None ==> in_calendar(now - schedule.frequency.period())),
{
}

/// A scheduled run asks for what the initial form asks for, with the playlist of the schedule,
/// and with the album where the initial form has the title of the playlist.
pub proof fn law_form_of_a_scheduled_run(schedule: AlbumScheduleView)
    ensures
        ({
            let form = schedule.download_form();
            let initial = DownloadFormView::initial();
            &&& form.playlist_url == schedule.playlist_url
            &&& form.download_archive == "downloaded_"@ + schedule.album + ".txt"@
            &&& form.output_template == schedule.album
                + "/%(playlist_index)02d - %(title)s.%(ext)s"@
            &&& form.format == initial.format
            &&& form.extractor_args == initial.extractor_args
            &&& form.force_ipv4 == initial.force_ipv4
            &&& form.extract_audio == initial.extract_audio
            &&& form.audio_format == initial.audio_format
            &&& form.audio_quality == initial.audio_quality
            &&& form.ignore_errors == initial.ignore_errors
            &&& form.embed_metadata == initial.embed_metadata
            &&& form.embed_thumbnail == initial.embed_thumbnail
            &&& form.add_metadata == initial.add_metadata
            &&& form.parse_metadata == initial.parse_metadata
        }),
{
}

/// The due list is complete and holds nothing else: it has every schedule of the list that is
/// due and none that is not. A schedule alone is in it exactly if it is due, and two lists one
/// behind the other have their due schedules one behind the other, so that each stands in it
/// as often and in the order in which it is listed.
pub proof fn law_due_list_is_complete(
    schedules: Seq<AlbumScheduleView>,
    more: Seq<AlbumScheduleView>,
    schedule: AlbumScheduleView,
    second: int,
)
    ensures
        forall|i: int|
            0 <= i < schedules.len() && (#[trigger] schedules[i]).due_at(second) ==> due_at(
                schedules,
                second,
            ).contains(schedules[i]),
        forall|i: int|
            0 <= i < due_at(schedules, second).len() ==> (#[trigger] due_at(
                schedules,
                second,
            )[i]).due_at(second) && schedules.contains(due_at(schedules, second)[i]),
        schedule.due_at(second) ==> due_at(seq![schedule], second) == seq![schedule],
        !schedule.due_at(second) ==> due_at(seq![schedule], second).len() == 0,
        due_at(schedules + more, second) == due_at(schedules, second) + due_at(more, second),
{
    let keep = |s: AlbumScheduleView| s.due_at(second);
    assert forall|i: int|
        0 <= i < schedules.len() && (#[trigger] schedules[i]).due_at(second) implies due_at(
        schedules,
        second,
    ).contains(schedules[i]) by {
        schedules.lemma_filter_contains(keep, i);
    }
    assert forall|i: int| 0 <= i < due_at(schedules, second).len() implies (#[trigger] due_at(
        schedules,
        second,
    )[i]).due_at(second) && schedules.contains(due_at(schedules, second)[i]) by {
        schedules.lemma_filter_pred(keep, i);
        schedules.lemma_filter_contains_rev(keep, schedules.filter(keep)[i]);
    }
    let none = Seq::<AlbumScheduleView>::empty();
    none.lemma_filter_push(schedule, keep);
    assert(none.push(schedule) == seq![schedule]);
    assert(none.filter(keep) == none) by {
        reveal(Seq::filter);
    }
    Seq::filter_distributes_over_add(schedules, more, keep);
}

/// The schedule of an album is the first one listed for it, and there is none exactly if none
/// is listed.
pub proof fn law_schedule_of_is_the_first(schedules: Seq<AlbumScheduleView>, album: Seq<char>)
    ensures
        match schedule_of(schedules, album) {
            Some(schedule) => exists|k: int|
                {
                    &&& 0 <= k < schedules.len()
                    &&& #[trigger] schedules[k] == schedule
                    &&& schedule.album == album
                    &&& forall|j: int| 0 <= j < k ==> (#[trigger] schedules[j]).album != album
                },
            None => forall|j: int|
                0 <= j < schedules.len() ==> (#[trigger] schedules[j]).album != album,
        },
{
    lemma_schedule_place(schedules, album);
}

/// Putting a schedule in the list adds one only where its album had none, and otherwise
/// changes the first schedule of its album only.
pub proof fn law_put_schedule_changes_its_album_only(
    schedules: Seq<AlbumScheduleView>,
    schedule: AlbumScheduleView,
)
    ensures
        with_schedule(schedules, schedule).len() == schedules.len() + (if schedule_of(
            schedules,
            schedule.album,
        ) is None {
            1int
        } else {
            0int
        }),
        with_schedule(schedules, schedule).contains(schedule),
        forall|i: int|
            0 <= i < schedules.len() ==> #[trigger] with_schedule(schedules, schedule)[i]
                == schedules[i] || (schedules[i].album == schedule.album && with_schedule(
                schedules,
                schedule,
            )[i] == schedule),
        forall|i: int, j: int|
            0 <= i < j < schedules.len() && (#[trigger] with_schedule(schedules, schedule)[j])
                != schedules[j] ==> (#[trigger] schedules[i]).album != schedule.album,
{
    lemma_schedule_place(schedules, schedule.album);
    match schedule_place(schedules, schedule.album) {
        Some(i) => {
            assert(with_schedule(schedules, schedule)[i] == schedule);
        },
        None => {
            assert(with_schedule(schedules, schedule)[schedules.len() as int] == schedule);
        },
    }
}

/// Removing the schedules of an album leaves every schedule of another album, as often and in
/// the order in which it is listed, and none of that album.
pub proof fn law_removal_leaves_other_albums(
    schedules: Seq<AlbumScheduleView>,
    more: Seq<AlbumScheduleView>,
    schedule: AlbumScheduleView,
    album: Seq<char>,
)
    ensures
        forall|i: int|
            0 <= i < schedules.len() && (#[trigger] schedules[i]).album != album ==> without_album(
                schedules,
                album,
            ).contains(schedules[i]),
        forall|i: int|
            0 <= i < without_album(schedules, album).len() ==> (#[trigger] without_album(
                schedules,
                album,
            )[i]).album != album && schedules.contains(without_album(schedules, album)[i]),
        schedule.album != album ==> without_album(seq![schedule], album) == seq![schedule],
        schedule.album == album ==> without_album(seq![schedule], album).len() == 0,
        without_album(schedules + more, album) == without_album(schedules, album) + without_album(
            more,
            album,
        ),
{
    let keep = |s: AlbumScheduleView| s.album != album;
    assert forall|i: int|
        0 <= i < schedules.len() && (#[trigger] schedules[i]).album != album implies without_album(
        schedules,
        album,
    ).contains(schedules[i]) by {
        schedules.lemma_filter_contains(keep, i);
    }
    assert forall|i: int| 0 <= i < without_album(schedules, album).len() implies (
    #[trigger] without_album(schedules, album)[i]).album != album && schedules.contains(
        without_album(schedules, album)[i],
    ) by {
        schedules.lemma_filter_pred(keep, i);
        schedules.lemma_filter_contains_rev(keep, schedules.filter(keep)[i]);
    }
    let none = Seq::<AlbumScheduleView>::empty();
    none.lemma_filter_push(schedule, keep);
    assert(none.push(schedule) == seq![schedule]);
    assert(none.filter(keep) == none) by {
        reveal(Seq::filter);
    }
    Seq::filter_distributes_over_add(schedules, more, keep);
}

/// Recording a run adds and removes nothing, and of one schedule of the album at most it
/// changes the time of the last run.
pub proof fn law_recorded_run_changes_the_last_run_only(
    schedules: Seq<AlbumScheduleView>,
    album: Seq<char>,
    second: i64,
)
    ensures
        with_run(schedules, album, second).len() == schedules.len(),
        forall|i: int|
            0 <= i < schedules.len() ==> {
                let before = schedules[i];
                let after = #[trigger] with_run(schedules, album, second)[i];
                &&& after.album == before.album
                &&& after.playlist_url == before.playlist_url
                &&& after.frequency == before.frequency
                &&& after.last_run_ts == before.last_run_ts || (before.album == album
                    && after.last_run_ts == Some(second))
            },
        forall|i: int, j: int|
            0 <= i < j < schedules.len() && (#[trigger] with_run(schedules, album, second)[j])
                != schedules[j] ==> (#[trigger] schedules[i]).album != album,
{
    lemma_schedule_place(schedules, album);
}

} // verus!
