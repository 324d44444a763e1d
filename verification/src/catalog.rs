//! The listings of what is stored: albums, the files of an album, and archives.

use vstd::prelude::*;

use crate::clock::{utc_format, Timestamp, NEXT_RUN_FORMAT};
use crate::links::{encode, percent_encoded};
use crate::order::{
    comes_before, lemma_every_index_listed, lemma_kept_order, lemma_text_ranks_total,
    lemma_text_ranks_transitive, lists_indices, sort_stable, sorted_by_places, stably_sorted,
    text_not_after, text_ranks, views, Ranked,
};
use crate::schedule::AlbumSchedule;
use crate::size::{format_bytes, size_text};
use crate::text::{lowered, to_lowercase};

verus! {

/// An entry below an album folder. The size is missing where it could not be read.
#[derive(Debug)]
pub struct WalkedEntry {
    pub is_file: bool,
    pub size: Option<u64>,
}

/// How many of the entries are files.
pub open spec fn file_count(entries: Seq<WalkedEntry>) -> nat
    decreases entries.len(),
{
    if entries.len() == 0 {
        0
    } else {
        file_count(entries.drop_last()) + if entries.last().is_file {
            1nat
        } else {
            0nat
        }
    }
}

/// What an entry adds to the size of its album.
pub open spec fn entry_size(entry: WalkedEntry) -> nat {
    match entry.size {
        Some(size) if entry.is_file => size as nat,
        _ => 0,
    }
}

/// The size of all files among the entries together.
pub open spec fn files_size(entries: Seq<WalkedEntry>) -> nat
    decreases entries.len(),
{
    if entries.len() == 0 {
        0
    } else {
        files_size(entries.drop_last()) + entry_size(entries.last())
    }
}

/// The first entries are no larger than all of them.
proof fn lemma_files_size_grows(entries: Seq<WalkedEntry>, i: int)
    requires
        0 <= i <= entries.len(),
    ensures
        files_size(entries.take(i)) <= files_size(entries),
    decreases entries.len(),
{
    if i < entries.len() {
        lemma_files_size_grows(entries.drop_last(), i);
        assert(entries.drop_last().take(i) == entries.take(i));
    } else {
        assert(entries.take(i) == entries);
    }
}

/// The number of files below an album folder and their size together, where that size
/// can be told.
pub fn summarize_dir(entries: &Vec<WalkedEntry>) -> (r: Option<(usize, u64)>)
    ensures
        match r {
            Some((count, size)) => count == file_count(entries@) && size == files_size(entries@),
            None => files_size(entries@) > u64::MAX,
        },
{
    let mut count: usize = 0;
    let mut total: u64 = 0;
    let mut i: usize = 0;
    while i < entries.len()
        invariant
            i <= entries.len(),
            count <= i,
            count == file_count(entries@.take(i as int)),
            total == files_size(entries@.take(i as int)),
        decreases entries.len() - i,
    {
        let ghost upto = entries@.take(i + 1);
        assert(upto.drop_last() == entries@.take(i as int));
        assert(upto.last() == entries@[i as int]);
        if entries[i].is_file {
            count = count + 1;
            let size: u64 = match entries[i].size {
                Some(size) => size,
                None => 0,
            };
            match total.checked_add(size) {
                Some(sum) => {
                    total = sum;
                },
                None => {
                    proof {
                        lemma_files_size_grows(entries@, i + 1);
                    }
                    return None;
                },
            }
        }
        i = i + 1;
    }
    assert(entries@.take(entries@.len() as int) == entries@);
    Some((count, total))
}

/// An entry of the downloads folder, with what lies below it.
#[derive(Debug)]
pub struct ListedFolder {
    pub name: String,
    pub is_dir: bool,
    pub entries: Vec<WalkedEntry>,
}

/// An album in the list of albums.
#[derive(Debug)]
pub struct AlbumInfo {
    pub name: String,
    pub encoded_name: String,
    pub file_count: usize,
    pub total_size: u64,
    pub total_size_display: String,
}

/// The contents of an album in the list.
#[verifier::ext_equal]
pub struct AlbumInfoView {
    pub name: Seq<char>,
    pub encoded_name: Seq<char>,
    pub file_count: nat,
    pub total_size: nat,
    pub total_size_display: Seq<char>,
}

impl View for AlbumInfo {
    type V = AlbumInfoView;

    open spec fn view(&self) -> AlbumInfoView {
        AlbumInfoView {
            name: self.name@,
            encoded_name: self.encoded_name@,
            file_count: self.file_count as nat,
            total_size: self.total_size as nat,
            total_size_display: self.total_size_display@,
        }
    }
}

/// The album that a folder is.
pub open spec fn album_of(folder: ListedFolder) -> AlbumInfoView {
    AlbumInfoView {
        name: folder.name@,
        encoded_name: percent_encoded(folder.name@),
        file_count: file_count(folder.entries@),
        total_size: files_size(folder.entries@),
        total_size_display: size_text(files_size(folder.entries@)),
    }
}

/// The albums in the downloads folder: the entries that are folders.
pub open spec fn albums_in(folders: Seq<ListedFolder>) -> Seq<AlbumInfoView>
    decreases folders.len(),
{
    if folders.len() == 0 {
        Seq::empty()
    } else {
        let rest = albums_in(folders.drop_last());
        if folders.last().is_dir {
            rest.push(album_of(folders.last()))
        } else {
            rest
        }
    }
}

/// Whether the size of some album cannot be told.
pub open spec fn some_size_overflows(folders: Seq<ListedFolder>) -> bool {
    exists|i: int|
        0 <= i < folders.len() && (#[trigger] folders[i]).is_dir && files_size(folders[i].entries@)
            > u64::MAX
}

/// An album with the text that it is sorted by.
#[derive(Debug)]
pub struct KeyedAlbum {
    pub key: String,
    pub album: AlbumInfo,
}

/// The contents of an album with its sort key.
#[verifier::ext_equal]
pub struct KeyedAlbumView {
    pub key: Seq<char>,
    pub album: AlbumInfoView,
}

impl View for KeyedAlbum {
    type V = KeyedAlbumView;

    open spec fn view(&self) -> KeyedAlbumView {
        KeyedAlbumView { key: self.key@, album: self.album@ }
    }
}

impl Ranked for KeyedAlbum {
    /// Albums stand in the order of their keys.
    open spec fn ranks(a: KeyedAlbumView, b: KeyedAlbumView) -> bool {
        text_ranks(a.key, b.key)
    }

    proof fn ranks_total(a: KeyedAlbumView, b: KeyedAlbumView) {
        lemma_text_ranks_total(a.key, b.key);
    }

    proof fn ranks_transitive(a: KeyedAlbumView, b: KeyedAlbumView, c: KeyedAlbumView) {
        lemma_text_ranks_transitive(a.key, b.key, c.key);
    }

    fn may_precede(&self, other: &KeyedAlbum) -> (r: bool) {
        text_not_after(self.key.as_str(), other.key.as_str())
    }
}

/// The albums with their names in lower case as sort keys.
pub open spec fn keyed(albums: Seq<AlbumInfoView>) -> Seq<KeyedAlbumView> {
    albums.map_values(
        |album: AlbumInfoView| KeyedAlbumView { key: lowered(album.name), album },
    )
}

/// The albums without their sort keys.
pub open spec fn unkeyed(albums: Seq<KeyedAlbumView>) -> Seq<AlbumInfoView> {
    albums.map_values(|keyed: KeyedAlbumView| keyed.album)
}

/// The albums in the order of their keys; albums with the same key keep the order they
/// have.
pub fn sort_albums(albums: Vec<KeyedAlbum>) -> (r: Vec<AlbumInfo>)
    ensures
        exists|sorted: Seq<KeyedAlbumView>| #[trigger]
            stably_sorted::<KeyedAlbum>(views(albums@), sorted) && views(r@) == unkeyed(sorted),
{
    let ghost all = views(albums@);
    let sorted_albums = sort_stable(albums);
    let ghost sorted = views(sorted_albums@);
    let mut out: Vec<AlbumInfo> = Vec::new();
    for keyed in it: sorted_albums
        invariant
            it.seq() == sorted_albums@,
            out.len() == it.index(),
            forall|i: int| 0 <= i < out.len() ==> (#[trigger] out@[i])@ == it.seq()[i].album@,
    {
        out.push(keyed.album);
    }
    assert(views(out@) == unkeyed(sorted));
    assert(stably_sorted::<KeyedAlbum>(all, sorted));
    out
}

/// Sorted albums keep their keys.
proof fn lemma_sorted_keeps_keys(albums: Seq<AlbumInfoView>, sorted: Seq<KeyedAlbumView>)
    requires
        stably_sorted::<KeyedAlbum>(keyed(albums), sorted),
    ensures
        sorted == keyed(unkeyed(sorted)),
{
    let places = choose|places: Seq<int>|
        lists_indices(places, 0, albums.len() as int) && #[trigger] sorted_by_places::<KeyedAlbum>(
            keyed(albums),
            sorted,
            places,
        );
    assert forall|i: int| 0 <= i < sorted.len() implies #[trigger] sorted[i] == keyed(
        unkeyed(sorted),
    )[i] by {
        assert(sorted[i] == keyed(albums)[places[i]]);
    }
    assert(sorted =~= keyed(unkeyed(sorted)));
}

/// The albums in the downloads folder, in the order of their names in lower case, where
/// the size of each can be told.
pub fn gather_albums(folders: &Vec<ListedFolder>) -> (r: Option<Vec<AlbumInfo>>)
    ensures
        match r {
            Some(albums) => !some_size_overflows(folders@) && stably_sorted::<KeyedAlbum>(
                keyed(albums_in(folders@)),
                keyed(views(albums@)),
            ),
            None => some_size_overflows(folders@),
        },
{
    let mut found: Vec<KeyedAlbum> = Vec::new();
    let mut i: usize = 0;
    while i < folders.len()
        invariant
            i <= folders.len(),
            views(found@) == keyed(albums_in(folders@.take(i as int))),
            forall|j: int|
                0 <= j < i && (#[trigger] folders@[j]).is_dir ==> files_size(folders@[j].entries@)
                    <= u64::MAX,
        decreases folders.len() - i,
    {
        let ghost before = albums_in(folders@.take(i as int));
        let ghost upto = folders@.take(i + 1);
        assert(upto.drop_last() == folders@.take(i as int));
        assert(upto.last() == folders@[i as int]);
        let folder = &folders[i];
        if folder.is_dir {
            match summarize_dir(&folder.entries) {
                Some((file_count, total_size)) => {
                    let album = AlbumInfo {
                        name: folder.name.clone(),
                        encoded_name: encode(folder.name.as_str()),
                        file_count,
                        total_size,
                        total_size_display: format_bytes(total_size),
                    };
                    assert(album@ == album_of(*folder));
                    let ghost listed = views(found@);
                    let entry = KeyedAlbum { key: to_lowercase(folder.name.as_str()), album };
                    let ghost added = entry@;
                    found.push(entry);
                    assert(views(found@) == listed.push(added));
                    assert(keyed(before.push(album_of(*folder))) == keyed(before).push(added));
                },
                None => {
                    assert(folders@[i as int].is_dir);
                    return None;
                },
            }
        }
        i = i + 1;
    }
    assert(folders@.take(folders@.len() as int) == folders@);
    let ghost wanted = keyed(albums_in(folders@));
    let albums = sort_albums(found);
    proof {
        let sorted = choose|sorted: Seq<KeyedAlbumView>| #[trigger]
            stably_sorted::<KeyedAlbum>(wanted, sorted) && views(albums@) == unkeyed(sorted);
        lemma_sorted_keeps_keys(albums_in(folders@), sorted);
    }
    Some(albums)
}

/// An album in the navigation.
#[derive(Debug)]
pub struct AlbumNav {
    pub name: String,
    pub encoded_name: String,
}

/// The navigation: the names of the albums, in their order.
pub fn nav_albums(albums: &Vec<AlbumInfo>) -> (r: Vec<AlbumNav>)
    ensures
        r.len() == albums.len(),
        forall|i: int|
            0 <= i < r.len() ==> (#[trigger] r@[i]).name@ == albums@[i].name@
                && r@[i].encoded_name@ == albums@[i].encoded_name@,
{
    let mut out: Vec<AlbumNav> = Vec::new();
    let mut i: usize = 0;
    while i < albums.len()
        invariant
            i <= albums.len(),
            out.len() == i,
            forall|j: int|
                0 <= j < i ==> (#[trigger] out@[j]).name@ == albums@[j].name@
                    && out@[j].encoded_name@ == albums@[j].encoded_name@,
        decreases albums.len() - i,
    {
        out.push(
            AlbumNav {
                name: albums[i].name.clone(),
                encoded_name: albums[i].encoded_name.clone(),
            },
        );
        i = i + 1;
    }
    out
}

/// An entry of a folder with its size.
#[derive(Debug)]
pub struct ListedFile {
    pub name: String,
    pub is_file: bool,
    pub size: u64,
}

/// A file of an album.
#[derive(Debug)]
pub struct FileInfo {
    pub name: String,
    pub size: u64,
    pub size_display: String,
}

/// The contents of a file of an album.
#[verifier::ext_equal]
pub struct FileInfoView {
    pub name: Seq<char>,
    pub size: nat,
    pub size_display: Seq<char>,
}

impl View for FileInfo {
    type V = FileInfoView;

    open spec fn view(&self) -> FileInfoView {
        FileInfoView {
            name: self.name@,
            size: self.size as nat,
            size_display: self.size_display@,
        }
    }
}

impl Ranked for FileInfo {
    /// Files stand in the order of their names.
    open spec fn ranks(a: FileInfoView, b: FileInfoView) -> bool {
        text_ranks(a.name, b.name)
    }

    proof fn ranks_total(a: FileInfoView, b: FileInfoView) {
        lemma_text_ranks_total(a.name, b.name);
    }

    proof fn ranks_transitive(a: FileInfoView, b: FileInfoView, c: FileInfoView) {
        lemma_text_ranks_transitive(a.name, b.name, c.name);
    }

    fn may_precede(&self, other: &FileInfo) -> (r: bool) {
        text_not_after(self.name.as_str(), other.name.as_str())
    }
}

/// The files in a folder: the entries that are files.
pub open spec fn files_in(entries: Seq<ListedFile>) -> Seq<FileInfoView>
    decreases entries.len(),
{
    if entries.len() == 0 {
        Seq::empty()
    } else {
        let rest = files_in(entries.drop_last());
        let last = entries.last();
        if last.is_file {
            rest.push(
                FileInfoView {
                    name: last.name@,
                    size: last.size as nat,
                    size_display: size_text(last.size as nat),
                },
            )
        } else {
            rest
        }
    }
}

/// The size of files together.
pub open spec fn total_size(files: Seq<FileInfoView>) -> nat
    decreases files.len(),
{
    if files.len() == 0 {
        0
    } else {
        total_size(files.drop_last()) + files.last().size
    }
}

/// The page of an album.
#[derive(Debug)]
pub struct AlbumDetailInfo {
    pub name: String,
    pub encoded_name: String,
    pub files: Vec<FileInfo>,
    pub total_size: u64,
    pub total_size_display: String,
}

/// The first entries are no larger than all of them.
proof fn lemma_total_size_grows(entries: Seq<ListedFile>, i: int)
    requires
        0 <= i <= entries.len(),
    ensures
        total_size(files_in(entries.take(i))) <= total_size(files_in(entries)),
    decreases entries.len(),
{
    if i < entries.len() {
        lemma_total_size_grows(entries.drop_last(), i);
        assert(entries.drop_last().take(i) == entries.take(i));
        let rest = files_in(entries.drop_last());
        if entries.last().is_file {
            assert(files_in(entries).drop_last() == rest);
        }
    } else {
        assert(entries.take(i) == entries);
    }
}

/// The page of an album: its files in the order of their names, where their size
/// together can be told.
pub fn gather_album_detail(album: &str, entries: &Vec<ListedFile>) -> (r: Option<AlbumDetailInfo>)
    ensures
        match r {
            Some(detail) => {
                &&& detail.name@ == album@
                &&& detail.encoded_name@ == percent_encoded(album@)
                &&& stably_sorted::<FileInfo>(files_in(entries@), views(detail.files@))
                &&& detail.total_size == total_size(files_in(entries@))
                &&& detail.total_size_display@ == size_text(total_size(files_in(entries@)))
            },
            None => total_size(files_in(entries@)) > u64::MAX,
        },
{
    let mut files: Vec<FileInfo> = Vec::new();
    let mut total: u64 = 0;
    let mut i: usize = 0;
    assert(views(files@) == files_in(entries@.take(0)));
    while i < entries.len()
        invariant
            i <= entries.len(),
            views(files@) == files_in(entries@.take(i as int)),
            total == total_size(files_in(entries@.take(i as int))),
        decreases entries.len() - i,
    {
        let ghost before = views(files@);
        let ghost upto = entries@.take(i + 1);
        assert(upto.drop_last() == entries@.take(i as int));
        assert(upto.last() == entries@[i as int]);
        let entry = &entries[i];
        if entry.is_file {
            let file = FileInfo {
                name: entry.name.clone(),
                size: entry.size,
                size_display: format_bytes(entry.size),
            };
            let ghost added = file@;
            files.push(file);
            assert(views(files@) == before.push(added));
            assert(files_in(upto).drop_last() == before);
            match total.checked_add(entry.size) {
                Some(sum) => {
                    total = sum;
                },
                None => {
                    proof {
                        lemma_total_size_grows(entries@, i + 1);
                    }
                    return None;
                },
            }
        }
        i = i + 1;
    }
    assert(entries@.take(entries@.len() as int) == entries@);
    let files = sort_stable(files);
    Some(
        AlbumDetailInfo {
            name: album.to_string(),
            encoded_name: encode(album),
            files,
            total_size: total,
            total_size_display: format_bytes(total),
        },
    )
}

/// Taking out one file takes its size off the total.
proof fn lemma_total_without(files: Seq<FileInfoView>, k: int)
    requires
        0 <= k < files.len(),
    ensures
        total_size(files) == total_size(files.remove(k)) + files[k].size,
    decreases files.len(),
{
    if k == files.len() - 1 {
        assert(files.remove(k) == files.drop_last());
    } else {
        let rest = files.remove(k);
        lemma_total_without(files.drop_last(), k);
        assert(rest.drop_last() == files.drop_last().remove(k));
        assert(rest.last() == files.last());
    }
}

/// Files that are the same in another order have the same total.
proof fn lemma_total_of_rearranged(
    files: Seq<FileInfoView>,
    rearranged: Seq<FileInfoView>,
    places: Seq<int>,
)
    requires
        lists_indices(places, 0, files.len() as int),
        rearranged.len() == places.len(),
        forall|i: int|
            0 <= i < places.len() ==> #[trigger] rearranged[i] == files[places[i]],
    ensures
        total_size(files) == total_size(rearranged),
    decreases files.len(),
{
    let n = files.len() as int;
    if n > 0 {
        lemma_every_index_listed(places, n, n - 1);
        let k = choose|k: int| 0 <= k < places.len() && places[k] == n - 1;
        let fewer = places.remove(k);
        let without = rearranged.remove(k);
        assert forall|i: int| 0 <= i < fewer.len() implies 0 <= #[trigger] fewer[i] < n - 1 by {
            let j = if i < k { i } else { i + 1 };
            assert(fewer[i] == places[j]);
            assert(places[j] != places[k]);
        }
        assert forall|i: int, j: int| 0 <= i < j < fewer.len() implies #[trigger] fewer[i]
            != #[trigger] fewer[j] by {
            let a = if i < k { i } else { i + 1 };
            let b = if j < k { j } else { j + 1 };
            assert(places[a] != places[b]);
        }
        assert forall|i: int| 0 <= i < fewer.len() implies #[trigger] without[i]
            == files.drop_last()[fewer[i]] by {
            let j = if i < k { i } else { i + 1 };
            assert(rearranged[j] == files[places[j]]);
            assert(fewer[i] < n - 1);
        }
        lemma_total_of_rearranged(files.drop_last(), without, fewer);
        lemma_total_without(rearranged, k);
        assert(rearranged[k] == files[places[k]]);
    } else {
        assert(rearranged.len() == 0);
    }
}

/// The total on the page of an album is the sum of the sizes that the page shows.
pub proof fn law_total_is_sum_of_shown_sizes(files: Seq<FileInfoView>, shown: Seq<FileInfoView>)
    requires
        stably_sorted::<FileInfo>(files, shown),
    ensures
        total_size(files) == total_size(shown),
{
    let places = choose|places: Seq<int>|
        lists_indices(places, 0, files.len() as int) && #[trigger] sorted_by_places::<FileInfo>(
            files,
            shown,
            places,
        );
    lemma_total_of_rearranged(files, shown, places);
}

/// An archive in the list of archives.
#[derive(Debug)]
pub struct ArchiveInfo {
    pub name: String,
    pub size: u64,
    pub encoded_name: String,
    pub size_display: String,
}

/// The contents of an archive in the list.
#[verifier::ext_equal]
pub struct ArchiveInfoView {
    pub name: Seq<char>,
    pub size: nat,
    pub encoded_name: Seq<char>,
    pub size_display: Seq<char>,
}

impl View for ArchiveInfo {
    type V = ArchiveInfoView;

    open spec fn view(&self) -> ArchiveInfoView {
        ArchiveInfoView {
            name: self.name@,
            size: self.size as nat,
            encoded_name: self.encoded_name@,
            size_display: self.size_display@,
        }
    }
}

impl Ranked for ArchiveInfo {
    /// Larger archives stand first.
    open spec fn ranks(a: ArchiveInfoView, b: ArchiveInfoView) -> bool {
        b.size <= a.size
    }

    proof fn ranks_total(a: ArchiveInfoView, b: ArchiveInfoView) {
    }

    proof fn ranks_transitive(a: ArchiveInfoView, b: ArchiveInfoView, c: ArchiveInfoView) {
    }

    fn may_precede(&self, other: &ArchiveInfo) -> (r: bool) {
        other.size <= self.size
    }
}

/// The archives in the archive folder: the entries that are files.
pub open spec fn archives_in(entries: Seq<ListedFile>) -> Seq<ArchiveInfoView>
    decreases entries.len(),
{
    if entries.len() == 0 {
        Seq::empty()
    } else {
        let rest = archives_in(entries.drop_last());
        let last = entries.last();
        if last.is_file {
            rest.push(
                ArchiveInfoView {
                    name: last.name@,
                    size: last.size as nat,
                    encoded_name: percent_encoded(last.name@),
                    size_display: size_text(last.size as nat),
                },
            )
        } else {
            rest
        }
    }
}

/// The archives in the archive folder, the largest first.
pub fn gather_archives(entries: &Vec<ListedFile>) -> (r: Vec<ArchiveInfo>)
    ensures
        stably_sorted::<ArchiveInfo>(archives_in(entries@), views(r@)),
{
    let mut archives: Vec<ArchiveInfo> = Vec::new();
    let mut i: usize = 0;
    assert(views(archives@) == archives_in(entries@.take(0)));
    while i < entries.len()
        invariant
            i <= entries.len(),
            views(archives@) == archives_in(entries@.take(i as int)),
        decreases entries.len() - i,
    {
        let ghost before = views(archives@);
        let ghost upto = entries@.take(i + 1);
        assert(upto.drop_last() == entries@.take(i as int));
        assert(upto.last() == entries@[i as int]);
        let entry = &entries[i];
        if entry.is_file {
            let archive = ArchiveInfo {
                name: entry.name.clone(),
                size: entry.size,
                encoded_name: encode(entry.name.as_str()),
                size_display: format_bytes(entry.size),
            };
            let ghost added = archive@;
            archives.push(archive);
            assert(views(archives@) == before.push(added));
        }
        i = i + 1;
    }
    assert(entries@.take(entries@.len() as int) == entries@);
    sort_stable(archives)
}

/// An archive that is being edited.
#[derive(Debug)]
pub struct ArchiveFile {
    pub name: String,
    pub encoded_name: String,
    pub content: String,
}

/// The page that edits an archive. An archive that does not exist yet is empty.
pub fn archive_file(name: String, content: Option<String>) -> (r: ArchiveFile)
    ensures
        r.name == name,
        r.encoded_name@ == percent_encoded(name@),
        match content {
            Some(text) => r.content == text,
            None => r.content@.len() == 0,
        },
{
    let encoded_name = encode(name.as_str());
    let content = match content {
        Some(text) => text,
        None => String::new(),
    };
    ArchiveFile { name, encoded_name, content }
}

/// What the page of an album shows of its schedule.
#[derive(Debug)]
pub struct AlbumScheduleDisplay {
    pub playlist_url: String,
    pub frequency_label: String,
    pub next_run_display: String,
    pub frequency_value: String,
}

/// What the page of an album shows of its schedule.
pub fn schedule_display(schedule: &AlbumSchedule, now: Timestamp) -> (r: AlbumScheduleDisplay)
    requires
        schedule@.next_run_in_calendar(now.secs() as int),
    ensures
        r.playlist_url@ == schedule.playlist_url@,
        r.frequency_label@ == schedule.frequency.label(),
        r.next_run_display@ == utc_format(
            schedule@.next_run_second(now.secs() as int) as i64,
            NEXT_RUN_FORMAT@,
        ),
        r.frequency_value@ == schedule.frequency.field(),
{
    AlbumScheduleDisplay {
        playlist_url: schedule.playlist_url.clone(),
        frequency_label: schedule.frequency.as_str().to_string(),
        next_run_display: schedule.next_run_display(now),
        frequency_value: schedule.frequency.form_value().to_string(),
    }
}

/// The files below two parts of a folder are counted and measured together by adding up. A
/// file counts once, with its size where that could be read; anything else counts for nothing.
pub proof fn law_counts_and_sizes_add_up(
    a: Seq<WalkedEntry>,
    b: Seq<WalkedEntry>,
    entry: WalkedEntry,
)
    ensures
        file_count(Seq::empty()) == 0 && files_size(Seq::empty()) == 0,
        file_count(a + b) == file_count(a) + file_count(b),
        files_size(a + b) == files_size(a) + files_size(b),
        entry.is_file ==> file_count(seq![entry]) == 1 && files_size(seq![entry]) == (
        match entry.size {
            Some(size) => size as nat,
            None => 0,
        }),
        !entry.is_file ==> file_count(seq![entry]) == 0 && files_size(seq![entry]) == 0,
    decreases b.len(),
{
    let none = Seq::<WalkedEntry>::empty();
    assert(seq![entry].drop_last() == none);
    assert(file_count(none) == 0 && files_size(none) == 0);
    if b.len() > 0 {
        law_counts_and_sizes_add_up(a, b.drop_last(), entry);
        assert((a + b).drop_last() == a + b.drop_last());
        assert((a + b).last() == b.last());
    } else {
        assert(a + b == a);
    }
}

/// The albums in two parts of the downloads folder are the albums of both. A folder is an
/// album, with its name, the address of its name, and the count and the size of the files below
/// it; anything else is none.
pub proof fn law_folders_are_albums(
    a: Seq<ListedFolder>,
    b: Seq<ListedFolder>,
    folder: ListedFolder,
)
    ensures
        albums_in(Seq::empty()).len() == 0,
        albums_in(a + b) == albums_in(a) + albums_in(b),
        !folder.is_dir ==> albums_in(seq![folder]).len() == 0,
        folder.is_dir ==> {
            let albums = albums_in(seq![folder]);
            &&& albums.len() == 1
            &&& albums[0].name == folder.name@
            &&& albums[0].encoded_name == percent_encoded(folder.name@)
            &&& albums[0].file_count == file_count(folder.entries@)
            &&& albums[0].total_size == files_size(folder.entries@)
            &&& albums[0].total_size_display == size_text(files_size(folder.entries@))
        },
    decreases b.len(),
{
    assert(seq![folder].drop_last() == Seq::<ListedFolder>::empty());
    assert(albums_in(Seq::empty()) == Seq::<AlbumInfoView>::empty());
    if b.len() > 0 {
        law_folders_are_albums(a, b.drop_last(), folder);
        assert((a + b).drop_last() == a + b.drop_last());
        assert((a + b).last() == b.last());
        assert(albums_in(a + b) =~= albums_in(a) + albums_in(b));
    } else {
        assert(a + b == a);
        assert(albums_in(a) + albums_in(b) =~= albums_in(a));
    }
}

/// The list of albums: every album, none besides, and none before one whose name comes earlier
/// in lower case. Albums whose names are the same in lower case stand as they were found.
pub proof fn law_listed_albums_are_in_order(
    albums: Seq<AlbumInfoView>,
    listed: Seq<AlbumInfoView>,
    name: Seq<char>,
)
    requires
        stably_sorted::<KeyedAlbum>(keyed(albums), keyed(listed)),
    ensures
        listed.len() == albums.len(),
        forall|i: int| 0 <= i < listed.len() ==> albums.contains(#[trigger] listed[i]),
        forall|i: int| 0 <= i < albums.len() ==> listed.contains(#[trigger] albums[i]),
        forall|i: int, j: int|
            0 <= i < j < listed.len() ==> text_ranks(
                lowered((#[trigger] listed[i]).name),
                lowered((#[trigger] listed[j]).name),
            ),
        listed.filter(|album: AlbumInfoView| lowered(album.name) == name) == albums.filter(
            |album: AlbumInfoView| lowered(album.name) == name,
        ),
{
    let alike = |album: AlbumInfoView| lowered(album.name) == name;
    let items = keyed(albums);
    let sorted = keyed(listed);
    let places = choose|places: Seq<int>|
        lists_indices(places, 0, items.len() as int) && #[trigger] sorted_by_places::<KeyedAlbum>(
            items,
            sorted,
            places,
        );
    assert forall|i: int| 0 <= i < listed.len() implies albums.contains(#[trigger] listed[i]) by {
        assert(sorted[i] == items[places[i]]);
        assert(sorted[i].album == listed[i]);
        assert(albums[places[i]] == listed[i]);
    }
    assert forall|i: int| 0 <= i < albums.len() implies listed.contains(#[trigger] albums[i]) by {
        lemma_every_index_listed(places, items.len() as int, i);
        let k = choose|k: int| 0 <= k < places.len() && places[k] == i;
        assert(sorted[k] == items[places[k]]);
        assert(sorted[k].album == listed[k]);
        assert(listed[k] == albums[i]);
    }
    assert forall|i: int, j: int| 0 <= i < j < listed.len() implies text_ranks(
        lowered((#[trigger] listed[i]).name),
        lowered((#[trigger] listed[j]).name),
    ) by {
        assert(comes_before::<KeyedAlbum>(items, places[i], places[j]));
        assert(sorted[i] == items[places[i]] && sorted[j] == items[places[j]]);
    }
    assert forall|i: int| 0 <= i < places.len() implies #[trigger] listed[i]
        == albums[places[i]] by {
        assert(sorted[i] == items[places[i]]);
        assert(sorted[i].album == listed[i]);
    }
    assert forall|i: int, j: int|
        0 <= i < j < places.len() && alike(listed[i]) && alike(listed[j]) implies
        #[trigger] places[i] < #[trigger] places[j] by {
        assert(comes_before::<KeyedAlbum>(items, places[i], places[j]));
        assert(sorted[i] == items[places[i]] && sorted[j] == items[places[j]]);
        lemma_text_ranks_total(name, name);
    }
    lemma_kept_order(albums, listed, places, alike);
}

/// Albums are sorted by their names in lower case, and are shown without that key.
pub proof fn law_albums_are_keyed_by_name(
    albums: Seq<AlbumInfoView>,
    sorted: Seq<KeyedAlbumView>,
)
    ensures
        keyed(albums).len() == albums.len(),
        forall|i: int|
            0 <= i < albums.len() ==> (#[trigger] keyed(albums)[i]).key == lowered(albums[i].name)
                && keyed(albums)[i].album == albums[i],
        unkeyed(sorted).len() == sorted.len(),
        forall|i: int| 0 <= i < sorted.len() ==> #[trigger] unkeyed(sorted)[i] == sorted[i].album,
{
}

/// The size of an album cannot be told exactly if the folder of some album has more than 64
/// bits count.
pub proof fn law_sizes_that_cannot_be_told(folders: Seq<ListedFolder>)
    ensures
        some_size_overflows(folders) <==> exists|i: int|
            0 <= i < folders.len() && (#[trigger] folders[i]).is_dir && files_size(
                folders[i].entries@,
            ) >= 0x1_0000_0000_0000_0000,
{
}

/// The files in two parts of a folder are the files of both. An entry that is a file is listed
/// with its name and its size; anything else is not.
pub proof fn law_entries_are_files(a: Seq<ListedFile>, b: Seq<ListedFile>, entry: ListedFile)
    ensures
        files_in(Seq::empty()).len() == 0,
        files_in(a + b) == files_in(a) + files_in(b),
        !entry.is_file ==> files_in(seq![entry]).len() == 0,
        entry.is_file ==> {
            let files = files_in(seq![entry]);
            &&& files.len() == 1
            &&& files[0].name == entry.name@
            &&& files[0].size == entry.size
            &&& files[0].size_display == size_text(entry.size as nat)
        },
    decreases b.len(),
{
    assert(seq![entry].drop_last() == Seq::<ListedFile>::empty());
    assert(files_in(Seq::empty()) == Seq::<FileInfoView>::empty());
    if b.len() > 0 {
        law_entries_are_files(a, b.drop_last(), entry);
        assert((a + b).drop_last() == a + b.drop_last());
        assert((a + b).last() == b.last());
        assert(files_in(a + b) =~= files_in(a) + files_in(b));
    } else {
        assert(a + b == a);
        assert(files_in(a) + files_in(b) =~= files_in(a));
    }
}

/// The sizes of files add up.
pub proof fn law_file_sizes_add_up(
    a: Seq<FileInfoView>,
    b: Seq<FileInfoView>,
    file: FileInfoView,
)
    ensures
        total_size(Seq::empty()) == 0,
        total_size(seq![file]) == file.size,
        total_size(a + b) == total_size(a) + total_size(b),
    decreases b.len(),
{
    assert(seq![file].drop_last() == Seq::<FileInfoView>::empty());
    assert(total_size(Seq::empty()) == 0);
    if b.len() > 0 {
        law_file_sizes_add_up(a, b.drop_last(), file);
        assert((a + b).drop_last() == a + b.drop_last());
        assert((a + b).last() == b.last());
    } else {
        assert(a + b == a);
    }
}

/// The page of an album lists every file, none besides, and none before one whose name comes
/// earlier. Files of the same name stand as they were found.
pub proof fn law_shown_files_are_in_order(
    files: Seq<FileInfoView>,
    shown: Seq<FileInfoView>,
    name: Seq<char>,
)
    requires
        stably_sorted::<FileInfo>(files, shown),
    ensures
        shown.len() == files.len(),
        forall|i: int| 0 <= i < shown.len() ==> files.contains(#[trigger] shown[i]),
        forall|i: int| 0 <= i < files.len() ==> shown.contains(#[trigger] files[i]),
        forall|i: int, j: int|
            0 <= i < j < shown.len() ==> text_ranks(
                (#[trigger] shown[i]).name,
                (#[trigger] shown[j]).name,
            ),
        shown.filter(|file: FileInfoView| file.name == name) == files.filter(
            |file: FileInfoView| file.name == name,
        ),
{
    let alike = |file: FileInfoView| file.name == name;
    let places = choose|places: Seq<int>|
        lists_indices(places, 0, files.len() as int) && #[trigger] sorted_by_places::<FileInfo>(
            files,
            shown,
            places,
        );
    assert forall|i: int| 0 <= i < shown.len() implies files.contains(#[trigger] shown[i]) by {
        assert(files[places[i]] == shown[i]);
    }
    assert forall|i: int| 0 <= i < files.len() implies shown.contains(#[trigger] files[i]) by {
        lemma_every_index_listed(places, files.len() as int, i);
        let k = choose|k: int| 0 <= k < places.len() && places[k] == i;
        assert(shown[k] == files[i]);
    }
    assert forall|i: int, j: int| 0 <= i < j < shown.len() implies text_ranks(
        (#[trigger] shown[i]).name,
        (#[trigger] shown[j]).name,
    ) by {
        assert(comes_before::<FileInfo>(files, places[i], places[j]));
        assert(shown[i] == files[places[i]] && shown[j] == files[places[j]]);
    }
    assert forall|i: int, j: int|
        0 <= i < j < places.len() && alike(shown[i]) && alike(shown[j]) implies
        #[trigger] places[i] < #[trigger] places[j] by {
        assert(comes_before::<FileInfo>(files, places[i], places[j]));
        assert(shown[i] == files[places[i]] && shown[j] == files[places[j]]);
        lemma_text_ranks_total(name, name);
    }
    lemma_kept_order(files, shown, places, alike);
}

/// The archives in two parts of the archive folder are the archives of both. An entry that is
/// a file is an archive, with its name, the address of its name, and its size; anything else is
/// none.
pub proof fn law_entries_are_archives(
    a: Seq<ListedFile>,
    b: Seq<ListedFile>,
    entry: ListedFile,
)
    ensures
        archives_in(Seq::empty()).len() == 0,
        archives_in(a + b) == archives_in(a) + archives_in(b),
        !entry.is_file ==> archives_in(seq![entry]).len() == 0,
        entry.is_file ==> {
            let archives = archives_in(seq![entry]);
            &&& archives.len() == 1
            &&& archives[0].name == entry.name@
            &&& archives[0].size == entry.size
            &&& archives[0].encoded_name == percent_encoded(entry.name@)
            &&& archives[0].size_display == size_text(entry.size as nat)
        },
    decreases b.len(),
{
    assert(seq![entry].drop_last() == Seq::<ListedFile>::empty());
    assert(archives_in(Seq::empty()) == Seq::<ArchiveInfoView>::empty());
    if b.len() > 0 {
        law_entries_are_archives(a, b.drop_last(), entry);
        assert((a + b).drop_last() == a + b.drop_last());
        assert((a + b).last() == b.last());
        assert(archives_in(a + b) =~= archives_in(a) + archives_in(b));
    } else {
        assert(a + b == a);
        assert(archives_in(a) + archives_in(b) =~= archives_in(a));
    }
}

/// The list of archives: every archive, none besides, and none before a larger one. Archives
/// of the same size stand as they were found.
pub proof fn law_listed_archives_are_in_order(
    archives: Seq<ArchiveInfoView>,
    listed: Seq<ArchiveInfoView>,
    size: nat,
)
    requires
        stably_sorted::<ArchiveInfo>(archives, listed),
    ensures
        listed.len() == archives.len(),
        forall|i: int| 0 <= i < listed.len() ==> archives.contains(#[trigger] listed[i]),
        forall|i: int| 0 <= i < archives.len() ==> listed.contains(#[trigger] archives[i]),
        forall|i: int, j: int|
            0 <= i < j < listed.len() ==> (#[trigger] listed[i]).size >= (
            #[trigger] listed[j]).size,
        listed.filter(|archive: ArchiveInfoView| archive.size == size) == archives.filter(
            |archive: ArchiveInfoView| archive.size == size,
        ),
{
    let alike = |archive: ArchiveInfoView| archive.size == size;
    let places = choose|places: Seq<int>|
        lists_indices(places, 0, archives.len() as int)
            && #[trigger] sorted_by_places::<ArchiveInfo>(archives, listed, places);
    assert forall|i: int| 0 <= i < listed.len() implies archives.contains(#[trigger] listed[i]) by {
        assert(archives[places[i]] == listed[i]);
    }
    assert forall|i: int| 0 <= i < archives.len() implies listed.contains(
        #[trigger] archives[i],
    ) by {
        lemma_every_index_listed(places, archives.len() as int, i);
        let k = choose|k: int| 0 <= k < places.len() && places[k] == i;
        assert(listed[k] == archives[i]);
    }
    assert forall|i: int, j: int| 0 <= i < j < listed.len() implies (#[trigger] listed[i]).size >= (
    #[trigger] listed[j]).size by {
        assert(comes_before::<ArchiveInfo>(archives, places[i], places[j]));
        assert(listed[i] == archives[places[i]] && listed[j] == archives[places[j]]);
    }
    assert forall|i: int, j: int|
        0 <= i < j < places.len() && alike(listed[i]) && alike(listed[j]) implies
        #[trigger] places[i] < #[trigger] places[j] by {
        assert(comes_before::<ArchiveInfo>(archives, places[i], places[j]));
        assert(listed[i] == archives[places[i]] && listed[j] == archives[places[j]]);
    }
    lemma_kept_order(archives, listed, places, alike);
}

/// The contents of what the listings show are the fields.
pub proof fn law_contents_of_listings(
    album: AlbumInfo,
    keyed_album: KeyedAlbum,
    file: FileInfo,
    archive: ArchiveInfo,
)
    ensures
        album@.name == album.name@,
        album@.encoded_name == album.encoded_name@,
        album@.file_count == album.file_count,
        album@.total_size == album.total_size,
        album@.total_size_display == album.total_size_display@,
        keyed_album@.key == keyed_album.key@,
        keyed_album@.album == keyed_album.album@,
        file@.name == file.name@,
        file@.size == file.size,
        file@.size_display == file.size_display@,
        archive@.name == archive.name@,
        archive@.size == archive.size,
        archive@.encoded_name == archive.encoded_name@,
        archive@.size_display == archive.size_display@,
{
}

} // verus!
