//! The configuration: where the application keeps its files, the schedules, and the
//! playlists that albums come from.

use vstd::prelude::*;

use crate::clock::Timestamp;
use crate::error::AppError;
use crate::order::views;
use crate::paths::{
    join_path, law_relative_path_lies_under, lies_under, parse_directory_path, path_join,
};
use crate::schedule::{
    drop_schedules, find_schedule, put_schedule, record_run, schedule_of, with_run,
    with_schedule, without_album, AlbumSchedule,
};
use crate::sources::{sources_map, AlbumSource, AlbumSources};
use crate::text::trimmed;

verus! {

/// The folders that downloads and archives are kept in.
#[derive(Debug)]
pub struct DirectoryConfig {
    pub downloads_dir: String,
    pub archives_dir: String,
}

/// The contents of a directory configuration.
#[verifier::ext_equal]
pub struct DirectoryConfigView {
    pub downloads_dir: Seq<char>,
    pub archives_dir: Seq<char>,
}

impl View for DirectoryConfig {
    type V = DirectoryConfigView;

    open spec fn view(&self) -> DirectoryConfigView {
        DirectoryConfigView { downloads_dir: self.downloads_dir@, archives_dir: self.archives_dir@ }
    }
}

impl Clone for DirectoryConfig {
    fn clone(&self) -> (r: DirectoryConfig)
        ensures
            r == *self,
    {
        DirectoryConfig {
            downloads_dir: self.downloads_dir.clone(),
            archives_dir: self.archives_dir.clone(),
        }
    }
}

/// What a setting is: its value where it was given, else its default.
pub open spec fn given_or(value: Option<String>, default: Seq<char>) -> Seq<char> {
    match value {
        Some(v) => v@,
        None => default,
    }
}

/// The value of a setting, or its default.
fn value_or(value: Option<String>, default: &str) -> (r: String)
    ensures
        r@ == given_or(value, default@),
{
    match value {
        Some(v) => v,
        None => default.to_string(),
    }
}

/// The address to listen on, from the `BIND_ADDR` variable.
pub fn bind_address(bind_addr: Option<String>) -> (r: String)
    ensures
        r@ == given_or(bind_addr, "0.0.0.0:8090"@),
        bind_addr is None ==> r@ == "0.0.0.0:8090"@,
        bind_addr matches Some(address) ==> r@ == address@,
{
    value_or(bind_addr, "0.0.0.0:8090")
}

/// The program that downloads and the files that the state is kept in.
#[derive(Debug)]
pub struct AppPaths {
    pub data_dir: String,
    pub yt_dlp_path: String,
    pub settings_path: String,
    pub schedules_path: String,
    pub album_sources_path: String,
}

impl AppPaths {
    /// The paths that the `DATA_DIR` and `YT_DLP_PATH` variables give.
    pub fn from_env(data_dir: Option<String>, yt_dlp_path: Option<String>) -> (r: AppPaths)
        ensures
            r.data_dir@ == given_or(data_dir, "./data"@),
            r.yt_dlp_path@ == given_or(yt_dlp_path, "yt-dlp"@),
            data_dir matches Some(dir) ==> r.data_dir@ == dir@,
            yt_dlp_path matches Some(path) ==> r.yt_dlp_path@ == path@,
            r.settings_path@ == path_join(r.data_dir@, "settings.json"@),
            r.schedules_path@ == path_join(r.data_dir@, "schedules.json"@),
            r.album_sources_path@ == path_join(r.data_dir@, "album_sources.json"@),
    {
        let data_dir = value_or(data_dir, "./data");
        let yt_dlp_path = value_or(yt_dlp_path, "yt-dlp");
        let settings_path = join_path(data_dir.as_str(), "settings.json");
        let schedules_path = join_path(data_dir.as_str(), "schedules.json");
        let album_sources_path = join_path(data_dir.as_str(), "album_sources.json");
        AppPaths { data_dir, yt_dlp_path, settings_path, schedules_path, album_sources_path }
    }
}

/// What the state files and the `DOWNLOADS_DIR` and `ARCHIVES_DIR` variables hold. A file
/// that is missing or cannot be read as what it should hold is given as `None`.
#[derive(Debug)]
pub struct StoredState {
    pub directories: Option<DirectoryConfig>,
    pub downloads_override: Option<String>,
    pub archives_override: Option<String>,
    pub schedules: Option<Vec<AlbumSchedule>>,
    pub album_sources: Option<Vec<AlbumSource>>,
}

/// The directories before the variables are looked at: those that were stored, else two
/// folders of the data directory.
pub open spec fn stored_directories(
    data_dir: Seq<char>,
    stored: Option<DirectoryConfig>,
) -> DirectoryConfigView {
    match stored {
        Some(directories) => directories@,
        None => DirectoryConfigView {
            downloads_dir: path_join(data_dir, "downloads"@),
            archives_dir: path_join(data_dir, "archives"@),
        },
    }
}

/// The state files, and the folders that downloads and archives are kept in by default,
/// lie under the data directory.
pub proof fn law_state_lies_under_data_dir(data_dir: Seq<char>)
    ensures
        lies_under(path_join(data_dir, "settings.json"@), data_dir),
        lies_under(path_join(data_dir, "schedules.json"@), data_dir),
        lies_under(path_join(data_dir, "album_sources.json"@), data_dir),
        lies_under(stored_directories(data_dir, None).downloads_dir, data_dir),
        lies_under(stored_directories(data_dir, None).archives_dir, data_dir),
{
    reveal_strlit("settings.json");
    reveal_strlit("schedules.json");
    reveal_strlit("album_sources.json");
    reveal_strlit("downloads");
    reveal_strlit("archives");
    law_relative_path_lies_under(data_dir, "settings.json"@);
    law_relative_path_lies_under(data_dir, "schedules.json"@);
    law_relative_path_lies_under(data_dir, "album_sources.json"@);
    law_relative_path_lies_under(data_dir, "downloads"@);
    law_relative_path_lies_under(data_dir, "archives"@);
}

/// The configuration of the application.
#[derive(Debug)]
pub struct AppConfig {
    pub paths: AppPaths,
    pub directories: DirectoryConfig,
    pub album_schedules: Vec<AlbumSchedule>,
    pub album_sources: AlbumSources,
}

impl AppConfig {
    /// The configuration that the environment and the state files give. A directory given
    /// by a variable takes precedence over the stored one and the default one.
    pub fn from_env(paths: AppPaths, stored: StoredState) -> (r: AppConfig)
        ensures
            r.paths == paths,
            ({
                let base = stored_directories(paths.data_dir@, stored.directories);
                &&& r.directories.downloads_dir@ == given_or(
                    stored.downloads_override,
                    base.downloads_dir,
                )
                &&& r.directories.archives_dir@ == given_or(
                    stored.archives_override,
                    base.archives_dir,
                )
            }),
            stored.downloads_override matches Some(dir) ==> r.directories.downloads_dir@ == dir@,
            stored.archives_override matches Some(dir) ==> r.directories.archives_dir@ == dir@,
            match stored.schedules {
                Some(schedules) => r.album_schedules == schedules,
                None => r.album_schedules@.len() == 0,
            },
            match stored.album_sources {
                Some(entries) => r.album_sources@ == sources_map(entries@),
                None => r.album_sources@ == Map::<Seq<char>, Seq<char>>::empty(),
            },
    {
        let mut directories = match stored.directories {
            Some(directories) => directories,
            None => DirectoryConfig {
                downloads_dir: join_path(paths.data_dir.as_str(), "downloads"),
                archives_dir: join_path(paths.data_dir.as_str(), "archives"),
            },
        };
        if let Some(custom) = stored.downloads_override {
            directories.downloads_dir = custom;
        }
        if let Some(custom) = stored.archives_override {
            directories.archives_dir = custom;
        }
        let album_schedules = match stored.schedules {
            Some(schedules) => schedules,
            None => Vec::new(),
        };
        let album_sources = match stored.album_sources {
            Some(entries) => AlbumSources::from_entries(&entries),
            None => AlbumSources::new(),
        };
        AppConfig { paths, directories, album_schedules, album_sources }
    }

    /// Checks that both directories are named.
    pub fn check_directories(downloads_dir: &str, archives_dir: &str) -> (r: Result<(), AppError>)
        ensures
            match r {
                Ok(_) => downloads_dir@.len() > 0 && archives_dir@.len() > 0,
                Err(e) => (downloads_dir@.len() == 0 || archives_dir@.len() == 0) && e.rejects(
                    "Directory paths must not be empty"@,
                ),
            },
    {
        if downloads_dir.is_empty() || archives_dir.is_empty() {
            return Err(AppError::invalid("Directory paths must not be empty"));
        }
        Ok(())
    }

    /// Changes the directories. Nothing else changes, and nothing at all where a
    /// directory is not named.
    pub fn set_directories(&mut self, downloads_dir: String, archives_dir: String) -> (r: Result<
        (),
        AppError,
    >)
        ensures
            final(self).paths == old(self).paths,
            final(self).album_schedules == old(self).album_schedules,
            final(self).album_sources == old(self).album_sources,
            match r {
                Ok(_) => {
                    &&& downloads_dir@.len() > 0 && archives_dir@.len() > 0
                    &&& final(self).directories.downloads_dir == downloads_dir
                    &&& final(self).directories.archives_dir == archives_dir
                },
                Err(e) => {
                    &&& downloads_dir@.len() == 0 || archives_dir@.len() == 0
                    &&& e.rejects("Directory paths must not be empty"@)
                    &&& final(self).directories == old(self).directories
                },
            },
    {
        AppConfig::check_directories(downloads_dir.as_str(), archives_dir.as_str())?;
        self.directories.downloads_dir = downloads_dir;
        self.directories.archives_dir = archives_dir;
        Ok(())
    }

    /// The schedule of an album: the first one listed for it.
    pub fn schedule_for_album(&self, album: &str) -> (r: Option<AlbumSchedule>)
        ensures
            (match r {
                Some(s) => Some(s@),
                None => None,
            }) == schedule_of(views(self.album_schedules@), album@),
    {
        match find_schedule(&self.album_schedules, album) {
            Some(i) => Some(self.album_schedules[i].clone()),
            None => None,
        }
    }

    /// Puts a schedule in place of the one its album has, or adds it.
    pub fn upsert_schedule(&mut self, schedule: AlbumSchedule)
        ensures
            views(final(self).album_schedules@) == with_schedule(
                views(old(self).album_schedules@),
                schedule@,
            ),
            final(self).paths == old(self).paths,
            final(self).directories == old(self).directories,
            final(self).album_sources == old(self).album_sources,
    {
        put_schedule(&mut self.album_schedules, schedule);
    }

    /// Removes the schedules of an album.
    pub fn clear_schedule(&mut self, album: &str)
        ensures
            views(final(self).album_schedules@) == without_album(
                views(old(self).album_schedules@),
                album@,
            ),
            final(self).paths == old(self).paths,
            final(self).directories == old(self).directories,
            final(self).album_sources == old(self).album_sources,
    {
        drop_schedules(&mut self.album_schedules, album);
    }

    /// Records that the schedule of an album ran.
    pub fn mark_schedule_run(&mut self, album: &str, ts: Timestamp)
        ensures
            views(final(self).album_schedules@) == with_run(
                views(old(self).album_schedules@),
                album@,
                ts.secs(),
            ),
            final(self).paths == old(self).paths,
            final(self).directories == old(self).directories,
            final(self).album_sources == old(self).album_sources,
    {
        record_run(&mut self.album_schedules, album, ts.seconds());
    }

    /// The playlist that an album was last downloaded from.
    pub fn album_playlist_url(&self, album: &str) -> (r: Option<String>)
        ensures
            match r {
                Some(url) => self.album_sources@.contains_key(album@) && url@
                    == self.album_sources@[album@],
                None => !self.album_sources@.contains_key(album@),
            },
    {
        self.album_sources.get(album)
    }

    /// Records the playlist that an album was downloaded from.
    pub fn set_album_playlist(&mut self, album: String, playlist_url: String)
        ensures
            final(self).album_sources@ == old(self).album_sources@.insert(album@, playlist_url@),
            final(self).paths == old(self).paths,
            final(self).directories == old(self).directories,
            final(self).album_schedules == old(self).album_schedules,
    {
        self.album_sources.insert(album, playlist_url);
    }
}

/// What a user enters to change the directories.
#[derive(Debug)]
pub struct DirectoryForm {
    pub downloads_dir: String,
    pub archives_dir: String,
}

/// The directories that the settings form asks for.
pub fn directories_from_form(form: &DirectoryForm) -> (r: Result<DirectoryConfig, AppError>)
    ensures
        match r {
            Ok(directories) => {
                &&& directories.downloads_dir@ == trimmed(form.downloads_dir@)
                &&& directories.archives_dir@ == trimmed(form.archives_dir@)
                &&& directories.downloads_dir@.len() > 0
                &&& directories.archives_dir@.len() > 0
            },
            Err(e) => if trimmed(form.downloads_dir@).len() == 0 {
                e.rejects("Downloads directory"@ + " cannot be empty"@)
            } else {
                trimmed(form.archives_dir@).len() == 0 && e.rejects(
                    "Archive directory"@ + " cannot be empty"@,
                )
            },
        },
{
    let downloads_dir = parse_directory_path(form.downloads_dir.as_str(), "Downloads directory")?;
    let archives_dir = parse_directory_path(form.archives_dir.as_str(), "Archive directory")?;
    Ok(DirectoryConfig { downloads_dir, archives_dir })
}

/// The contents of a directory configuration are its fields.
pub proof fn law_contents_of_directories(directories: DirectoryConfig)
    ensures
        directories@.downloads_dir == directories.downloads_dir@,
        directories@.archives_dir == directories.archives_dir@,
{
}

/// A setting is its value where one is given, whatever the default, and else the default.
pub proof fn law_given_settings_come_first(value: String, default: Seq<char>)
    ensures
        given_or(Some(value), default) == value@,
        given_or(None, default) == default,
{
}

/// The directories that were stored are taken as they are; without any, they are two folders
/// of the data directory.
pub proof fn law_stored_directories_are_taken(data_dir: Seq<char>, stored: DirectoryConfig)
    ensures
        stored_directories(data_dir, Some(stored)).downloads_dir == stored.downloads_dir@,
        stored_directories(data_dir, Some(stored)).archives_dir == stored.archives_dir@,
        stored_directories(data_dir, None).downloads_dir == path_join(data_dir, "downloads"@),
        stored_directories(data_dir, None).archives_dir == path_join(data_dir, "archives"@),
{
}

} // verus!
