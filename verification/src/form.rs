//! The download form: what a user, or a schedule, asks `yt-dlp` to do.

use vstd::prelude::*;

use crate::text::{ascii_lowercase, ascii_lowered, same_text, trim, trimmed};

verus! {

/// A request for a download.
#[derive(Debug)]
pub struct DownloadForm {
    pub playlist_url: String,
    pub format: String,
    pub extractor_args: String,
    pub force_ipv4: bool,
    pub extract_audio: bool,
    pub audio_format: String,
    pub audio_quality: String,
    pub download_archive: String,
    pub ignore_errors: bool,
    pub embed_metadata: bool,
    pub embed_thumbnail: bool,
    pub add_metadata: bool,
    pub parse_metadata: String,
    pub output_template: String,
}

/// The contents of a download form.
#[verifier::ext_equal]
pub struct DownloadFormView {
    pub playlist_url: Seq<char>,
    pub format: Seq<char>,
    pub extractor_args: Seq<char>,
    pub force_ipv4: bool,
    pub extract_audio: bool,
    pub audio_format: Seq<char>,
    pub audio_quality: Seq<char>,
    pub download_archive: Seq<char>,
    pub ignore_errors: bool,
    pub embed_metadata: bool,
    pub embed_thumbnail: bool,
    pub add_metadata: bool,
    pub parse_metadata: Seq<char>,
    pub output_template: Seq<char>,
}

impl View for DownloadForm {
    type V = DownloadFormView;

    open spec fn view(&self) -> DownloadFormView {
        DownloadFormView {
            playlist_url: self.playlist_url@,
            format: self.format@,
            extractor_args: self.extractor_args@,
            force_ipv4: self.force_ipv4,
            extract_audio: self.extract_audio,
            audio_format: self.audio_format@,
            audio_quality: self.audio_quality@,
            download_archive: self.download_archive@,
            ignore_errors: self.ignore_errors,
            embed_metadata: self.embed_metadata,
            embed_thumbnail: self.embed_thumbnail,
            add_metadata: self.add_metadata,
            parse_metadata: self.parse_metadata@,
            output_template: self.output_template@,
        }
    }
}

impl Clone for DownloadForm {
    fn clone(&self) -> (r: DownloadForm)
        ensures
            r == *self,
    {
        DownloadForm {
            playlist_url: self.playlist_url.clone(),
            format: self.format.clone(),
            extractor_args: self.extractor_args.clone(),
            force_ipv4: self.force_ipv4,
            extract_audio: self.extract_audio,
            audio_format: self.audio_format.clone(),
            audio_quality: self.audio_quality.clone(),
            download_archive: self.download_archive.clone(),
            ignore_errors: self.ignore_errors,
            embed_metadata: self.embed_metadata,
            embed_thumbnail: self.embed_thumbnail,
            add_metadata: self.add_metadata,
            parse_metadata: self.parse_metadata.clone(),
            output_template: self.output_template.clone(),
        }
    }
}

impl DownloadFormView {
    /// The form as it is first shown.
    pub open spec fn initial() -> DownloadFormView {
        DownloadFormView {
            playlist_url: Seq::empty(),
            format: "bestaudio[ext=m4a]/bestaudio/best"@,
            extractor_args: "youtube:player_client=android"@,
            force_ipv4: true,
            extract_audio: true,
            audio_format: "mp3"@,
            audio_quality: "0"@,
            download_archive: "downloaded_%(playlist_title)s.txt"@,
            ignore_errors: true,
            embed_metadata: true,
            embed_thumbnail: true,
            add_metadata: true,
            parse_metadata: "playlist_title:%(album)s"@,
            output_template: "%(playlist_title)s/%(playlist_index)02d - %(title)s.%(ext)s"@,
        }
    }
}

impl Default for DownloadForm {
    fn default() -> (r: DownloadForm)
        ensures
            r@ == DownloadFormView::initial(),
    {
        DownloadForm {
            playlist_url: String::new(),
            format: "bestaudio[ext=m4a]/bestaudio/best".to_string(),
            extractor_args: "youtube:player_client=android".to_string(),
            force_ipv4: true,
            extract_audio: true,
            audio_format: "mp3".to_string(),
            audio_quality: "0".to_string(),
            download_archive: "downloaded_%(playlist_title)s.txt".to_string(),
            ignore_errors: true,
            embed_metadata: true,
            embed_thumbnail: true,
            add_metadata: true,
            parse_metadata: "playlist_title:%(album)s".to_string(),
            output_template: "%(playlist_title)s/%(playlist_index)02d - %(title)s.%(ext)s".to_string(),
        }
    }
}

/// Whether the value that a check box was sent with, without the white space around
/// it and in lower case, is one of the words for a ticked box.
pub open spec fn ticked(raw: Seq<char>) -> bool {
    let word = ascii_lowered(trimmed(raw));
    word == "true"@ || word == "1"@ || word == "yes"@ || word == "on"@
}

/// Whether a check box is ticked: a box that was not sent is not.
pub fn checkbox_bool(value: Option<&str>) -> (r: bool)
    ensures
        r == (value matches Some(raw) && ticked(raw@)),
{
    match value {
        Some(raw) => {
            let word = ascii_lowercase(trim(raw));
            same_text(word.as_str(), "true") || same_text(word.as_str(), "1") || same_text(
                word.as_str(),
                "yes",
            ) || same_text(word.as_str(), "on")
        },
        None => false,
    }
}

/// The contents of a download form are its fields.
pub proof fn law_contents_of_a_form(form: DownloadForm)
    ensures
        form@.playlist_url == form.playlist_url@,
        form@.format == form.format@,
        form@.extractor_args == form.extractor_args@,
        form@.force_ipv4 == form.force_ipv4,
        form@.extract_audio == form.extract_audio,
        form@.audio_format == form.audio_format@,
        form@.audio_quality == form.audio_quality@,
        form@.download_archive == form.download_archive@,
        form@.ignore_errors == form.ignore_errors,
        form@.embed_metadata == form.embed_metadata,
        form@.embed_thumbnail == form.embed_thumbnail,
        form@.add_metadata == form.add_metadata,
        form@.parse_metadata == form.parse_metadata@,
        form@.output_template == form.output_template@,
{
}

/// A box is ticked by four words, in whatever case and with whatever white space around them,
/// and by no other text.
pub proof fn law_words_that_tick_a_box(raw: Seq<char>, other: Seq<char>)
    ensures
        ascii_lowered(trimmed(raw)) == ascii_lowered(trimmed(other)) ==> ticked(raw) == ticked(
            other,
        ),
        ticked(raw) <==> {
            ||| ascii_lowered(trimmed(raw)) == "true"@
            ||| ascii_lowered(trimmed(raw)) == "1"@
            ||| ascii_lowered(trimmed(raw)) == "yes"@
            ||| ascii_lowered(trimmed(raw)) == "on"@
        },
{
}

/// The form as it is first shown names no playlist, has every box ticked, and asks for the
/// best audio as an MP3 file, kept in a folder for the playlist.
pub proof fn law_initial_form()
    ensures
        ({
            let form = DownloadFormView::initial();
            &&& form.playlist_url.len() == 0
            &&& form.force_ipv4 && form.extract_audio && form.ignore_errors
            &&& form.embed_metadata && form.embed_thumbnail && form.add_metadata
            &&& form.format == "bestaudio[ext=m4a]/bestaudio/best"@
            &&& form.extractor_args == "youtube:player_client=android"@
            &&& form.audio_format == "mp3"@
            &&& form.audio_quality == "0"@
            &&& form.download_archive == "downloaded_%(playlist_title)s.txt"@
            &&& form.parse_metadata == "playlist_title:%(album)s"@
            &&& form.output_template
                == "%(playlist_title)s/%(playlist_index)02d - %(title)s.%(ext)s"@
        }),
{
}

} // verus!
