//! The `yt-dlp` command lines: the one that downloads, the preview of it that a job
//! shows, and the one that asks for the title of a playlist.

use vstd::prelude::*;
use vstd::utf8::{decode_utf8, valid_utf8};

use crate::config::{DirectoryConfig, DirectoryConfigView};
use crate::form::{DownloadForm, DownloadFormView};
use crate::paths::{
    absolute, has_separator, is_separator, join_path, law_relative_path_lies_under,
    law_sanitized_name_is_plain, lies_under, path_join, sanitize_file_name, sanitized_name,
};
use crate::text::{
    contains, contents, is_white_space, join, joined, law_first_occurrence_is_replaced,
    law_occurrence_splits_the_text, law_trimmed_keeps_the_middle, occurs, occurs_at,
    optional_text, replace, replaced, split, split_on, trim, trimmed,
};

verus! {

/// What stands for the title of the playlist in an archive name.
pub const TITLE_PLACEHOLDER: &'static str = "%(playlist_title)s";

/// Whether a text has nothing but white space.
pub open spec fn blank(s: Seq<char>) -> bool {
    trimmed(s).len() == 0
}

/// The argument `name` where `given` holds, else none.
pub open spec fn flag(given: bool, name: Seq<char>) -> Seq<Seq<char>> {
    if given {
        seq![name]
    } else {
        Seq::empty()
    }
}

/// The arguments `name` and `value` where `given` holds, else none.
pub open spec fn option(given: bool, name: Seq<char>, value: Seq<char>) -> Seq<Seq<char>> {
    if given {
        seq![name, value]
    } else {
        Seq::empty()
    }
}

/// The arguments that turn a video into an audio file.
pub open spec fn audio_arguments(form: DownloadFormView) -> Seq<Seq<char>> {
    if form.extract_audio {
        seq![
            "-x"@,
            "--audio-format"@,
            form.audio_format,
            "--audio-quality"@,
            form.audio_quality,
        ]
    } else {
        Seq::empty()
    }
}

/// The arguments that follow the choice of format, with `archive` as the name of the
/// download archive.
pub open spec fn common_arguments(
    form: DownloadFormView,
    directories: DirectoryConfigView,
    archive: Seq<char>,
) -> Seq<Seq<char>> {
    option(!blank(form.extractor_args), "--extractor-args"@, form.extractor_args) + flag(
        form.force_ipv4,
        "--force-ipv4"@,
    ) + audio_arguments(form) + option(
        !blank(archive),
        "--download-archive"@,
        path_join(directories.archives_dir, sanitized_name(archive)),
    ) + flag(form.ignore_errors, "--ignore-errors"@) + flag(
        form.embed_metadata,
        "--embed-metadata"@,
    ) + flag(form.embed_thumbnail, "--embed-thumbnail"@) + flag(
        form.add_metadata,
        "--add-metadata"@,
    ) + option(!blank(form.parse_metadata), "--parse-metadata"@, form.parse_metadata) + seq![
        "-o"@,
        path_join(directories.downloads_dir, form.output_template),
        form.playlist_url,
    ]
}

/// The name of the download archive: the template with the title of the playlist, made
/// safe as a file name, in the places kept for it. Without a title the template stands.
pub open spec fn resolved_archive(template: Seq<char>, title: Option<Seq<char>>) -> Seq<char> {
    if blank(template) || !occurs(template, TITLE_PLACEHOLDER@) {
        template
    } else {
        match title {
            Some(t) => replaced(template, TITLE_PLACEHOLDER@, sanitized_name(trimmed(t))),
            None => template,
        }
    }
}

/// The arguments of the command that downloads.
pub open spec fn download_arguments(
    form: DownloadFormView,
    directories: DirectoryConfigView,
    title: Option<Seq<char>>,
) -> Seq<Seq<char>> {
    seq!["-f"@, form.format, "--force-overwrites"@] + common_arguments(
        form,
        directories,
        resolved_archive(form.download_archive, title),
    )
}

/// The words of the command that a job shows.
pub open spec fn preview_words(
    form: DownloadFormView,
    yt_dlp_path: Seq<char>,
    directories: DirectoryConfigView,
) -> Seq<Seq<char>> {
    seq![yt_dlp_path, "-f"@, form.format] + common_arguments(
        form,
        directories,
        form.download_archive,
    )
}

/// Whether a text has nothing but white space.
pub fn is_blank(s: &str) -> (r: bool)
    ensures
        r == blank(s@),
{
    trim(s).is_empty()
}

/// Appends one word.
fn push_word(words: &mut Vec<String>, word: &str)
    ensures
        contents(final(words)@) == contents(old(words)@).push(word@),
{
    let ghost before = contents(words@);
    words.push(word.to_string());
    assert(contents(words@) == before.push(word@));
}

/// Appends `name` where `given` holds.
fn push_flag(words: &mut Vec<String>, given: bool, name: &str)
    ensures
        contents(final(words)@) == contents(old(words)@) + flag(given, name@),
{
    if given {
        push_word(words, name);
    }
}

/// Appends `name` and `value` where `given` holds.
fn push_option(words: &mut Vec<String>, given: bool, name: &str, value: &str)
    ensures
        contents(final(words)@) == contents(old(words)@) + option(given, name@, value@),
{
    if given {
        push_word(words, name);
        push_word(words, value);
    }
}

/// Appends the arguments that turn a video into an audio file.
fn push_audio(words: &mut Vec<String>, form: &DownloadForm)
    ensures
        contents(final(words)@) == contents(old(words)@) + audio_arguments(form@),
{
    if form.extract_audio {
        push_word(words, "-x");
        push_word(words, "--audio-format");
        push_word(words, form.audio_format.as_str());
        push_word(words, "--audio-quality");
        push_word(words, form.audio_quality.as_str());
    }
}

/// Appends the output file and the address of the playlist.
fn push_target(words: &mut Vec<String>, form: &DownloadForm, directories: &DirectoryConfig)
    ensures
        contents(final(words)@) == contents(old(words)@) + seq![
            "-o"@,
            path_join(directories@.downloads_dir, form@.output_template),
            form@.playlist_url,
        ],
{
    let output_path = join_path(directories.downloads_dir.as_str(), form.output_template.as_str());
    push_word(words, "-o");
    push_word(words, output_path.as_str());
    push_word(words, form.playlist_url.as_str());
}

/// The arguments that follow the choice of format.
#[verifier::spinoff_prover]
#[verifier::rlimit(40)]
fn common_words(form: &DownloadForm, directories: &DirectoryConfig, archive: &str) -> (r: Vec<
    String,
>)
    ensures
        contents(r@) == common_arguments(form@, directories@, archive@),
{
    let mut words: Vec<String> = Vec::new();
    push_option(
        &mut words,
        !is_blank(form.extractor_args.as_str()),
        "--extractor-args",
        form.extractor_args.as_str(),
    );
    assert(contents(words@) == option(
        !blank(form@.extractor_args),
        "--extractor-args"@,
        form@.extractor_args,
    ));
    push_flag(&mut words, form.force_ipv4, "--force-ipv4");
    push_audio(&mut words, form);
    let archive_name = sanitize_file_name(archive);
    let archive_path = join_path(directories.archives_dir.as_str(), archive_name.as_str());
    push_option(&mut words, !is_blank(archive), "--download-archive", archive_path.as_str());
    push_flag(&mut words, form.ignore_errors, "--ignore-errors");
    push_flag(&mut words, form.embed_metadata, "--embed-metadata");
    push_flag(&mut words, form.embed_thumbnail, "--embed-thumbnail");
    push_flag(&mut words, form.add_metadata, "--add-metadata");
    push_option(
        &mut words,
        !is_blank(form.parse_metadata.as_str()),
        "--parse-metadata",
        form.parse_metadata.as_str(),
    );
    push_target(&mut words, form, directories);
    words
}

/// Appends the words of `more`.
fn push_all(words: &mut Vec<String>, more: Vec<String>)
    ensures
        contents(final(words)@) == contents(old(words)@) + contents(more@),
{
    let mut more = more;
    let ghost before = contents(words@);
    let ghost added = contents(more@);
    words.append(&mut more);
    assert(contents(words@) == before + added);
}

/// The title as a sequence of characters.
pub open spec fn title_view(title: Option<&str>) -> Option<Seq<char>> {
    match title {
        Some(t) => Some(t@),
        None => None,
    }
}

/// The name of the download archive that a template and a playlist title give.
pub fn resolve_download_archive_name(template: &str, playlist_title: Option<&str>) -> (r: String)
    ensures
        r@ == resolved_archive(template@, title_view(playlist_title)),
{
    if is_blank(template) || !contains(template, TITLE_PLACEHOLDER) {
        return template.to_string();
    }
    match playlist_title {
        Some(title) => {
            let safe_title = sanitize_file_name(trim(title));
            proof {
                reveal_strlit("%(playlist_title)s");
            }
            replace(template, TITLE_PLACEHOLDER, safe_title.as_str())
        },
        None => template.to_string(),
    }
}

/// The arguments of the command that downloads.
pub fn download_command(
    form: &DownloadForm,
    directories: &DirectoryConfig,
    playlist_title: Option<&str>,
) -> (r: Vec<String>)
    ensures
        contents(r@) == download_arguments(form@, directories@, title_view(playlist_title)),
{
    let archive = resolve_download_archive_name(form.download_archive.as_str(), playlist_title);
    let mut words: Vec<String> = Vec::new();
    push_word(&mut words, "-f");
    push_word(&mut words, form.format.as_str());
    push_word(&mut words, "--force-overwrites");
    assert(contents(words@) == seq!["-f"@, form.format@, "--force-overwrites"@]);
    push_all(&mut words, common_words(form, directories, archive.as_str()));
    words
}

/// The command line that a job shows: the words of the command, separated by spaces.
pub fn build_command_preview(
    form: &DownloadForm,
    yt_dlp_path: &str,
    directories: &DirectoryConfig,
) -> (r: String)
    ensures
        r@ == joined(preview_words(form@, yt_dlp_path@, directories@), " "@),
{
    let mut words: Vec<String> = Vec::new();
    push_word(&mut words, yt_dlp_path);
    push_word(&mut words, "-f");
    push_word(&mut words, form.format.as_str());
    assert(contents(words@) == seq![yt_dlp_path@, "-f"@, form.format@]);
    push_all(&mut words, common_words(form, directories, form.download_archive.as_str()));
    join(&words, " ")
}

/// The preview of a job is the command that downloads.
///
/// For every title of the playlist, the preview of the form with its archive name resolved
/// is the program followed by the arguments of the command, without the one that overwrites
/// files. Where the archive name needs no title that is the preview of the form itself.
#[verifier::spinoff_prover]
#[verifier::rlimit(40)]
pub proof fn law_preview_shows_command(
    form: DownloadFormView,
    yt_dlp_path: Seq<char>,
    directories: DirectoryConfigView,
    title: Option<Seq<char>>,
)
    ensures
        ({
            let archive = resolved_archive(form.download_archive, title);
            let resolved = DownloadFormView { download_archive: archive, ..form };
            &&& preview_words(resolved, yt_dlp_path, directories) == seq![yt_dlp_path]
                + download_arguments(form, directories, title).remove(2)
            &&& archive == form.download_archive ==> preview_words(form, yt_dlp_path, directories)
                == seq![yt_dlp_path] + download_arguments(form, directories, title).remove(2)
        }),
{
    let archive = resolved_archive(form.download_archive, title);
    let rest = common_arguments(form, directories, archive);
    let resolved = DownloadFormView { download_archive: archive, ..form };
    assert(common_arguments(resolved, directories, archive) == rest) by {
        }
    assert(preview_words(resolved, yt_dlp_path, directories) == seq![yt_dlp_path] + (seq![
        "-f"@,
        form.format,
        "--force-overwrites"@,
    ] + rest).remove(2));
}

/// The archive path that is handed to `yt-dlp` is one that `validate_archive` gives.
///
/// Whatever name a form and a title give, its sanitized form is a name that
/// `validate_archive` accepts, and the path for it has the steps of the archive folder as its
/// first steps. Unless the name is blank that path follows `--download-archive` in the
/// command.
#[verifier::spinoff_prover]
#[verifier::rlimit(40)]
pub proof fn law_archive_path_is_accepted(
    form: DownloadFormView,
    directories: DirectoryConfigView,
    title: Option<Seq<char>>,
)
    ensures
        ({
            let archive = resolved_archive(form.download_archive, title);
            let name = sanitized_name(archive);
            let path = path_join(directories.archives_dir, name);
            let words = download_arguments(form, directories, title);
            &&& !has_separator(name)
            &&& lies_under(path, directories.archives_dir)
            &&& !blank(archive) ==> exists|i: int|
                0 <= i < words.len() - 1 && #[trigger] words[i] == "--download-archive"@ && words[i
                    + 1] == path
        }),
{
    let archive = resolved_archive(form.download_archive, title);
    let name = sanitized_name(archive);
    let words = download_arguments(form, directories, title);
    law_sanitized_name_is_plain(archive);
    assert(!absolute(name)) by {
        if absolute(name) {
            assert(is_separator(name[0]));
        }
    }
    law_relative_path_lies_under(directories.archives_dir, name);
    if !blank(archive) {
        law_values_reach_the_command(form, directories, title);
    }
}

/// The output path that is handed to `yt-dlp` begins with the downloads folder.
///
/// The command ends with `-o`, the output path and the playlist. The steps of the downloads
/// folder are the first steps of the output path wherever the form names the output by a
/// relative path, as the initial form does.
#[verifier::spinoff_prover]
#[verifier::rlimit(40)]
pub proof fn law_output_path_lies_under_downloads(
    form: DownloadFormView,
    directories: DirectoryConfigView,
    title: Option<Seq<char>>,
)
    ensures
        ({
            let words = download_arguments(form, directories, title);
            let n = words.len() as int;
            &&& n >= 3
            &&& words[n - 3] == "-o"@
            &&& words[n - 2] == path_join(directories.downloads_dir, form.output_template)
            &&& words[n - 1] == form.playlist_url
            &&& !absolute(form.output_template) ==> lies_under(
                words[n - 2],
                directories.downloads_dir,
            )
        }),
        !absolute(DownloadFormView::initial().output_template),
{
    reveal_strlit("%(playlist_title)s/%(playlist_index)02d - %(title)s.%(ext)s");
    lemma_end_of_settings(
        form,
        directories,
        resolved_archive(form.download_archive, title),
    );
    if !absolute(form.output_template) {
        law_relative_path_lies_under(directories.downloads_dir, form.output_template);
    }
}

/// The arguments of the command that prints the title of a playlist.
pub fn title_command(playlist_url: &str) -> (r: Vec<String>)
    ensures
        contents(r@) == seq![
            "--print"@,
            TITLE_PLACEHOLDER@,
            "--playlist-items"@,
            "1"@,
            playlist_url@,
        ],
{
    let mut words: Vec<String> = Vec::new();
    push_word(&mut words, "--print");
    push_word(&mut words, TITLE_PLACEHOLDER);
    push_word(&mut words, "--playlist-items");
    push_word(&mut words, "1");
    push_word(&mut words, playlist_url);
    assert(contents(words@) == seq![
        "--print"@,
        TITLE_PLACEHOLDER@,
        "--playlist-items"@,
        "1"@,
        playlist_url@,
    ]);
    words
}

/// The first line that is not blank, without the white space around it.
pub open spec fn first_text(lines: Seq<Seq<char>>) -> Option<Seq<char>>
    decreases lines.len(),
{
    if lines.len() == 0 {
        None
    } else if !blank(lines[0]) {
        Some(trimmed(lines[0]))
    } else {
        first_text(lines.skip(1))
    }
}

/// The title in what the title command printed.
pub fn title_in(output: &str) -> (r: Option<String>)
    ensures
        optional_text(r) == first_text(split_on(output@, '\n')),
{
    let lines = split(output, '\n');
    let mut i: usize = 0;
    assert(split_on(output@, '\n').skip(0) == split_on(output@, '\n'));
    while i < lines.len()
        invariant
            i <= lines.len(),
            contents(lines@) == split_on(output@, '\n'),
            first_text(split_on(output@, '\n')) == first_text(
                split_on(output@, '\n').skip(i as int),
            ),
        decreases lines.len() - i,
    {
        let ghost rest = split_on(output@, '\n').skip(i as int);
        assert(rest[0] == lines@[i as int]@);
        assert(rest.skip(1) == split_on(output@, '\n').skip(i + 1));
        let line = trim(lines[i].as_str());
        if !line.is_empty() {
            return Some(line.to_string());
        }
        i = i + 1;
    }
    None
}

/// What `String::from_utf8_lossy` makes of bytes.
pub uninterp spec fn utf8_lossy(bytes: Seq<u8>) -> Seq<char>;

/// `String::from_utf8_lossy` of std: bytes that are UTF-8 become the characters they
/// encode. What stands for other bytes is a function of the bytes, and is not
/// described further here.
#[verifier::external_body]
fn from_utf8_lossy(bytes: &[u8]) -> (r: String)
    ensures
        r@ == utf8_lossy(bytes@),
        valid_utf8(bytes@) ==> r@ == decode_utf8(bytes@),
{
    String::from_utf8_lossy(bytes).into_owned()
}

/// The title of a playlist, from how the title command ended and what it printed.
pub fn playlist_title(succeeded: bool, stdout: &[u8]) -> (r: Option<String>)
    ensures
        optional_text(r) == (if succeeded {
            first_text(split_on(utf8_lossy(stdout@), '\n'))
        } else {
            None
        }),
        succeeded && valid_utf8(stdout@) ==> optional_text(r) == first_text(
            split_on(decode_utf8(stdout@), '\n'),
        ),
{
    if !succeeded {
        return None;
    }
    let output = from_utf8_lossy(stdout);
    title_in(output.as_str())
}

/// Groups of words one behind the other.
spec fn groups_joined(groups: Seq<Seq<Seq<char>>>) -> Seq<Seq<char>>
    decreases groups.len(),
{
    if groups.len() == 0 {
        Seq::empty()
    } else {
        groups_joined(groups.drop_last()) + groups.last()
    }
}

/// One more group stands at the end.
proof fn lemma_group_added(groups: Seq<Seq<Seq<char>>>, group: Seq<Seq<char>>)
    ensures
        groups_joined(groups.push(group)) == groups_joined(groups) + group,
{
    assert(groups.push(group).drop_last() == groups);
}

/// Where a group stands among the joined groups.
proof fn lemma_place_of_group(groups: Seq<Seq<Seq<char>>>, k: int) -> (at: int)
    requires
        0 <= k < groups.len(),
    ensures
        0 <= at,
        at + groups[k].len() <= groups_joined(groups).len(),
        forall|i: int|
            0 <= i < groups[k].len() ==> groups_joined(groups)[at + i] == #[trigger] groups[k][i],
        k == groups.len() - 1 ==> at + groups[k].len() == groups_joined(groups).len(),
    decreases groups.len(),
{
    if k == groups.len() - 1 {
        groups_joined(groups.drop_last()).len() as int
    } else {
        let at = lemma_place_of_group(groups.drop_last(), k);
        assert(groups.drop_last()[k] == groups[k]);
        assert forall|i: int| 0 <= i < groups[k].len() implies groups_joined(groups)[at + i]
            == #[trigger] groups[k][i] by {
            assert(groups_joined(groups.drop_last())[at + i] == groups.drop_last()[k][i]);
        }
        at
    }
}

/// The groups of words behind the choice of format, one for each setting.
#[verifier::opaque]
spec fn settings_groups(
    form: DownloadFormView,
    directories: DirectoryConfigView,
    archive: Seq<char>,
) -> Seq<Seq<Seq<char>>> {
    Seq::empty().push(
        option(!blank(form.extractor_args), "--extractor-args"@, form.extractor_args),
    ).push(
        flag(form.force_ipv4, "--force-ipv4"@),
    ).push(
        audio_arguments(form),
    ).push(
        option(
            !blank(archive),
            "--download-archive"@,
            path_join(directories.archives_dir, sanitized_name(archive)),
        ),
    ).push(
        flag(form.ignore_errors, "--ignore-errors"@),
    ).push(
        flag(form.embed_metadata, "--embed-metadata"@),
    ).push(
        flag(form.embed_thumbnail, "--embed-thumbnail"@),
    ).push(
        flag(form.add_metadata, "--add-metadata"@),
    ).push(
        option(!blank(form.parse_metadata), "--parse-metadata"@, form.parse_metadata),
    ).push(
        seq!["-o"@, path_join(directories.downloads_dir, form.output_template), form.playlist_url],
    )
}

/// The words behind the choice of format are those of the groups, which are as many as the
/// groups have together.
#[verifier::spinoff_prover]
#[verifier::rlimit(40)]
proof fn lemma_words_of_groups(
    form: DownloadFormView,
    directories: DirectoryConfigView,
    archive: Seq<char>,
)
    ensures
        common_arguments(form, directories, archive) == groups_joined(
            settings_groups(form, directories, archive),
        ),
        settings_groups(form, directories, archive).len() == 10,
        common_arguments(form, directories, archive).len() == option(
            !blank(form.extractor_args),
            "--extractor-args"@,
            form.extractor_args,
        ).len() + flag(form.force_ipv4, "--force-ipv4"@).len() + audio_arguments(form).len()
            + option(
            !blank(archive),
            "--download-archive"@,
            path_join(directories.archives_dir, sanitized_name(archive)),
        ).len() + flag(form.ignore_errors, "--ignore-errors"@).len() + flag(
            form.embed_metadata,
            "--embed-metadata"@,
        ).len() + flag(form.embed_thumbnail, "--embed-thumbnail"@).len() + flag(
            form.add_metadata,
            "--add-metadata"@,
        ).len() + option(
            !blank(form.parse_metadata),
            "--parse-metadata"@,
            form.parse_metadata,
        ).len() + 3,
{
    reveal(settings_groups);
    let none = Seq::<Seq<Seq<char>>>::empty();
    let a = none.push(
        option(!blank(form.extractor_args), "--extractor-args"@, form.extractor_args),
    );
    lemma_group_added(
        none,
        option(!blank(form.extractor_args), "--extractor-args"@, form.extractor_args),
    );
    let b = a.push(
        flag(form.force_ipv4, "--force-ipv4"@),
    );
    lemma_group_added(
        a,
        flag(form.force_ipv4, "--force-ipv4"@),
    );
    let c = b.push(
        audio_arguments(form),
    );
    lemma_group_added(
        b,
        audio_arguments(form),
    );
    let d = c.push(
        option(
            !blank(archive),
            "--download-archive"@,
            path_join(directories.archives_dir, sanitized_name(archive)),
        ),
    );
    lemma_group_added(
        c,
        option(
            !blank(archive),
            "--download-archive"@,
            path_join(directories.archives_dir, sanitized_name(archive)),
        ),
    );
    let e = d.push(
        flag(form.ignore_errors, "--ignore-errors"@),
    );
    lemma_group_added(
        d,
        flag(form.ignore_errors, "--ignore-errors"@),
    );
    let f = e.push(
        flag(form.embed_metadata, "--embed-metadata"@),
    );
    lemma_group_added(
        e,
        flag(form.embed_metadata, "--embed-metadata"@),
    );
    let g = f.push(
        flag(form.embed_thumbnail, "--embed-thumbnail"@),
    );
    lemma_group_added(
        f,
        flag(form.embed_thumbnail, "--embed-thumbnail"@),
    );
    let h = g.push(
        flag(form.add_metadata, "--add-metadata"@),
    );
    lemma_group_added(
        g,
        flag(form.add_metadata, "--add-metadata"@),
    );
    let k = h.push(
        option(!blank(form.parse_metadata), "--parse-metadata"@, form.parse_metadata),
    );
    lemma_group_added(
        h,
        option(!blank(form.parse_metadata), "--parse-metadata"@, form.parse_metadata),
    );
    let l = k.push(
        seq!["-o"@, path_join(directories.downloads_dir, form.output_template), form.playlist_url],
    );
    lemma_group_added(
        k,
        seq!["-o"@, path_join(directories.downloads_dir, form.output_template), form.playlist_url],
    );
    let extractor = option(!blank(form.extractor_args), "--extractor-args"@, form.extractor_args);
    assert(groups_joined(none) + extractor == extractor);
}

/// Where the words of the group numbered `k` stand behind the choice of format.
proof fn lemma_place_of_setting(
    form: DownloadFormView,
    directories: DirectoryConfigView,
    archive: Seq<char>,
    k: int,
    group: Seq<Seq<char>>,
) -> (at: int)
    requires
        0 <= k < 10,
        settings_groups(form, directories, archive)[k] == group,
    ensures
        0 <= at,
        at + group.len() <= common_arguments(form, directories, archive).len(),
        forall|i: int|
            0 <= i < group.len() ==> common_arguments(form, directories, archive)[at + i]
                == #[trigger] group[i],
        k == 9 ==> at + group.len() == common_arguments(form, directories, archive).len(),
{
    lemma_words_of_groups(form, directories, archive);
    lemma_place_of_group(settings_groups(form, directories, archive), k)
}

/// The words behind the choice of format end with the output and the playlist.
proof fn lemma_end_of_settings(
    form: DownloadFormView,
    directories: DirectoryConfigView,
    archive: Seq<char>,
)
    ensures
        ({
            let words = common_arguments(form, directories, archive);
            let n = words.len() as int;
            &&& n >= 3
            &&& words[n - 3] == "-o"@
            &&& words[n - 2] == path_join(directories.downloads_dir, form.output_template)
            &&& words[n - 1] == form.playlist_url
        }),
{
    let group = seq![
        "-o"@,
        path_join(directories.downloads_dir, form.output_template),
        form.playlist_url,
    ];
    assert(settings_groups(form, directories, archive)[9] == group) by {
        reveal(settings_groups);
    }
    let at = lemma_place_of_setting(form, directories, archive, 9, group);
    let words = common_arguments(form, directories, archive);
    assert(words[at + 0] == group[0]);
    assert(words[at + 1] == group[1]);
    assert(words[at + 2] == group[2]);
}

/// The first and the last words of two rows of words, one behind the other.
proof fn lemma_ends_of_sum(head: Seq<Seq<char>>, rest: Seq<Seq<char>>)
    ensures
        (head + rest).len() == head.len() + rest.len(),
        head.len() == 3 ==> (head + rest)[0] == head[0] && (head + rest)[1] == head[1] && (head
            + rest)[2] == head[2],
        rest.len() >= 3 ==> {
            let words = head + rest;
            let n = words.len() as int;
            &&& words[n - 3] == rest[rest.len() - 3]
            &&& words[n - 2] == rest[rest.len() - 2]
            &&& words[n - 1] == rest[rest.len() - 1]
        },
{
}

/// The words behind the choice of format hold a value behind its option, where the option is
/// given.
proof fn lemma_value_of_setting(
    form: DownloadFormView,
    directories: DirectoryConfigView,
    archive: Seq<char>,
    k: int,
    name: Seq<char>,
    value: Seq<char>,
) -> (at: int)
    requires
        0 <= k < 10,
        settings_groups(form, directories, archive)[k] == seq![name, value],
    ensures
        0 <= at < common_arguments(form, directories, archive).len() - 1,
        common_arguments(form, directories, archive)[at] == name,
        common_arguments(form, directories, archive)[at + 1] == value,
{
    let group = seq![name, value];
    let at = lemma_place_of_setting(form, directories, archive, k, group);
    assert(common_arguments(form, directories, archive)[at + 0] == group[0]);
    assert(common_arguments(form, directories, archive)[at + 1] == group[1]);
    at
}

/// The words behind the choice of format hold the option of a box that is ticked.
proof fn lemma_box_of_setting(
    form: DownloadFormView,
    directories: DirectoryConfigView,
    archive: Seq<char>,
    k: int,
    name: Seq<char>,
) -> (at: int)
    requires
        0 <= k < 10,
        settings_groups(form, directories, archive)[k] == seq![name],
    ensures
        0 <= at < common_arguments(form, directories, archive).len(),
        common_arguments(form, directories, archive)[at] == name,
{
    let group = seq![name];
    let at = lemma_place_of_setting(form, directories, archive, k, group);
    assert(common_arguments(form, directories, archive)[at + 0] == group[0]);
    at
}

/// Audio is extracted as the form says: where that is asked for, the command holds `-x`, and
/// the audio format and the audio quality of the form, whatever they are, follow the options
/// that they belong to.
#[verifier::spinoff_prover]
#[verifier::rlimit(40)]
pub proof fn law_audio_settings_reach_the_command(
    form: DownloadFormView,
    directories: DirectoryConfigView,
    title: Option<Seq<char>>,
)
    ensures
        ({
            let words = download_arguments(form, directories, title);
            &&& form.extract_audio ==> words.contains("-x"@)
            &&& form.extract_audio ==> exists|i: int|
                0 <= i < words.len() - 1 && #[trigger] words[i] == "--audio-format"@ && words[i + 1]
                    == form.audio_format
            &&& form.extract_audio ==> exists|i: int|
                0 <= i < words.len() - 1 && #[trigger] words[i] == "--audio-quality"@ && words[i + 1]
                    == form.audio_quality
        }),
{
    let archive = resolved_archive(form.download_archive, title);
    let rest = common_arguments(form, directories, archive);
    let words = download_arguments(form, directories, title);
    assert(words == seq!["-f"@, form.format, "--force-overwrites"@] + rest);
    if form.extract_audio {
        let group = seq![
            "-x"@,
            "--audio-format"@,
            form.audio_format,
            "--audio-quality"@,
            form.audio_quality,
        ];
        assert(settings_groups(form, directories, archive)[2] == group) by {
            reveal(settings_groups);
        }
        let at = lemma_place_of_setting(form, directories, archive, 2, group);
        assert(rest[at + 0] == group[0]);
        assert(rest[at + 1] == group[1]);
        assert(rest[at + 2] == group[2]);
        assert(rest[at + 3] == group[3]);
        assert(rest[at + 4] == group[4]);
        assert(words[3 + at] == "-x"@);
        assert(words[3 + at + 1] == "--audio-format"@ && words[3 + at + 1 + 1]
            == form.audio_format);
        assert(words[3 + at + 3] == "--audio-quality"@ && words[3 + at + 3 + 1]
            == form.audio_quality);
    }
}

/// The extractor arguments, the metadata to parse and the archive reach the command: each
/// that is given, whatever it is, follows the option that it belongs to.
#[verifier::spinoff_prover]
#[verifier::rlimit(40)]
pub proof fn law_values_reach_the_command(
    form: DownloadFormView,
    directories: DirectoryConfigView,
    title: Option<Seq<char>>,
)
    ensures
        ({
            let archive = resolved_archive(form.download_archive, title);
            let words = download_arguments(form, directories, title);
            &&& !blank(form.extractor_args) ==> exists|i: int|
                0 <= i < words.len() - 1 && #[trigger] words[i] == "--extractor-args"@ && words[i + 1]
                    == form.extractor_args
            &&& !blank(archive) ==> exists|i: int|
                0 <= i < words.len() - 1 && #[trigger] words[i] == "--download-archive"@ && words[i + 1]
                    == path_join(directories.archives_dir, sanitized_name(archive))
            &&& !blank(form.parse_metadata) ==> exists|i: int|
                0 <= i < words.len() - 1 && #[trigger] words[i] == "--parse-metadata"@ && words[i + 1]
                    == form.parse_metadata
        }),
{
    let archive = resolved_archive(form.download_archive, title);
    let rest = common_arguments(form, directories, archive);
    let words = download_arguments(form, directories, title);
    assert(words == seq!["-f"@, form.format, "--force-overwrites"@] + rest);
    if !blank(form.extractor_args) {
        assert(settings_groups(form, directories, archive)[0] == seq![
            "--extractor-args"@,
            form.extractor_args,
        ]) by {
            reveal(settings_groups);
        }
        let at = lemma_value_of_setting(
            form,
            directories,
            archive,
            0,
            "--extractor-args"@,
            form.extractor_args,
        );
        assert(words[3 + at] == rest[at]);
        assert(words[3 + at + 1] == rest[at + 1]);
    }
    if !blank(archive) {
        assert(settings_groups(form, directories, archive)[3] == seq![
            "--download-archive"@,
            path_join(directories.archives_dir, sanitized_name(archive)),
        ]) by {
            reveal(settings_groups);
        }
        let at = lemma_value_of_setting(
            form,
            directories,
            archive,
            3,
            "--download-archive"@,
            path_join(directories.archives_dir, sanitized_name(archive)),
        );
        assert(words[3 + at] == rest[at]);
        assert(words[3 + at + 1] == rest[at + 1]);
    }
    if !blank(form.parse_metadata) {
        assert(settings_groups(form, directories, archive)[8] == seq![
            "--parse-metadata"@,
            form.parse_metadata,
        ]) by {
            reveal(settings_groups);
        }
        let at = lemma_value_of_setting(
            form,
            directories,
            archive,
            8,
            "--parse-metadata"@,
            form.parse_metadata,
        );
        assert(words[3 + at] == rest[at]);
        assert(words[3 + at + 1] == rest[at + 1]);
    }
}

/// Each box that is ticked adds its option to the command.
#[verifier::spinoff_prover]
#[verifier::rlimit(40)]
pub proof fn law_boxes_reach_the_command(
    form: DownloadFormView,
    directories: DirectoryConfigView,
    title: Option<Seq<char>>,
)
    ensures
        ({
            let words = download_arguments(form, directories, title);
            &&& form.force_ipv4 ==> words.contains("--force-ipv4"@)
            &&& form.ignore_errors ==> words.contains("--ignore-errors"@)
            &&& form.embed_metadata ==> words.contains("--embed-metadata"@)
            &&& form.embed_thumbnail ==> words.contains("--embed-thumbnail"@)
            &&& form.add_metadata ==> words.contains("--add-metadata"@)
        }),
{
    let archive = resolved_archive(form.download_archive, title);
    let rest = common_arguments(form, directories, archive);
    let words = download_arguments(form, directories, title);
    assert(words == seq!["-f"@, form.format, "--force-overwrites"@] + rest);
    if form.force_ipv4 {
        assert(settings_groups(form, directories, archive)[1] == seq!["--force-ipv4"@]) by {
            reveal(settings_groups);
        }
        let at = lemma_box_of_setting(form, directories, archive, 1, "--force-ipv4"@);
        assert(words[3 + at] == rest[at]);
    }
    if form.ignore_errors {
        assert(settings_groups(form, directories, archive)[4] == seq!["--ignore-errors"@]) by {
            reveal(settings_groups);
        }
        let at = lemma_box_of_setting(form, directories, archive, 4, "--ignore-errors"@);
        assert(words[3 + at] == rest[at]);
    }
    if form.embed_metadata {
        assert(settings_groups(form, directories, archive)[5] == seq!["--embed-metadata"@]) by {
            reveal(settings_groups);
        }
        let at = lemma_box_of_setting(form, directories, archive, 5, "--embed-metadata"@);
        assert(words[3 + at] == rest[at]);
    }
    if form.embed_thumbnail {
        assert(settings_groups(form, directories, archive)[6] == seq!["--embed-thumbnail"@]) by {
            reveal(settings_groups);
        }
        let at = lemma_box_of_setting(form, directories, archive, 6, "--embed-thumbnail"@);
        assert(words[3 + at] == rest[at]);
    }
    if form.add_metadata {
        assert(settings_groups(form, directories, archive)[7] == seq!["--add-metadata"@]) by {
            reveal(settings_groups);
        }
        let at = lemma_box_of_setting(form, directories, archive, 7, "--add-metadata"@);
        assert(words[3 + at] == rest[at]);
    }
}

/// The command begins with the choice of format and ends with the output and the playlist.
pub proof fn law_ends_of_the_command(
    form: DownloadFormView,
    directories: DirectoryConfigView,
    title: Option<Seq<char>>,
)
    ensures
        ({
            let words = download_arguments(form, directories, title);
            &&& words.len() >= 6
            &&& words[0] == "-f"@ && words[1] == form.format && words[2]
                == "--force-overwrites"@
            &&& words[words.len() - 3] == "-o"@
            &&& words[words.len() - 2] == path_join(directories.downloads_dir, form.output_template)
            &&& words[words.len() - 1] == form.playlist_url
        }),
{
    let archive = resolved_archive(form.download_archive, title);
    lemma_end_of_settings(form, directories, archive);
    lemma_ends_of_sum(
        seq!["-f"@, form.format, "--force-overwrites"@],
        common_arguments(form, directories, archive),
    );
}

/// The command holds no further words than those of the settings that are given, the format,
/// the output and the playlist: a box that is not ticked and a value that is blank add none.
#[verifier::spinoff_prover]
#[verifier::rlimit(40)]
pub proof fn law_no_further_words_in_the_command(
    form: DownloadFormView,
    directories: DirectoryConfigView,
    title: Option<Seq<char>>,
)
    ensures
        ({
            let archive = resolved_archive(form.download_archive, title);
            let words = download_arguments(form, directories, title);
            words.len() == 6 + (if blank(form.extractor_args) {
                0int
            } else {
                2
            }) + (if form.force_ipv4 {
                1int
            } else {
                0
            }) + (if form.extract_audio {
                5int
            } else {
                0
            }) + (if blank(archive) {
                0int
            } else {
                2
            }) + (if form.ignore_errors {
                1int
            } else {
                0
            }) + (if form.embed_metadata {
                1int
            } else {
                0
            }) + (if form.embed_thumbnail {
                1int
            } else {
                0
            }) + (if form.add_metadata {
                1int
            } else {
                0
            }) + (if blank(form.parse_metadata) {
                0int
            } else {
                2
            })
        }),
{
    let archive = resolved_archive(form.download_archive, title);
    lemma_words_of_groups(form, directories, archive);
    lemma_ends_of_sum(
        seq!["-f"@, form.format, "--force-overwrites"@],
        common_arguments(form, directories, archive),
    );
}

/// Audio is extracted as the form says: where that is asked for, the preview holds `-x`, and
/// the audio format and the audio quality of the form, whatever they are, follow the options
/// that they belong to.
#[verifier::spinoff_prover]
#[verifier::rlimit(40)]
pub proof fn law_audio_settings_reach_the_preview(
    form: DownloadFormView,
    yt_dlp_path: Seq<char>,
    directories: DirectoryConfigView,
)
    ensures
        ({
            let words = preview_words(form, yt_dlp_path, directories);
            &&& form.extract_audio ==> words.contains("-x"@)
            &&& form.extract_audio ==> exists|i: int|
                0 <= i < words.len() - 1 && #[trigger] words[i] == "--audio-format"@ && words[i + 1]
                    == form.audio_format
            &&& form.extract_audio ==> exists|i: int|
                0 <= i < words.len() - 1 && #[trigger] words[i] == "--audio-quality"@ && words[i + 1]
                    == form.audio_quality
        }),
{
    let archive = form.download_archive;
    let rest = common_arguments(form, directories, archive);
    let words = preview_words(form, yt_dlp_path, directories);
    assert(words == seq![yt_dlp_path, "-f"@, form.format] + rest);
    if form.extract_audio {
        let group = seq![
            "-x"@,
            "--audio-format"@,
            form.audio_format,
            "--audio-quality"@,
            form.audio_quality,
        ];
        assert(settings_groups(form, directories, archive)[2] == group) by {
            reveal(settings_groups);
        }
        let at = lemma_place_of_setting(form, directories, archive, 2, group);
        assert(rest[at + 0] == group[0]);
        assert(rest[at + 1] == group[1]);
        assert(rest[at + 2] == group[2]);
        assert(rest[at + 3] == group[3]);
        assert(rest[at + 4] == group[4]);
        assert(words[3 + at] == "-x"@);
        assert(words[3 + at + 1] == "--audio-format"@ && words[3 + at + 1 + 1]
            == form.audio_format);
        assert(words[3 + at + 3] == "--audio-quality"@ && words[3 + at + 3 + 1]
            == form.audio_quality);
    }
}

/// The extractor arguments, the metadata to parse and the archive reach the preview: each
/// that is given, whatever it is, follows the option that it belongs to.
#[verifier::spinoff_prover]
#[verifier::rlimit(40)]
pub proof fn law_values_reach_the_preview(
    form: DownloadFormView,
    yt_dlp_path: Seq<char>,
    directories: DirectoryConfigView,
)
    ensures
        ({
            let archive = form.download_archive;
            let words = preview_words(form, yt_dlp_path, directories);
            &&& !blank(form.extractor_args) ==> exists|i: int|
                0 <= i < words.len() - 1 && #[trigger] words[i] == "--extractor-args"@ && words[i + 1]
                    == form.extractor_args
            &&& !blank(archive) ==> exists|i: int|
                0 <= i < words.len() - 1 && #[trigger] words[i] == "--download-archive"@ && words[i + 1]
                    == path_join(directories.archives_dir, sanitized_name(archive))
            &&& !blank(form.parse_metadata) ==> exists|i: int|
                0 <= i < words.len() - 1 && #[trigger] words[i] == "--parse-metadata"@ && words[i + 1]
                    == form.parse_metadata
        }),
{
    let archive = form.download_archive;
    let rest = common_arguments(form, directories, archive);
    let words = preview_words(form, yt_dlp_path, directories);
    assert(words == seq![yt_dlp_path, "-f"@, form.format] + rest);
    if !blank(form.extractor_args) {
        assert(settings_groups(form, directories, archive)[0] == seq![
            "--extractor-args"@,
            form.extractor_args,
        ]) by {
            reveal(settings_groups);
        }
        let at = lemma_value_of_setting(
            form,
            directories,
            archive,
            0,
            "--extractor-args"@,
            form.extractor_args,
        );
        assert(words[3 + at] == rest[at]);
        assert(words[3 + at + 1] == rest[at + 1]);
    }
    if !blank(archive) {
        assert(settings_groups(form, directories, archive)[3] == seq![
            "--download-archive"@,
            path_join(directories.archives_dir, sanitized_name(archive)),
        ]) by {
            reveal(settings_groups);
        }
        let at = lemma_value_of_setting(
            form,
            directories,
            archive,
            3,
            "--download-archive"@,
            path_join(directories.archives_dir, sanitized_name(archive)),
        );
        assert(words[3 + at] == rest[at]);
        assert(words[3 + at + 1] == rest[at + 1]);
    }
    if !blank(form.parse_metadata) {
        assert(settings_groups(form, directories, archive)[8] == seq![
            "--parse-metadata"@,
            form.parse_metadata,
        ]) by {
            reveal(settings_groups);
        }
        let at = lemma_value_of_setting(
            form,
            directories,
            archive,
            8,
            "--parse-metadata"@,
            form.parse_metadata,
        );
        assert(words[3 + at] == rest[at]);
        assert(words[3 + at + 1] == rest[at + 1]);
    }
}

/// Each box that is ticked adds its option to the preview.
#[verifier::spinoff_prover]
#[verifier::rlimit(40)]
pub proof fn law_boxes_reach_the_preview(
    form: DownloadFormView,
    yt_dlp_path: Seq<char>,
    directories: DirectoryConfigView,
)
    ensures
        ({
            let words = preview_words(form, yt_dlp_path, directories);
            &&& form.force_ipv4 ==> words.contains("--force-ipv4"@)
            &&& form.ignore_errors ==> words.contains("--ignore-errors"@)
            &&& form.embed_metadata ==> words.contains("--embed-metadata"@)
            &&& form.embed_thumbnail ==> words.contains("--embed-thumbnail"@)
            &&& form.add_metadata ==> words.contains("--add-metadata"@)
        }),
{
    let archive = form.download_archive;
    let rest = common_arguments(form, directories, archive);
    let words = preview_words(form, yt_dlp_path, directories);
    assert(words == seq![yt_dlp_path, "-f"@, form.format] + rest);
    if form.force_ipv4 {
        assert(settings_groups(form, directories, archive)[1] == seq!["--force-ipv4"@]) by {
            reveal(settings_groups);
        }
        let at = lemma_box_of_setting(form, directories, archive, 1, "--force-ipv4"@);
        assert(words[3 + at] == rest[at]);
    }
    if form.ignore_errors {
        assert(settings_groups(form, directories, archive)[4] == seq!["--ignore-errors"@]) by {
            reveal(settings_groups);
        }
        let at = lemma_box_of_setting(form, directories, archive, 4, "--ignore-errors"@);
        assert(words[3 + at] == rest[at]);
    }
    if form.embed_metadata {
        assert(settings_groups(form, directories, archive)[5] == seq!["--embed-metadata"@]) by {
            reveal(settings_groups);
        }
        let at = lemma_box_of_setting(form, directories, archive, 5, "--embed-metadata"@);
        assert(words[3 + at] == rest[at]);
    }
    if form.embed_thumbnail {
        assert(settings_groups(form, directories, archive)[6] == seq!["--embed-thumbnail"@]) by {
            reveal(settings_groups);
        }
        let at = lemma_box_of_setting(form, directories, archive, 6, "--embed-thumbnail"@);
        assert(words[3 + at] == rest[at]);
    }
    if form.add_metadata {
        assert(settings_groups(form, directories, archive)[7] == seq!["--add-metadata"@]) by {
            reveal(settings_groups);
        }
        let at = lemma_box_of_setting(form, directories, archive, 7, "--add-metadata"@);
        assert(words[3 + at] == rest[at]);
    }
}

/// The preview begins with the choice of format and ends with the output and the playlist.
pub proof fn law_ends_of_the_preview(
    form: DownloadFormView,
    yt_dlp_path: Seq<char>,
    directories: DirectoryConfigView,
)
    ensures
        ({
            let words = preview_words(form, yt_dlp_path, directories);
            &&& words.len() >= 6
            &&& words[0] == yt_dlp_path && words[1] == "-f"@ && words[2] == form.format
            &&& words[words.len() - 3] == "-o"@
            &&& words[words.len() - 2] == path_join(directories.downloads_dir, form.output_template)
            &&& words[words.len() - 1] == form.playlist_url
        }),
{
    let archive = form.download_archive;
    lemma_end_of_settings(form, directories, archive);
    lemma_ends_of_sum(
        seq![yt_dlp_path, "-f"@, form.format],
        common_arguments(form, directories, archive),
    );
}

/// The preview holds no further words than those of the settings that are given, the format,
/// the output and the playlist: a box that is not ticked and a value that is blank add none.
#[verifier::spinoff_prover]
#[verifier::rlimit(40)]
pub proof fn law_no_further_words_in_the_preview(
    form: DownloadFormView,
    yt_dlp_path: Seq<char>,
    directories: DirectoryConfigView,
)
    ensures
        ({
            let archive = form.download_archive;
            let words = preview_words(form, yt_dlp_path, directories);
            words.len() == 6 + (if blank(form.extractor_args) {
                0int
            } else {
                2
            }) + (if form.force_ipv4 {
                1int
            } else {
                0
            }) + (if form.extract_audio {
                5int
            } else {
                0
            }) + (if blank(archive) {
                0int
            } else {
                2
            }) + (if form.ignore_errors {
                1int
            } else {
                0
            }) + (if form.embed_metadata {
                1int
            } else {
                0
            }) + (if form.embed_thumbnail {
                1int
            } else {
                0
            }) + (if form.add_metadata {
                1int
            } else {
                0
            }) + (if blank(form.parse_metadata) {
                0int
            } else {
                2
            })
        }),
{
    let archive = form.download_archive;
    lemma_words_of_groups(form, directories, archive);
    lemma_ends_of_sum(
        seq![yt_dlp_path, "-f"@, form.format],
        common_arguments(form, directories, archive),
    );
}

/// A text is blank exactly if every character of it is white space.
pub proof fn law_blank_is_all_white_space(s: Seq<char>)
    ensures
        blank(s) <==> forall|i: int| 0 <= i < s.len() ==> is_white_space(#[trigger] s[i]),
{
    law_trimmed_keeps_the_middle(s);
    let (before, after) = choose|before: Seq<char>, after: Seq<char>|
        #![trigger before + trimmed(s) + after]
        {
            &&& s == before + trimmed(s) + after
            &&& forall|k: int| 0 <= k < before.len() ==> is_white_space(#[trigger] before[k])
            &&& forall|k: int| 0 <= k < after.len() ==> is_white_space(#[trigger] after[k])
        };
    if blank(s) {
        assert forall|i: int| 0 <= i < s.len() implies is_white_space(#[trigger] s[i]) by {
            if i < before.len() {
                assert(s[i] == before[i]);
            } else {
                assert(s[i] == after[i - before.len()]);
            }
        }
    } else {
        assert(s[before.len() as int] == trimmed(s)[0]);
    }
}

/// The archive name is the template where no title is known, or where the template keeps no
/// place for one. Otherwise the title, trimmed and sanitized, stands in the first place kept
/// for it, with what is before that place left as it is and the places behind it filled too.
pub proof fn law_title_fills_the_archive_name(
    before: Seq<char>,
    after: Seq<char>,
    template: Seq<char>,
    title: Seq<char>,
)
    ensures
        resolved_archive(template, None) == template,
        !occurs(template, "%(playlist_title)s"@) ==> resolved_archive(template, Some(title))
            == template,
        template == before + "%(playlist_title)s"@ + after && (forall|k: int|
            0 <= k < before.len() ==> !#[trigger] occurs_at(template, "%(playlist_title)s"@, k))
            ==> resolved_archive(template, Some(title)) == before + sanitized_name(trimmed(title))
            + replaced(after, "%(playlist_title)s"@, sanitized_name(trimmed(title))),
{
    reveal_strlit("%(playlist_title)s");
    let place = "%(playlist_title)s"@;
    if template == before + place + after && (forall|k: int|
        0 <= k < before.len() ==> !#[trigger] occurs_at(template, place, k)) {
        law_first_occurrence_is_replaced(before, place, after, sanitized_name(trimmed(title)));
        law_occurrence_splits_the_text(template, place);
        law_blank_is_all_white_space(template);
        let at = before.len() as int;
        assert(template[at] == place[0]);
        assert(!is_white_space(template[at]));
    }
}

/// The title is that of the first line with text: the lines before it have none, and what
/// stands in it is taken without the white space around. There is none if no line has text.
pub proof fn law_title_is_the_first_line_with_text(lines: Seq<Seq<char>>)
    ensures
        match first_text(lines) {
            Some(title) => exists|k: int|
                {
                    &&& 0 <= k < lines.len()
                    &&& !blank(#[trigger] lines[k])
                    &&& title == trimmed(lines[k])
                    &&& forall|j: int| 0 <= j < k ==> blank(#[trigger] lines[j])
                },
            None => forall|j: int| 0 <= j < lines.len() ==> blank(#[trigger] lines[j]),
        },
    decreases lines.len(),
{
    if lines.len() > 0 {
        let rest = lines.skip(1);
        law_title_is_the_first_line_with_text(rest);
        if !blank(lines[0]) {
            assert(first_text(lines) == Some(trimmed(lines[0])));
        } else {
            match first_text(rest) {
                Some(title) => {
                    let k = choose|k: int|
                        {
                            &&& 0 <= k < rest.len()
                            &&& !blank(#[trigger] rest[k])
                            &&& title == trimmed(rest[k])
                            &&& forall|j: int| 0 <= j < k ==> blank(#[trigger] rest[j])
                        };
                    assert(lines[k + 1] == rest[k]);
                    assert forall|j: int| 0 <= j < k + 1 implies blank(#[trigger] lines[j]) by {
                        if j > 0 {
                            assert(rest[j - 1] == lines[j]);
                        }
                    }
                },
                None => {
                    assert forall|j: int| 0 <= j < lines.len() implies blank(
                        #[trigger] lines[j],
                    ) by {
                        if j > 0 {
                            assert(rest[j - 1] == lines[j]);
                        }
                    }
                },
            }
        }
    }
}

/// A title is known by its characters.
pub proof fn law_characters_of_a_title(title: &str)
    ensures
        title_view(Some(title)) == Some(title@),
        title_view(None) is None,
{
}

} // verus!
