//! POSIX path strings: how they are joined and taken apart, and which names a
//! request may use to reach into the storage folders.

use vstd::prelude::*;
use vstd::string::StringExecFns;

use crate::error::AppError;
use crate::text::{chars_of, contains, contents, occurs, occurs_at, split, split_on, trim, trimmed};

verus! {

/// Whether `path` starts at the root of the file system.
pub open spec fn absolute(path: Seq<char>) -> bool {
    path.len() > 0 && path[0] == '/'
}

/// `name` looked up from `root`: an absolute name stands for itself, another one
/// is appended with exactly one separator supplied where `root` lacks it.
pub open spec fn path_join(root: Seq<char>, name: Seq<char>) -> Seq<char> {
    if absolute(name) || root.len() == 0 {
        name
    } else if root.last() == '/' {
        root + name
    } else {
        root.push('/') + name
    }
}

/// Whether a piece between separators names an entry: empty pieces and `.` do not.
pub open spec fn names_entry(piece: Seq<char>) -> bool {
    piece.len() > 0 && piece != seq!['.']
}

/// The pieces of `path` that name an entry, in order.
pub open spec fn segments(path: Seq<char>) -> Seq<Seq<char>> {
    split_on(path, '/').filter(|piece: Seq<char>| names_entry(piece))
}

/// What a path starts from: the root, the current directory written out, or neither.
pub open spec fn anchor(path: Seq<char>) -> Seq<Seq<char>> {
    if absolute(path) {
        seq![seq!['/']]
    } else if split_on(path, '/')[0] == seq!['.'] {
        seq![seq!['.']]
    } else {
        Seq::empty()
    }
}

/// The steps that a path is made of.
pub open spec fn components(path: Seq<char>) -> Seq<Seq<char>> {
    anchor(path) + segments(path)
}

/// Whether the steps of `base` are the first steps of `path`.
pub open spec fn lies_under(path: Seq<char>, base: Seq<char>) -> bool {
    components(base).is_prefix_of(components(path))
}

/// Whether `path` starts at the root of the file system.
pub fn is_absolute(path: &str) -> (r: bool)
    ensures
        r == absolute(path@),
{
    let cs = chars_of(path);
    cs.len() > 0 && cs[0] == '/'
}

/// `name` looked up from `root`.
pub fn join_path(root: &str, name: &str) -> (r: String)
    ensures
        r@ == path_join(root@, name@),
{
    let cs = chars_of(root);
    if is_absolute(name) || cs.len() == 0 {
        name.to_string()
    } else if cs[cs.len() - 1] == '/' {
        root.to_string().concat(name)
    } else {
        let mut out = root.to_string();
        out.push('/');
        out.concat(name)
    }
}

/// The child `name` of `root`, refused where the name climbs or starts anew.
pub fn sanitize_child_path(root: &str, name: &str) -> (r: Result<String, AppError>)
    ensures
        match r {
            Ok(path) => !occurs(name@, ".."@) && !absolute(name@) && path@ == path_join(
                root@,
                name@,
            ),
            Err(e) => if occurs(name@, ".."@) {
                e.rejects("Invalid path component"@)
            } else {
                absolute(name@) && e.rejects("Absolute paths are not allowed"@)
            },
        },
{
    if contains(name, "..") {
        return Err(AppError::invalid("Invalid path component"));
    }
    if is_absolute(name) {
        return Err(AppError::invalid("Absolute paths are not allowed"));
    }
    Ok(join_path(root, name))
}

/// Splitting never yields nothing.
proof fn lemma_split_not_empty(s: Seq<char>, separator: char)
    ensures
        split_on(s, separator).len() > 0,
    decreases s.len(),
{
    if s.len() > 0 {
        lemma_split_not_empty(s.drop_last(), separator);
    }
}

/// The pieces on both sides of a separator are the pieces of the two sides.
proof fn lemma_split_at_separator(a: Seq<char>, b: Seq<char>, separator: char)
    ensures
        split_on(a.push(separator) + b, separator) == split_on(a, separator) + split_on(
            b,
            separator,
        ),
    decreases b.len(),
{
    let whole = a.push(separator) + b;
    if b.len() == 0 {
        assert(whole == a.push(separator));
        assert(whole.drop_last() == a);
        assert(split_on(b, separator) == seq![Seq::<char>::empty()]);
    } else {
        assert(whole.drop_last() == a.push(separator) + b.drop_last());
        lemma_split_at_separator(a, b.drop_last(), separator);
        lemma_split_not_empty(b.drop_last(), separator);
        let left = split_on(a, separator);
        let right = split_on(b.drop_last(), separator);
        assert((left + right).drop_last() == left + right.drop_last());
        assert((left + right).last() == right.last());
    }
}

/// The steps of a joined path are those of the folder, then the entries named.
///
/// For every folder and every relative name, joining the two appends to the steps
/// of the folder exactly the entries that the name lists, and nothing else. A name that
/// starts with the current directory keeps that step where no folder is given.
pub proof fn law_join_appends_segments(root: Seq<char>, name: Seq<char>)
    requires
        !absolute(name),
        root.len() > 0 || anchor(name).len() == 0,
    ensures
        components(path_join(root, name)) == components(root) + segments(name),
{
    let keep = |piece: Seq<char>| names_entry(piece);
    let path = path_join(root, name);
    lemma_split_not_empty(root, '/');
    if root.len() == 0 {
        lemma_no_steps(root);
    } else if root.last() == '/' {
        let stem = root.drop_last();
        assert(root == stem.push('/'));
        lemma_split_at_separator(stem, name, '/');
        lemma_split_at_separator(stem, Seq::empty(), '/');
        assert(stem.push('/') + Seq::<char>::empty() == root);
        lemma_split_not_empty(stem, '/');
        let own = split_on(stem, '/');
        let tail = seq![Seq::<char>::empty()];
        assert(split_on(root, '/') == own + tail);
        Seq::filter_distributes_over_add(own, tail, keep);
        Seq::filter_distributes_over_add(own, split_on(name, '/'), keep);
        Seq::<Seq<char>>::empty().lemma_filter_push(Seq::empty(), keep);
        assert(Seq::<Seq<char>>::empty().push(Seq::empty()) == tail);
        reveal(Seq::filter);
    } else {
        lemma_split_at_separator(root, name, '/');
        Seq::filter_distributes_over_add(split_on(root, '/'), split_on(name, '/'), keep);
    }
}

/// The empty path has no steps.
proof fn lemma_no_steps(path: Seq<char>)
    requires
        path.len() == 0,
    ensures
        components(path) == Seq::<Seq<char>>::empty(),
{
    reveal(Seq::filter);
    Seq::<Seq<char>>::empty().lemma_filter_push(
        Seq::empty(),
        |piece: Seq<char>| names_entry(piece),
    );
    assert(split_on(path, '/') == Seq::<Seq<char>>::empty().push(Seq::empty()));
    assert(split_on(path, '/')[0].len() == 0);
}

/// The last piece is what `s` ends with, and every piece occurs in `s`.
proof fn lemma_pieces_occur(s: Seq<char>, separator: char)
    ensures
        split_on(s, separator).len() > 0,
        split_on(s, separator).last().is_suffix_of(s),
        forall|i: int|
            0 <= i < split_on(s, separator).len() ==> occurs(s, #[trigger] split_on(s, separator)[i]),
    decreases s.len(),
{
    let pieces = split_on(s, separator);
    if s.len() > 0 {
        let init = s.drop_last();
        let before = split_on(init, separator);
        lemma_pieces_occur(init, separator);
        if s.last() != separator {
            let last = before.last();
            assert(init.subrange(init.len() - last.len(), init.len() as int) == last);
            assert(s.subrange(s.len() - last.push(s.last()).len(), s.len() as int) == last.push(
                s.last(),
            ));
        } else {
            assert(s.subrange(s.len() as int, s.len() as int) == Seq::<char>::empty());
        }
        assert forall|i: int| 0 <= i < pieces.len() implies occurs(s, #[trigger] pieces[i]) by {
            if i < pieces.len() - 1 {
                assert(pieces[i] == before[i]);
                let k = choose|k: int| #[trigger] occurs_at(init, before[i], k);
                assert(s.subrange(k, k + pieces[i].len()) == init.subrange(k, k + pieces[i].len()));
                assert(occurs_at(s, pieces[i], k));
            } else {
                let k = s.len() - pieces[i].len();
                assert(occurs_at(s, pieces[i], k));
            }
        }
    } else {
        assert(s.subrange(0, 0) == pieces[0]);
        assert(occurs_at(s, pieces[0], 0));
    }
}

/// A relative name leads to a path under the folder it is looked up from.
pub proof fn law_relative_path_lies_under(root: Seq<char>, name: Seq<char>)
    requires
        !absolute(name),
    ensures
        lies_under(path_join(root, name), root),
{
    if root.len() == 0 {
        lemma_no_steps(root);
    } else {
        law_join_appends_segments(root, name);
    }
}

/// An accepted child stays inside its folder.
///
/// Whatever name `sanitize_child_path` accepts, the path it gives lies under the
/// folder it was given, and no step that the name adds climbs to a parent.
pub proof fn law_child_stays_inside(root: Seq<char>, name: Seq<char>)
    requires
        !occurs(name, ".."@),
        !absolute(name),
    ensures
        lies_under(path_join(root, name), root),
        !segments(name).contains(".."@),
        !components(name).contains(".."@),
{
    reveal_strlit("..");
    let keep = |piece: Seq<char>| names_entry(piece);
    law_relative_path_lies_under(root, name);
    if segments(name).contains(".."@) {
        lemma_pieces_occur(name, '/');
        split_on(name, '/').lemma_filter_contains_rev(keep, ".."@);
    }
    if components(name).contains(".."@) {
        let i = choose|i: int| 0 <= i < components(name).len() && components(name)[i] == ".."@;
        if i < anchor(name).len() {
            assert(anchor(name)[i].len() == 1);
        } else {
            assert(segments(name)[i - anchor(name).len()] == ".."@);
        }
    }
}

/// The steps of a path.
fn path_components(path: &str) -> (r: Vec<String>)
    ensures
        contents(r@) == components(path@),
{
    let pieces = split(path, '/');
    let mut out: Vec<String> = Vec::new();
    if is_absolute(path) {
        let mut root = String::new();
        root.push('/');
        out.push(root);
    } else if is_dot(pieces[0].as_str()) {
        out.push(pieces[0].clone());
    }
    let ghost start = contents(out@);
    proof {
        assert(contents(pieces@)[0] == pieces@[0]@);
        assert(start == anchor(path@));
        reveal(Seq::filter);
    }
    let ghost keep = |piece: Seq<char>| names_entry(piece);
    let mut i: usize = 0;
    while i < pieces.len()
        invariant
            i <= pieces.len(),
            contents(pieces@) == split_on(path@, '/'),
            keep == (|piece: Seq<char>| names_entry(piece)),
            contents(out@) == start + split_on(path@, '/').take(i as int).filter(keep),
        decreases pieces.len() - i,
    {
        let piece = &pieces[i];
        let ghost before = contents(out@);
        proof {
            let all = split_on(path@, '/');
            assert(all[i as int] == piece@);
            assert(all.take(i + 1) == all.take(i as int).push(piece@));
            all.take(i as int).lemma_filter_push(piece@, keep);
        }
        if !piece.as_str().is_empty() && !is_dot(piece.as_str()) {
            out.push(piece.clone());
            assert(contents(out@) == before.push(piece@));
        }
        i = i + 1;
    }
    assert(split_on(path@, '/').take(pieces@.len() as int) == split_on(path@, '/'));
    out
}

/// Whether a piece is the name of the current directory.
fn is_dot(piece: &str) -> (r: bool)
    ensures
        r == (piece@ == seq!['.']),
{
    let cs = chars_of(piece);
    let r = cs.len() == 1 && cs[0] == '.';
    assert(r ==> piece@ == seq!['.']);
    r
}

/// Whether the steps of `base` are the first steps of `path`.
pub fn path_starts_with(path: &str, base: &str) -> (r: bool)
    ensures
        r == lies_under(path@, base@),
{
    let ps = path_components(path);
    let bs = path_components(base);
    if bs.len() > ps.len() {
        return false;
    }
    let mut i: usize = 0;
    while i < bs.len()
        invariant
            i <= bs.len() <= ps.len(),
            contents(ps@) == components(path@),
            contents(bs@) == components(base@),
            forall|j: int| 0 <= j < i ==> components(path@)[j] == components(base@)[j],
        decreases bs.len() - i,
    {
        assert(components(path@)[i as int] == ps@[i as int]@);
        assert(components(base@)[i as int] == bs@[i as int]@);
        if ps[i] != bs[i] {
            return false;
        }
        i = i + 1;
    }
    assert(components(base@) == components(path@).subrange(0, bs@.len() as int));
    true
}

/// The folder of an album, refused where its name leads out of `root`.
pub fn validate_album(root: &str, album: &str) -> (r: Result<String, AppError>)
    ensures
        match r {
            Ok(path) => {
                &&& !occurs(album@, ".."@)
                &&& !absolute(album@)
                &&& path@ == path_join(root@, album@)
                &&& lies_under(path@, root@)
            },
            Err(e) => if occurs(album@, ".."@) {
                e.rejects("Invalid path component"@)
            } else {
                absolute(album@) && e.rejects("Absolute paths are not allowed"@)
            },
        },
{
    let sanitized = sanitize_child_path(root, album)?;
    proof {
        law_child_stays_inside(root@, album@);
    }
    if !path_starts_with(sanitized.as_str(), root) {
        return Err(AppError::invalid("Album path is outside downloads directory"));
    }
    Ok(sanitized)
}

/// The path of a file of an album, refused where either name leads out of its folder.
pub fn album_file_path(root: &str, album: &str, file: &str) -> (r: Result<String, AppError>)
    ensures
        match r {
            Ok(path) => {
                &&& !occurs(album@, ".."@) && !absolute(album@)
                &&& !occurs(file@, ".."@) && !absolute(file@)
                &&& path@ == path_join(path_join(root@, album@), file@)
                &&& lies_under(path@, root@)
            },
            Err(e) => if occurs(album@, ".."@) {
                e.rejects("Invalid path component"@)
            } else if absolute(album@) {
                e.rejects("Absolute paths are not allowed"@)
            } else if occurs(file@, ".."@) {
                e.rejects("Invalid path component"@)
            } else {
                absolute(file@) && e.rejects("Absolute paths are not allowed"@)
            },
        },
{
    let folder = validate_album(root, album)?;
    let path = sanitize_child_path(folder.as_str(), file)?;
    proof {
        law_album_file_stays_inside(root@, album@, file@);
    }
    Ok(path)
}

/// Whether `c` separates path components on some platform.
pub open spec fn is_separator(c: char) -> bool {
    c == '/' || c == '\\'
}

/// Whether `name` holds a path separator.
pub open spec fn has_separator(name: Seq<char>) -> bool {
    exists|i: int| 0 <= i < name.len() && is_separator(#[trigger] name[i])
}

/// The file of an archive, refused where its name holds a path separator.
pub fn validate_archive(root: &str, name: &str) -> (r: Result<String, AppError>)
    ensures
        match r {
            Ok(path) => !has_separator(name@) && path@ == path_join(root@, name@),
            Err(e) => has_separator(name@) && e.rejects(
                "Archive name must not contain path separators"@,
            ),
        },
{
    let cs = chars_of(name);
    let mut i: usize = 0;
    while i < cs.len()
        invariant
            i <= cs.len(),
            cs@ == name@,
            forall|j: int| 0 <= j < i ==> !is_separator(#[trigger] name@[j]),
        decreases cs.len() - i,
    {
        if cs[i] == '/' || cs[i] == '\\' {
            assert(is_separator(name@[i as int]));
            return Err(AppError::invalid("Archive name must not contain path separators"));
        }
        i = i + 1;
    }
    Ok(join_path(root, name))
}

/// `input` with every path separator turned into an underscore.
pub open spec fn sanitized_name(input: Seq<char>) -> Seq<char> {
    input.map_values(
        |c: char|
            if is_separator(c) {
                '_'
            } else {
                c
            },
    )
}

/// Turns every path separator of `input` into an underscore.
pub fn sanitize_file_name(input: &str) -> (r: String)
    ensures
        r@ == sanitized_name(input@),
{
    let cs = chars_of(input);
    let mut out = String::new();
    let mut i: usize = 0;
    while i < cs.len()
        invariant
            i <= cs.len(),
            cs@ == input@,
            out@ == sanitized_name(input@.take(i as int)),
        decreases cs.len() - i,
    {
        let c = cs[i];
        if c == '/' || c == '\\' {
            out.push('_');
        } else {
            out.push(c);
        }
        assert(input@.take(i + 1) == input@.take(i as int).push(c));
        assert(out@ == sanitized_name(input@.take(i + 1)));
        i = i + 1;
    }
    assert(input@.take(input@.len() as int) == input@);
    out
}

/// The directory that a form field names, refused where the field is blank.
pub fn parse_directory_path(input: &str, label: &str) -> (r: Result<String, AppError>)
    ensures
        match r {
            Ok(path) => trimmed(input@).len() > 0 && path@ == trimmed(input@),
            Err(e) => trimmed(input@).len() == 0 && e.rejects(label@ + " cannot be empty"@),
        },
{
    let trimmed = trim(input);
    if trimmed.is_empty() {
        let reason = label.to_string().concat(" cannot be empty");
        return Err(AppError::Invalid(reason));
    }
    Ok(trimmed.to_string())
}

/// A sanitized name holds no separator, keeps its length, and sanitizing it
/// again changes nothing.
pub proof fn law_sanitized_name_is_plain(input: Seq<char>)
    ensures
        !has_separator(sanitized_name(input)),
        sanitized_name(input).len() == input.len(),
        sanitized_name(sanitized_name(input)) == sanitized_name(input),
        !has_separator(input) ==> sanitized_name(input) == input,
{
    if !has_separator(input) {
        assert forall|i: int| 0 <= i < input.len() implies sanitized_name(input)[i] == input[i] by {
            assert(!is_separator(input[i]));
        }
        assert(sanitized_name(input) == input);
    }
    assert(sanitized_name(sanitized_name(input)) == sanitized_name(input));
}

/// A text without the separator is its own only piece.
proof fn lemma_split_without_separator(s: Seq<char>, separator: char)
    requires
        forall|i: int| 0 <= i < s.len() ==> s[i] != separator,
    ensures
        split_on(s, separator) == seq![s],
    decreases s.len(),
{
    if s.len() > 0 {
        lemma_split_without_separator(s.drop_last(), separator);
        assert(s.drop_last().push(s.last()) == s);
    } else {
        assert(s == Seq::<char>::empty());
    }
}

/// A name that is one piece is one segment.
proof fn lemma_single_segment(name: Seq<char>)
    requires
        split_on(name, '/') == seq![name],
        names_entry(name),
    ensures
        segments(name) == seq![name],
{
    reveal(Seq::filter);
    Seq::<Seq<char>>::empty().lemma_filter_push(name, |piece: Seq<char>| names_entry(piece));
    assert(seq![name] == Seq::<Seq<char>>::empty().push(name));
}

/// A file of an accepted album stays inside the downloads folder.
///
/// Whatever names of an album and of a file in it are accepted one after the other, the
/// path of the file lies under the folder of the album, and that under the downloads
/// folder.
pub proof fn law_album_file_stays_inside(root: Seq<char>, album: Seq<char>, file: Seq<char>)
    requires
        !occurs(album, ".."@),
        !absolute(album),
        !occurs(file, ".."@),
        !absolute(file),
    ensures
        lies_under(path_join(path_join(root, album), file), path_join(root, album)),
        lies_under(path_join(path_join(root, album), file), root),
{
    let folder = path_join(root, album);
    let path = path_join(folder, file);
    law_child_stays_inside(root, album);
    law_child_stays_inside(folder, file);
    assert(components(root) == components(path).subrange(0, components(root).len() as int));
}

/// What follows a path after a separator lies under it.
pub proof fn law_extended_path_lies_under(path: Seq<char>, rest: Seq<char>)
    requires
        path.len() > 0,
    ensures
        components(path.push('/') + rest) == components(path) + segments(rest),
        lies_under(path.push('/') + rest, path),
{
    let keep = |piece: Seq<char>| names_entry(piece);
    lemma_split_not_empty(path, '/');
    lemma_split_at_separator(path, rest, '/');
    Seq::filter_distributes_over_add(split_on(path, '/'), split_on(rest, '/'), keep);
}

/// An accepted archive is an entry of the archive folder itself.
///
/// Apart from the names that stand for no entry of their own (the empty name, the
/// current directory and the parent directory), the path of an accepted archive is
/// the folder with one step more, which is the name.
pub proof fn law_archive_is_direct_child(root: Seq<char>, name: Seq<char>)
    requires
        !has_separator(name),
        names_entry(name),
        name != ".."@,
    ensures
        components(path_join(root, name)) == components(root).push(name),
        lies_under(path_join(root, name), root),
        !segments(name).contains(".."@),
{
    assert forall|i: int| 0 <= i < name.len() implies name[i] != '/' by {
        assert(!is_separator(name[i]));
    }
    lemma_split_without_separator(name, '/');
    lemma_single_segment(name);
    assert(anchor(name).len() == 0);
    law_join_appends_segments(root, name);
    assert(components(root) + seq![name] == components(root).push(name));
    assert forall|i: int| 0 <= i < segments(name).len() implies segments(name)[i] != ".."@ by {
    }
}

/// A path starts at the root exactly if it is a slash with something behind it.
pub proof fn law_absolute_paths_start_with_a_slash(path: Seq<char>)
    ensures
        absolute(path) <==> exists|rest: Seq<char>| path == #[trigger] ("/"@ + rest),
{
    reveal_strlit("/");
    if absolute(path) {
        assert(path == "/"@ + path.skip(1));
    }
}

/// How the text of a joined path is made up: a name that starts at the root, or a name looked
/// up from nowhere, stands for itself; any other follows the folder with one slash between,
/// whether the folder is written with a slash at its end or without.
pub proof fn law_text_of_a_joined_path(root: Seq<char>, name: Seq<char>)
    ensures
        path_join(root, "/"@ + name) == "/"@ + name,
        path_join(Seq::empty(), name) == name,
        !absolute(name) ==> path_join(root.push('/'), name) == root + "/"@ + name,
        !absolute(name) && root.len() > 0 && root.last() != '/' ==> path_join(root, name) == root
            + "/"@ + name,
{
    reveal_strlit("/");
    assert(root.push('/') + name == root + "/"@ + name);
}

/// The entries on both sides of a slash are the entries of the two sides. A text without a
/// slash is one entry, but for the empty text and the dot, which are none.
pub proof fn law_entries_between_slashes(a: Seq<char>, b: Seq<char>)
    ensures
        segments(a + "/"@ + b) == segments(a) + segments(b),
        !a.contains('/') ==> segments(a) == (if a.len() == 0 || a == "."@ {
            Seq::empty()
        } else {
            seq![a]
        }),
{
    let keep = |piece: Seq<char>| names_entry(piece);
    reveal_strlit("/");
    reveal_strlit(".");
    assert(a + "/"@ + b == a.push('/') + b);
    lemma_split_at_separator(a, b, '/');
    Seq::filter_distributes_over_add(split_on(a, '/'), split_on(b, '/'), keep);
    if !a.contains('/') {
        lemma_split_without_separator(a, '/');
        assert("."@ == seq!['.']);
        reveal(Seq::filter);
        Seq::<Seq<char>>::empty().lemma_filter_push(a, keep);
        assert(seq![a] == Seq::<Seq<char>>::empty().push(a));
    }
}

/// What a text with a slash in it starts with, up to the slash.
proof fn lemma_first_piece(a: Seq<char>, b: Seq<char>)
    requires
        !a.contains('/'),
    ensures
        split_on(a.push('/') + b, '/')[0] == a,
{
    lemma_split_at_separator(a, b, '/');
    lemma_split_without_separator(a, '/');
    lemma_split_not_empty(a, '/');
}

/// The steps of a path are its entries, behind the root where the path starts there, and
/// behind the dot where the path is, or starts with, the current directory.
pub proof fn law_steps_of_a_path(path: Seq<char>)
    ensures
        components("/"@ + path) == seq!["/"@] + segments("/"@ + path),
        components("."@) == seq!["."@],
        components("./"@ + path) == seq!["."@] + segments(path),
        !absolute(path) && path != "."@ && !"./"@.is_prefix_of(path) ==> components(path)
            == segments(path),
{
    reveal_strlit("/");
    reveal_strlit(".");
    reveal_strlit("./");
    let keep = |piece: Seq<char>| names_entry(piece);
    assert("/"@ == seq!['/']);
    assert("."@ == seq!['.']);
    assert(!"."@.contains('/'));
    lemma_split_without_separator("."@, '/');
    law_entries_between_slashes("."@, path);
    assert(components("."@) == seq!["."@] + segments("."@));
    assert(components("."@) =~= seq!["."@]);
    assert("./"@ + path == "."@.push('/') + path);
    assert("./"@ + path == "."@ + "/"@ + path);
    lemma_first_piece("."@, path);
    assert(segments("./"@ + path) =~= segments(path));
    if !absolute(path) && path != "."@ && !"./"@.is_prefix_of(path) {
        lemma_first_piece_begins(path);
        let first = split_on(path, '/')[0];
        if first == seq!['.'] {
            assert(path[0] == path.subrange(0, 1)[0]);
            if path.len() == 1 {
                assert(path == "."@);
            } else {
                assert("./"@ == path.subrange(0, 2));
            }
        }
        assert(anchor(path).len() == 0);
        assert(components(path) =~= segments(path));
    }
}

/// The first piece of a text begins as the text does, up to a slash or the end.
proof fn lemma_first_piece_begins(s: Seq<char>)
    ensures
        split_on(s, '/').len() > 0,
        split_on(s, '/')[0].is_prefix_of(s),
        split_on(s, '/')[0].len() < s.len() ==> s[split_on(s, '/')[0].len() as int] == '/',
        split_on(s, '/').len() > 1 ==> split_on(s, '/')[0].len() < s.len(),
    decreases s.len(),
{
    if s.len() > 0 {
        let init = s.drop_last();
        lemma_first_piece_begins(init);
        let before = split_on(init, '/');
        let first = split_on(s, '/')[0];
        if s.last() == '/' || before.len() > 1 {
            assert(first == before[0]);
            assert(first == s.subrange(0, first.len() as int));
            if before.len() == 1 {
                lemma_only_piece(init);
            }
        } else {
            lemma_only_piece(init);
            assert(first == s);
            assert(first == s.subrange(0, first.len() as int));
        }
    } else {
        assert(split_on(s, '/')[0] == s.subrange(0, 0));
    }
}

/// A text that is one piece is that piece.
proof fn lemma_only_piece(s: Seq<char>)
    requires
        split_on(s, '/').len() == 1,
    ensures
        split_on(s, '/')[0] == s,
    decreases s.len(),
{
    if s.len() > 0 {
        lemma_split_not_empty(s.drop_last(), '/');
        lemma_only_piece(s.drop_last());
        assert(s == s.drop_last().push(s.last()));
    }
}

/// A path lies under another exactly if its steps are those of the other with more behind
/// them.
pub proof fn law_lying_under_is_having_more_steps(path: Seq<char>, base: Seq<char>)
    ensures
        lies_under(path, base) <==> exists|more: Seq<Seq<char>>|
            components(path) == #[trigger] (components(base) + more),
{
    if lies_under(path, base) {
        let n = components(base).len() as int;
        assert(components(path) =~= components(base) + components(path).skip(n));
    }
    if exists|more: Seq<Seq<char>>| components(path) == #[trigger] (components(base) + more) {
        let n = components(base).len() as int;
        assert(components(base) =~= components(path).subrange(0, n));
    }
}

/// A name holds a separator exactly if it holds a slash or a backslash.
pub proof fn law_separators_are_slashes(name: Seq<char>)
    ensures
        has_separator(name) <==> name.contains('/') || name.contains('\\'),
{
    if has_separator(name) {
        let i = choose|i: int| 0 <= i < name.len() && is_separator(#[trigger] name[i]);
        assert(name[i] == '/' || name[i] == '\\');
    }
    if name.contains('/') {
        let i = choose|i: int| 0 <= i < name.len() && name[i] == '/';
        assert(is_separator(name[i]));
    }
    if name.contains('\\') {
        let i = choose|i: int| 0 <= i < name.len() && name[i] == '\\';
        assert(is_separator(name[i]));
    }
}

/// Sanitizing writes an underscore for each slash and each backslash and leaves every other
/// character in its place.
pub proof fn law_sanitizing_changes_slashes_only(input: Seq<char>)
    ensures
        sanitized_name(input).len() == input.len(),
        forall|i: int|
            0 <= i < input.len() ==> #[trigger] sanitized_name(input)[i] == (if input[i] == '/'
                || input[i] == '\\' {
                '_'
            } else {
                input[i]
            }),
{
}

} // verus!
