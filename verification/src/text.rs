//! Text operations on Unicode strings, stated over sequences of characters.

use vstd::prelude::*;
use vstd::string::{StrSliceExecFns, StringExecFns};
use vstd::utf8::is_ascii_chars;

verus! {

/// `String::push` appends one character at the end.
pub assume_specification[ String::push ](s: &mut String, c: char)
    ensures
        final(s)@ == old(s)@.push(c),
;

/// Unicode's `White_Space` property.
pub open spec fn is_white_space(c: char) -> bool {
    ||| '\u{9}' <= c <= '\u{d}'
    ||| c == ' '
    ||| c == '\u{85}'
    ||| c == '\u{a0}'
    ||| c == '\u{1680}'
    ||| '\u{2000}' <= c <= '\u{200a}'
    ||| c == '\u{2028}'
    ||| c == '\u{2029}'
    ||| c == '\u{202f}'
    ||| c == '\u{205f}'
    ||| c == '\u{3000}'
}

/// `s` without its leading white space.
pub open spec fn trimmed_start(s: Seq<char>) -> Seq<char>
    decreases s.len(),
{
    if s.len() > 0 && is_white_space(s[0]) {
        trimmed_start(s.skip(1))
    } else {
        s
    }
}

/// `s` without its trailing white space.
pub open spec fn trimmed_end(s: Seq<char>) -> Seq<char>
    decreases s.len(),
{
    if s.len() > 0 && is_white_space(s.last()) {
        trimmed_end(s.drop_last())
    } else {
        s
    }
}

/// `s` without leading and trailing white space.
pub open spec fn trimmed(s: Seq<char>) -> Seq<char> {
    trimmed_end(trimmed_start(s))
}

/// Whether `c` has the `White_Space` property.
pub fn white_space(c: char) -> (r: bool)
    ensures
        r == is_white_space(c),
{
    ('\u{9}' <= c && c <= '\u{d}') || c == ' ' || c == '\u{85}' || c == '\u{a0}' || c == '\u{1680}'
        || ('\u{2000}' <= c && c <= '\u{200a}') || c == '\u{2028}' || c == '\u{2029}' || c
        == '\u{202f}' || c == '\u{205f}' || c == '\u{3000}'
}

/// The characters of `s` in order.
pub fn chars_of(s: &str) -> (v: Vec<char>)
    ensures
        v@ == s@,
{
    let mut v: Vec<char> = Vec::new();
    for c in it: s.chars()
        invariant
            v@ == it.seq().take(it.index() as int),
            it.seq() == s@,
    {
        v.push(c);
    }
    assert(s@.take(s@.len() as int) == s@);
    v
}

/// Whether two strings have the same characters.
pub fn same_text(a: &str, b: &str) -> (r: bool)
    ensures
        r == (a@ == b@),
{
    let xs = chars_of(a);
    let ys = chars_of(b);
    if xs.len() != ys.len() {
        return false;
    }
    let mut i: usize = 0;
    while i < xs.len()
        invariant
            i <= xs.len(),
            xs.len() == ys.len(),
            xs@ == a@,
            ys@ == b@,
            forall|j: int| 0 <= j < i ==> a@[j] == b@[j],
        decreases xs.len() - i,
    {
        if xs[i] != ys[i] {
            assert(a@[i as int] != b@[i as int]);
            return false;
        }
        i = i + 1;
    }
    assert(a@ == b@);
    true
}

/// The string without leading and trailing white space.
pub fn trim(s: &str) -> (r: &str)
    ensures
        r@ == trimmed(s@),
{
    let cs = chars_of(s);
    let mut start: usize = 0;
    assert(s@.skip(0) == s@);
    while start < cs.len() && white_space(cs[start])
        invariant
            start <= cs.len(),
            cs@ == s@,
            trimmed_start(s@) == trimmed_start(s@.skip(start as int)),
        decreases cs.len() - start,
    {
        assert(s@.skip(start as int).skip(1) == s@.skip(start + 1));
        start = start + 1;
    }
    assert(trimmed_start(s@) == s@.skip(start as int));
    let mut end: usize = cs.len();
    assert(s@.subrange(start as int, end as int) == s@.skip(start as int));
    while start < end && white_space(cs[end - 1])
        invariant
            start <= end <= cs.len(),
            cs@ == s@,
            trimmed(s@) == trimmed_end(s@.subrange(start as int, end as int)),
        decreases end,
    {
        assert(s@.subrange(start as int, end as int).drop_last() == s@.subrange(
            start as int,
            end - 1,
        ));
        end = end - 1;
    }
    s.substring_char(start, end)
}

/// Whether `pattern` stands in `s` at position `i`.
pub open spec fn occurs_at(s: Seq<char>, pattern: Seq<char>, i: int) -> bool {
    0 <= i && i + pattern.len() <= s.len() && s.subrange(i, i + pattern.len()) == pattern
}

/// Whether `pattern` stands anywhere in `s`.
pub open spec fn occurs(s: Seq<char>, pattern: Seq<char>) -> bool {
    exists|i: int| #[trigger] occurs_at(s, pattern, i)
}

/// `s` with the matches of `pattern`, taken from the left without overlap,
/// replaced by `with`. The pattern is not empty.
pub open spec fn replaced(s: Seq<char>, pattern: Seq<char>, with: Seq<char>) -> Seq<char>
    recommends
        pattern.len() > 0,
    decreases s.len(),
{
    if s.len() == 0 || pattern.len() == 0 {
        s
    } else if occurs_at(s, pattern, 0) {
        with + replaced(s.skip(pattern.len() as int), pattern, with)
    } else {
        seq![s[0]] + replaced(s.skip(1), pattern, with)
    }
}

/// Whether `pattern` stands in `s` at position `i`.
fn stands_at(s: &Vec<char>, pattern: &Vec<char>, i: usize) -> (r: bool)
    requires
        i <= s.len(),
    ensures
        r == occurs_at(s@, pattern@, i as int),
{
    if pattern.len() > s.len() - i {
        return false;
    }
    let mut k: usize = 0;
    while k < pattern.len()
        invariant
            k <= pattern.len(),
            i + pattern.len() <= s.len(),
            forall|j: int| 0 <= j < k ==> s@[i + j] == pattern@[j],
        decreases pattern.len() - k,
    {
        if s[i + k] != pattern[k] {
            assert(s@.subrange(i as int, i + pattern@.len())[k as int] != pattern@[k as int]);
            return false;
        }
        k = k + 1;
    }
    assert(s@.subrange(i as int, i + pattern@.len()) == pattern@);
    true
}

/// Whether `s` contains `pattern`.
pub fn contains(s: &str, pattern: &str) -> (r: bool)
    ensures
        r == occurs(s@, pattern@),
{
    let cs = chars_of(s);
    let ps = chars_of(pattern);
    let mut i: usize = 0;
    while i < cs.len()
        invariant
            i <= cs.len(),
            cs@ == s@,
            ps@ == pattern@,
            forall|j: int| 0 <= j < i ==> !#[trigger] occurs_at(s@, pattern@, j),
        decreases cs.len() - i,
    {
        if stands_at(&cs, &ps, i) {
            return true;
        }
        i = i + 1;
    }
    stands_at(&cs, &ps, i)
}

/// `s` with every match of `pattern` replaced by `with`.
pub fn replace(s: &str, pattern: &str, with: &str) -> (r: String)
    requires
        pattern@.len() > 0,
    ensures
        r@ == replaced(s@, pattern@, with@),
{
    let cs = chars_of(s);
    let ps = chars_of(pattern);
    let mut out = String::new();
    let mut i: usize = 0;
    assert(s@.skip(0) == s@);
    while i < cs.len()
        invariant
            i <= cs.len(),
            cs@ == s@,
            ps@ == pattern@,
            pattern@.len() > 0,
            out@ + replaced(s@.skip(i as int), pattern@, with@) == replaced(s@, pattern@, with@),
        decreases cs.len() - i,
    {
        let ghost rest = s@.skip(i as int);
        if stands_at(&cs, &ps, i) {
            proof {
                assert(s@.subrange(i as int, i + pattern@.len()) == rest.subrange(
                    0,
                    pattern@.len() as int,
                ));
                assert(occurs_at(rest, pattern@, 0));
                assert(rest.skip(pattern@.len() as int) == s@.skip(i + pattern@.len()));
            }
            out.append(with);
            i = i + ps.len();
        } else {
            proof {
                if occurs_at(rest, pattern@, 0) {
                    assert(s@.subrange(i as int, i + pattern@.len()) == rest.subrange(
                        0,
                        pattern@.len() as int,
                    ));
                }
                assert(rest.skip(1) == s@.skip(i + 1));
            }
            let ghost before = out@;
            out.push(cs[i]);
            assert(before.push(cs@[i as int]) == before + seq![rest[0]]);
            i = i + 1;
        }
    }
    assert(s@.skip(i as int) == Seq::<char>::empty());
    assert(out@ + Seq::<char>::empty() == out@);
    out
}

/// The contents of a sequence of strings.
pub open spec fn contents(v: Seq<String>) -> Seq<Seq<char>> {
    Seq::new(v.len(), |i: int| v[i]@)
}

/// The contents of an optional string.
pub open spec fn optional_text(s: Option<String>) -> Option<Seq<char>> {
    match s {
        Some(t) => Some(t@),
        None => None,
    }
}

/// The parts one after the other, with `separator` between neighbours.
pub open spec fn joined(parts: Seq<Seq<char>>, separator: Seq<char>) -> Seq<char>
    decreases parts.len(),
{
    if parts.len() == 0 {
        Seq::empty()
    } else if parts.len() == 1 {
        parts[0]
    } else {
        joined(parts.drop_last(), separator) + separator + parts.last()
    }
}

/// Joins `parts` with `separator` between neighbours.
pub fn join(parts: &Vec<String>, separator: &str) -> (r: String)
    ensures
        r@ == joined(contents(parts@), separator@),
{
    let mut out = String::new();
    let mut i: usize = 0;
    while i < parts.len()
        invariant
            i <= parts.len(),
            out@ == joined(contents(parts@).take(i as int), separator@),
        decreases parts.len() - i,
    {
        let ghost upto = contents(parts@).take(i + 1);
        assert(upto.drop_last() == contents(parts@).take(i as int));
        if i > 0 {
            out.append(separator);
        }
        out.append(parts[i].as_str());
        assert(upto.last() == parts@[i as int]@);
        if i == 0 {
            assert(out@ == upto[0]);
        }
        i = i + 1;
    }
    assert(contents(parts@).take(parts@.len() as int) == contents(parts@));
    out
}

/// The pieces of `s` between occurrences of `separator`: one more than there are
/// occurrences, the empty ones among them.
pub open spec fn split_on(s: Seq<char>, separator: char) -> Seq<Seq<char>>
    decreases s.len(),
{
    if s.len() == 0 {
        seq![Seq::empty()]
    } else {
        let pieces = split_on(s.drop_last(), separator);
        if s.last() == separator {
            pieces.push(Seq::empty())
        } else {
            pieces.drop_last().push(pieces.last().push(s.last()))
        }
    }
}

/// Splits `s` at every occurrence of `separator`.
pub fn split(s: &str, separator: char) -> (r: Vec<String>)
    ensures
        contents(r@) == split_on(s@, separator),
        r.len() > 0,
{
    let cs = chars_of(s);
    let mut out: Vec<String> = Vec::new();
    let mut piece = String::new();
    let mut i: usize = 0;
    assert(contents(out@).push(piece@) == split_on(s@.take(0), separator));
    while i < cs.len()
        invariant
            i <= cs.len(),
            cs@ == s@,
            contents(out@).push(piece@) == split_on(s@.take(i as int), separator),
        decreases cs.len() - i,
    {
        let ghost before = contents(out@).push(piece@);
        assert(s@.take(i + 1).drop_last() == s@.take(i as int));
        assert(s@.take(i + 1).last() == cs@[i as int]);
        if cs[i] == separator {
            out.push(piece);
            piece = String::new();
            assert(contents(out@) == before);
        } else {
            piece.push(cs[i]);
            assert(before.drop_last() == contents(out@));
        }
        i = i + 1;
    }
    assert(s@.take(s@.len() as int) == s@);
    let ghost before = contents(out@).push(piece@);
    out.push(piece);
    assert(contents(out@) == before);
    out
}

/// The decimal digit of value `d`.
pub open spec fn digit(d: nat) -> char
    recommends
        d < 10,
{
    (('0' as u32) + d) as char
}

/// `n` in decimal notation.
pub open spec fn decimal(n: nat) -> Seq<char>
    decreases n,
{
    if n < 10 {
        seq![digit(n)]
    } else {
        decimal(n / 10).push(digit(n % 10))
    }
}

/// The decimal digit of value `d`.
pub fn digit_char(d: u64) -> (r: char)
    requires
        d < 10,
    ensures
        r == digit(d as nat),
{
    (('0' as u8) + d as u8) as char
}

/// Writes `n` in decimal notation.
pub fn decimal_text(n: u64) -> (r: String)
    ensures
        r@ == decimal(n as nat),
    decreases n,
{
    if n < 10 {
        let mut out = String::new();
        out.push(digit_char(n));
        assert(out@ == decimal(n as nat));
        out
    } else {
        let mut out = decimal_text(n / 10);
        out.push(digit_char(n % 10));
        out
    }
}

/// The ASCII lower case of one character; every other character is its own.
pub open spec fn ascii_lower(c: char) -> char {
    if 'A' <= c <= 'Z' {
        ((c as u32) + 32) as char
    } else {
        c
    }
}

/// `s` with its ASCII capitals in lower case.
pub open spec fn ascii_lowered(s: Seq<char>) -> Seq<char> {
    s.map_values(|c: char| ascii_lower(c))
}

/// `s` with its ASCII capitals in lower case.
pub fn ascii_lowercase(s: &str) -> (r: String)
    ensures
        r@ == ascii_lowered(s@),
{
    let cs = chars_of(s);
    let mut out = String::new();
    let mut i: usize = 0;
    while i < cs.len()
        invariant
            i <= cs.len(),
            cs@ == s@,
            out@ == ascii_lowered(s@.take(i as int)),
        decreases cs.len() - i,
    {
        let c = cs[i];
        if 'A' <= c && c <= 'Z' {
            out.push(((c as u8) + 32) as char);
        } else {
            out.push(c);
        }
        assert(s@.take(i + 1) == s@.take(i as int).push(c));
        assert(out@ == ascii_lowered(s@.take(i + 1)));
        i = i + 1;
    }
    assert(s@.take(s@.len() as int) == s@);
    out
}

/// A line without the line feed at its end, nor the carriage return before that.
pub open spec fn chomped(line: Seq<char>) -> Seq<char> {
    if line.len() > 0 && line.last() == '\n' {
        let text = line.drop_last();
        if text.len() > 0 && text.last() == '\r' {
            text.drop_last()
        } else {
            text
        }
    } else {
        line
    }
}

/// A line without the line feed at its end, nor the carriage return before that.
pub fn chomp(line: &str) -> (r: String)
    ensures
        r@ == chomped(line@),
{
    let cs = chars_of(line);
    let mut end: usize = cs.len();
    if end > 0 && cs[end - 1] == '\n' {
        end = end - 1;
        if end > 0 && cs[end - 1] == '\r' {
            end = end - 1;
        }
    }
    let text = line.substring_char(0, end);
    assert(text@ == chomped(line@));
    text.to_string()
}

/// What `str::to_lowercase` makes of a text.
pub uninterp spec fn lowered(s: Seq<char>) -> Seq<char>;

/// `str::to_lowercase` of std, Unicode's lower case of a text: a function of the text,
/// which on ASCII text turns the capitals `A` to `Z` into `a` to `z` and changes nothing
/// else. What it makes of other letters is not described further here.
#[verifier::external_body]
pub(crate) fn to_lowercase(s: &str) -> (r: String)
    ensures
        r@ == lowered(s@),
        is_ascii_chars(s@) ==> r@ == ascii_lowered(s@),
{
    s.to_lowercase()
}

/// The contents of a list of strings are those of each string, in the same places.
pub proof fn law_contents_of_each(v: Seq<String>)
    ensures
        contents(v).len() == v.len(),
        forall|i: int| 0 <= i < v.len() ==> #[trigger] contents(v)[i] == v[i]@,
{
}

/// The contents of an optional string are those of the string, where there is one.
pub proof fn law_optional_contents(s: String)
    ensures
        optional_text(Some(s)) == Some(s@),
        optional_text(None) is None,
{
}

/// Where the leading white space of a text ends.
proof fn lemma_trimmed_start(s: Seq<char>) -> (i: int)
    ensures
        0 <= i <= s.len(),
        trimmed_start(s) == s.skip(i),
        forall|k: int| 0 <= k < i ==> is_white_space(#[trigger] s[k]),
        i < s.len() ==> !is_white_space(s[i]),
    decreases s.len(),
{
    if s.len() > 0 && is_white_space(s[0]) {
        let i = lemma_trimmed_start(s.skip(1));
        assert(s.skip(1).skip(i) == s.skip(i + 1));
        assert forall|k: int| 0 <= k < i + 1 implies is_white_space(#[trigger] s[k]) by {
            if k > 0 {
                assert(s.skip(1)[k - 1] == s[k]);
            }
        }
        if i < s.skip(1).len() {
            assert(s.skip(1)[i] == s[i + 1]);
        }
        i + 1
    } else {
        assert(s.skip(0) == s);
        0
    }
}

/// Where the trailing white space of a text begins.
proof fn lemma_trimmed_end(s: Seq<char>) -> (j: int)
    ensures
        0 <= j <= s.len(),
        trimmed_end(s) == s.take(j),
        forall|k: int| j <= k < s.len() ==> is_white_space(#[trigger] s[k]),
        j > 0 ==> !is_white_space(s[j - 1]),
    decreases s.len(),
{
    if s.len() > 0 && is_white_space(s.last()) {
        let j = lemma_trimmed_end(s.drop_last());
        assert(s.drop_last().take(j) == s.take(j));
        assert forall|k: int| j <= k < s.len() implies is_white_space(#[trigger] s[k]) by {
            if k < s.len() - 1 {
                assert(s.drop_last()[k] == s[k]);
            }
        }
        if j > 0 {
            assert(s.drop_last()[j - 1] == s[j - 1]);
        }
        j
    } else {
        assert(s.take(s.len() as int) == s);
        s.len() as int
    }
}

/// A text is its trimmed text with white space on both sides, and the trimmed text neither
/// begins nor ends with white space.
pub proof fn law_trimmed_keeps_the_middle(s: Seq<char>)
    ensures
        exists|before: Seq<char>, after: Seq<char>|
            #![trigger before + trimmed(s) + after]
            {
                &&& s == before + trimmed(s) + after
                &&& forall|k: int| 0 <= k < before.len() ==> is_white_space(#[trigger] before[k])
                &&& forall|k: int| 0 <= k < after.len() ==> is_white_space(#[trigger] after[k])
            },
        trimmed(s).len() > 0 ==> !is_white_space(trimmed(s)[0]) && !is_white_space(
            trimmed(s).last(),
        ),
{
    let i = lemma_trimmed_start(s);
    let rest = s.skip(i);
    let j = lemma_trimmed_end(rest);
    let before = s.take(i);
    let after = rest.skip(j);
    assert(s == before + trimmed(s) + after);
    assert forall|k: int| 0 <= k < after.len() implies is_white_space(#[trigger] after[k]) by {
        assert(after[k] == rest[j + k]);
    }
    if trimmed(s).len() > 0 {
        assert(trimmed(s)[0] == rest[0]);
        assert(rest[0] == s[i]);
        assert(trimmed(s).last() == rest[j - 1]);
    }
}

/// A pattern occurs in a text exactly if the text is the pattern with something before and
/// after it.
pub proof fn law_occurrence_splits_the_text(s: Seq<char>, pattern: Seq<char>)
    ensures
        occurs(s, pattern) <==> exists|before: Seq<char>, after: Seq<char>|
            #![trigger before + pattern + after]
            s == before + pattern + after,
{
    if occurs(s, pattern) {
        let i = choose|i: int| #[trigger] occurs_at(s, pattern, i);
        assert(s == s.take(i) + pattern + s.skip(i + pattern.len()));
    }
    if exists|before: Seq<char>, after: Seq<char>|
        #![trigger before + pattern + after]
        s == before + pattern + after {
        let (before, after) = choose|before: Seq<char>, after: Seq<char>|
            #![trigger before + pattern + after]
            s == before + pattern + after;
        assert(s.subrange(before.len() as int, (before.len() + pattern.len()) as int) == pattern);
        assert(occurs_at(s, pattern, before.len() as int));
    }
}

/// A text in which the pattern does not occur is left as it is.
pub proof fn law_nothing_to_replace(s: Seq<char>, pattern: Seq<char>, with: Seq<char>)
    requires
        pattern.len() > 0,
        !occurs(s, pattern),
    ensures
        replaced(s, pattern, with) == s,
    decreases s.len(),
{
    if s.len() > 0 {
        assert(!occurs_at(s, pattern, 0));
        assert(!occurs(s.skip(1), pattern)) by {
            if occurs(s.skip(1), pattern) {
                let i = choose|i: int| #[trigger] occurs_at(s.skip(1), pattern, i);
                assert(s.skip(1).subrange(i, i + pattern.len()) == s.subrange(
                    i + 1,
                    i + 1 + pattern.len(),
                ));
                assert(occurs_at(s, pattern, i + 1));
            }
        }
        law_nothing_to_replace(s.skip(1), pattern, with);
        assert(s == seq![s[0]] + s.skip(1));
    }
}

/// The first occurrence of a pattern is replaced, what stands before it is left, and the
/// replacing goes on behind it.
pub proof fn law_first_occurrence_is_replaced(
    before: Seq<char>,
    pattern: Seq<char>,
    after: Seq<char>,
    with: Seq<char>,
)
    requires
        pattern.len() > 0,
        forall|k: int|
            0 <= k < before.len() ==> !#[trigger] occurs_at(before + pattern + after, pattern, k),
    ensures
        replaced(before + pattern + after, pattern, with) == before + with + replaced(
            after,
            pattern,
            with,
        ),
    decreases before.len(),
{
    let s = before + pattern + after;
    if before.len() == 0 {
        assert(s.subrange(0, pattern.len() as int) == pattern);
        assert(s.skip(pattern.len() as int) == after);
        assert(before + with == with);
    } else {
        let rest = before.skip(1);
        assert(!occurs_at(s, pattern, 0));
        assert(s.skip(1) == rest + pattern + after);
        assert forall|k: int| 0 <= k < rest.len() implies !#[trigger] occurs_at(
            rest + pattern + after,
            pattern,
            k,
        ) by {
            assert((rest + pattern + after).subrange(k, k + pattern.len()) == s.subrange(
                k + 1,
                k + 1 + pattern.len(),
            ));
            assert(!occurs_at(s, pattern, k + 1));
        }
        law_first_occurrence_is_replaced(rest, pattern, after, with);
        assert(before + with + replaced(after, pattern, with) == seq![s[0]] + (rest + with
            + replaced(after, pattern, with)));
    }
}

/// Nothing joined is nothing, one part joined is that part, and parts joined on both sides of
/// a place stand with one separator between them.
pub proof fn law_joining_in_two_steps(
    a: Seq<Seq<char>>,
    b: Seq<Seq<char>>,
    part: Seq<char>,
    separator: Seq<char>,
)
    ensures
        joined(Seq::empty(), separator) == Seq::<char>::empty(),
        joined(seq![part], separator) == part,
        a.len() > 0 && b.len() > 0 ==> joined(a + b, separator) == joined(a, separator) + separator
            + joined(b, separator),
    decreases b.len(),
{
    if a.len() > 0 && b.len() > 0 {
        assert((a + b).drop_last() == a + b.drop_last());
        assert((a + b).last() == b.last());
        if b.len() == 1 {
            assert(a + b.drop_last() == a);
        } else {
            law_joining_in_two_steps(a, b.drop_last(), part, separator);
            assert(joined(a + b, separator) == joined(a, separator) + separator + joined(
                b.drop_last(),
                separator,
            ) + separator + b.last());
            assert(joined(a, separator) + separator + joined(b.drop_last(), separator) + separator
                + b.last() == joined(a, separator) + separator + (joined(b.drop_last(), separator)
                + separator + b.last()));
        }
    }
}

/// The pieces of a text joined again are the text, and no piece holds the separator.
pub proof fn law_pieces_make_up_the_text(s: Seq<char>, separator: char)
    ensures
        split_on(s, separator).len() > 0,
        joined(split_on(s, separator), seq![separator]) == s,
        forall|i: int|
            0 <= i < split_on(s, separator).len() ==> !(#[trigger] split_on(
                s,
                separator,
            )[i]).contains(separator),
    decreases s.len(),
{
    let pieces = split_on(s, separator);
    if s.len() > 0 {
        let init = s.drop_last();
        let before = split_on(init, separator);
        law_pieces_make_up_the_text(init, separator);
        assert(s == init.push(s.last()));
        if s.last() == separator {
            assert(pieces.drop_last() == before);
            assert(joined(pieces, seq![separator]) == init + seq![separator] + Seq::<char>::empty());
        } else {
            let last = before.last().push(s.last());
            assert(pieces == before.drop_last().push(last));
            assert(pieces.drop_last() == before.drop_last());
            assert forall|i: int| 0 <= i < pieces.len() implies !(#[trigger] pieces[i]).contains(
                separator,
            ) by {
                if i < pieces.len() - 1 {
                    assert(pieces[i] == before[i]);
                } else {
                    assert(!before[before.len() - 1].contains(separator));
                    if last.contains(separator) {
                        let k = choose|k: int| 0 <= k < last.len() && last[k] == separator;
                        assert(before.last()[k] == separator);
                    }
                }
            }
            if before.len() == 1 {
                assert(joined(pieces, seq![separator]) == last);
                assert(last == s);
            } else {
                assert(joined(pieces, seq![separator]) == joined(
                    before.drop_last(),
                    seq![separator],
                ) + seq![separator] + last);
                assert(joined(before.drop_last(), seq![separator]) + seq![separator] + last == (
                joined(before.drop_last(), seq![separator]) + seq![separator]
                    + before.last()).push(s.last()));
            }
        }
    } else {
        assert(pieces[0] == s);
    }
}

/// The number that a row of decimal digits writes.
pub open spec fn number_written(digits: Seq<char>) -> int
    decreases digits.len(),
{
    if digits.len() == 0 {
        0
    } else {
        10 * number_written(digits.drop_last()) + (digits.last() as int - 48)
    }
}

/// Decimal notation writes the number it is of, in decimal digits, without needless zeros in
/// front.
pub proof fn law_decimal_writes_the_number(n: nat)
    ensures
        number_written(decimal(n)) == n,
        decimal(n).len() > 0,
        forall|i: int| 0 <= i < decimal(n).len() ==> '0' <= #[trigger] decimal(n)[i] <= '9',
        n > 0 ==> decimal(n)[0] != '0',
        n < 10 ==> decimal(n) == seq![digit(n)] && digit(n) as int == 48 + n,
    decreases n,
{
    if n >= 10 {
        law_decimal_writes_the_number(n / 10);
        assert(decimal(n).drop_last() == decimal(n / 10));
        assert forall|i: int| 0 <= i < decimal(n).len() implies '0' <= #[trigger] decimal(n)[i]
            <= '9' by {
            if i < decimal(n / 10).len() {
                assert(decimal(n)[i] == decimal(n / 10)[i]);
            }
        }
    } else {
        assert(decimal(n).drop_last() == Seq::<char>::empty());
        assert(number_written(Seq::empty()) == 0);
    }
}

/// ASCII lower case moves the capitals by the distance between the alphabets, changes no
/// other character, and changes nothing when it is taken again.
pub proof fn law_ascii_lower_case(s: Seq<char>)
    ensures
        ascii_lowered(s).len() == s.len(),
        forall|i: int|
            0 <= i < s.len() ==> (#[trigger] ascii_lowered(s)[i]) as int == s[i] as int + (if 65
                <= s[i] as int && s[i] as int <= 90 {
                32int
            } else {
                0int
            }),
        ascii_lowered(ascii_lowered(s)) == ascii_lowered(s),
{
    assert(ascii_lowered(ascii_lowered(s)) =~= ascii_lowered(s));
}

/// One line end is taken off a line: a line feed, or a carriage return and a line feed.
pub proof fn law_one_line_end_is_taken_off(text: Seq<char>)
    ensures
        text.len() == 0 || text.last() != '\n' ==> chomped(text) == text,
        text.len() == 0 || text.last() != '\r' ==> chomped(text.push('\n')) == text,
        chomped(text.push('\r').push('\n')) == text,
{
    assert(text.push('\n').drop_last() == text);
    assert(text.push('\r').push('\n').drop_last() == text.push('\r'));
    assert(text.push('\r').drop_last() == text);
}


} // verus!
