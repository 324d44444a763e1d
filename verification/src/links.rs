//! The addresses of the pages: percent-encoded names and job identifiers.

use vstd::prelude::*;
use vstd::string::StringExecFns;
use vstd::utf8::{encode_utf8, encode_utf8_decode_utf8};

verus! {

/// The identifier of a job: the 128 bits of a UUID.
pub type JobId = u128;

/// Whether a byte stands for itself in an address: letters, digits and `-`, `.`, `_`, `~`.
pub open spec fn is_unreserved(byte: u8) -> bool {
    ||| 0x30 <= byte <= 0x39
    ||| 0x41 <= byte <= 0x5a
    ||| 0x61 <= byte <= 0x7a
    ||| byte == 0x2d
    ||| byte == 0x2e
    ||| byte == 0x5f
    ||| byte == 0x7e
}

/// The hexadecimal digit of value `d`, with a capital for ten and above.
pub open spec fn upper_hex(d: nat) -> char
    recommends
        d < 16,
{
    if d < 10 {
        (0x30 + d) as char
    } else {
        (0x41 + d - 10) as char
    }
}

/// How one byte is written in an address.
pub open spec fn escape(byte: u8) -> Seq<char> {
    if is_unreserved(byte) {
        seq![byte as char]
    } else {
        seq!['%', upper_hex(byte as nat / 16), upper_hex(byte as nat % 16)]
    }
}

/// How bytes are written in an address.
pub open spec fn escaped(bytes: Seq<u8>) -> Seq<char>
    decreases bytes.len(),
{
    if bytes.len() == 0 {
        Seq::empty()
    } else {
        escape(bytes[0]) + escaped(bytes.skip(1))
    }
}

/// How a name is written in an address: the bytes of its UTF-8 encoding, those that
/// do not stand for themselves as a percent sign and two hexadecimal digits.
pub open spec fn percent_encoded(name: Seq<char>) -> Seq<char> {
    escaped(encode_utf8(name))
}

/// `urlencoding::encode`: percent-encodes every byte of the UTF-8 encoding except
/// letters, digits and `-`, `.`, `_`, `~`.
#[verifier::external_body]
pub(crate) fn encode(name: &str) -> (r: String)
    ensures
        r@ == percent_encoded(name@),
{
    urlencoding::encode(name).into_owned()
}

/// The last `count` hexadecimal digits of `n`, in lower case.
pub open spec fn hex_digits(n: nat, count: nat) -> Seq<char>
    decreases count,
{
    if count == 0 {
        Seq::empty()
    } else {
        hex_digits(n / 16, (count - 1) as nat).push(lower_hex(n % 16))
    }
}

/// The hexadecimal digit of value `d`, in lower case.
pub open spec fn lower_hex(d: nat) -> char
    recommends
        d < 16,
{
    if d < 10 {
        (0x30 + d) as char
    } else {
        (0x61 + d - 10) as char
    }
}

/// The identifier in groups of eight, four, four, four and twelve hexadecimal digits.
pub open spec fn hyphenated(id: JobId) -> Seq<char> {
    let digits = hex_digits(id as nat, 32);
    digits.subrange(0, 8).push('-') + digits.subrange(8, 12).push('-') + digits.subrange(
        12,
        16,
    ).push('-') + digits.subrange(16, 20).push('-') + digits.subrange(20, 32)
}

/// `Uuid::from_u128` and its `Display` of the uuid crate: the hyphenated form in lower
/// case.
#[verifier::external_body]
pub(crate) fn job_id_text(id: JobId) -> (r: String)
    ensures
        r@ == hyphenated(id),
{
    uuid::Uuid::from_u128(id).to_string()
}

/// `Uuid::new_v4` of the uuid crate: a random identifier, of which only the version and
/// variant bits are fixed.
#[verifier::external_body]
pub(crate) fn random_job_id() -> (r: JobId)
    ensures
        (r >> 76) & 0xf == 4,
        (r >> 62) & 0x3 == 2,
{
    uuid::Uuid::new_v4().as_u128()
}

/// The page of a job.
pub fn job_location(id: JobId) -> (r: String)
    ensures
        r@ == "/jobs/"@ + hyphenated(id),
{
    "/jobs/".to_string().concat(job_id_text(id).as_str())
}

/// The page of an album.
pub fn album_location(album: &str) -> (r: String)
    ensures
        r@ == "/albums/"@ + percent_encoded(album@),
{
    "/albums/".to_string().concat(encode(album).as_str())
}

/// The page that edits an archive.
pub fn archive_location(name: &str) -> (r: String)
    ensures
        r@ == "/archives/"@ + percent_encoded(name@) + "/edit"@,
{
    "/archives/".to_string().concat(encode(name).as_str()).concat("/edit")
}

/// Different bytes are written differently, and neither is the beginning of the other.
proof fn lemma_escape_is_prefix_free(a: u8, b: u8, x: Seq<char>, y: Seq<char>)
    requires
        escape(a) + x == escape(b) + y,
    ensures
        a == b,
        x == y,
{
    let whole = escape(a) + x;
    assert(whole == escape(b) + y);
    assert(whole[0] == escape(a)[0] && whole[0] == escape(b)[0]);
    if !is_unreserved(a) {
        assert(!is_unreserved(b));
        assert(whole[1] == escape(a)[1] && whole[1] == escape(b)[1]);
        assert(whole[2] == escape(a)[2] && whole[2] == escape(b)[2]);
        lemma_upper_hex_is_injective(a as nat / 16, b as nat / 16);
        lemma_upper_hex_is_injective(a as nat % 16, b as nat % 16);
    }
    assert(a == b);
    let k = escape(a).len() as int;
    assert(whole.skip(k) == x);
    assert(whole.skip(k) == y);
}

/// Different values have different digits.
proof fn lemma_upper_hex_is_injective(a: nat, b: nat)
    requires
        a < 16,
        b < 16,
        upper_hex(a) == upper_hex(b),
    ensures
        a == b,
{
}

/// Different bytes are never written alike.
proof fn lemma_escaped_is_injective(a: Seq<u8>, b: Seq<u8>)
    requires
        escaped(a) == escaped(b),
    ensures
        a == b,
    decreases a.len(),
{
    if a.len() == 0 {
        if b.len() > 0 {
            assert(escaped(b).len() > 0);
        }
    } else {
        assert(escaped(a).len() > 0);
        assert(b.len() > 0);
        lemma_escape_is_prefix_free(a[0], b[0], escaped(a.skip(1)), escaped(b.skip(1)));
        lemma_escaped_is_injective(a.skip(1), b.skip(1));
        assert(a == seq![a[0]] + a.skip(1));
        assert(b == seq![b[0]] + b.skip(1));
    }
}

/// Two names never share an address.
pub proof fn law_encoding_is_injective(a: Seq<char>, b: Seq<char>)
    requires
        percent_encoded(a) == percent_encoded(b),
    ensures
        a == b,
{
    lemma_escaped_is_injective(encode_utf8(a), encode_utf8(b));
    encode_utf8_decode_utf8(a);
    encode_utf8_decode_utf8(b);
}

/// A written byte holds no character that would end or split a path segment.
proof fn lemma_escaped_characters(bytes: Seq<u8>)
    ensures
        forall|i: int|
            0 <= i < escaped(bytes).len() ==> {
                let c = #[trigger] escaped(bytes)[i];
                c == '%' || (c as u32) < 0x80 && is_unreserved(c as u8)
            },
    decreases bytes.len(),
{
    if bytes.len() > 0 {
        lemma_escaped_characters(bytes.skip(1));
        let head = escape(bytes[0]);
        assert forall|i: int| 0 <= i < escaped(bytes).len() implies ({
            let c = #[trigger] escaped(bytes)[i];
            c == '%' || (c as u32) < 0x80 && is_unreserved(c as u8)
        }) by {
            if i < head.len() {
                assert(escaped(bytes)[i] == head[i]);
            } else {
                assert(escaped(bytes)[i] == escaped(bytes.skip(1))[i - head.len()]);
            }
        }
    }
}

/// An encoded name is one segment of an address: it holds only percent signs and
/// characters that stand for themselves, and so no slash, question mark or hash.
pub proof fn law_encoded_name_is_one_segment(name: Seq<char>)
    ensures
        forall|i: int|
            0 <= i < percent_encoded(name).len() ==> {
                let c = #[trigger] percent_encoded(name)[i];
                &&& c == '%' || (c as u32) < 0x80 && is_unreserved(c as u8)
                &&& c != '/' && c != '?' && c != '#'
            },
{
    lemma_escaped_characters(encode_utf8(name));
}

/// How many numbers `count` hexadecimal digits can write.
spec fn hex_capacity(count: nat) -> nat
    decreases count,
{
    if count == 0 {
        1
    } else {
        16 * hex_capacity((count - 1) as nat)
    }
}

/// Numbers that `count` digits can write are told apart by them.
proof fn lemma_hex_digits_injective(a: nat, b: nat, count: nat)
    requires
        hex_digits(a, count) == hex_digits(b, count),
        a < hex_capacity(count),
        b < hex_capacity(count),
    ensures
        a == b,
    decreases count,
{
    if count > 0 {
        let rest = (count - 1) as nat;
        assert(hex_digits(a, count).drop_last() == hex_digits(a / 16, rest));
        assert(hex_digits(b, count).drop_last() == hex_digits(b / 16, rest));
        assert(hex_digits(a, count).last() == lower_hex(a % 16));
        assert(hex_digits(b, count).last() == lower_hex(b % 16));
        lemma_hex_digits_injective(a / 16, b / 16, rest);
    }
}

/// There are `count` digits.
proof fn lemma_hex_digits_len(n: nat, count: nat)
    ensures
        hex_digits(n, count).len() == count,
    decreases count,
{
    if count > 0 {
        lemma_hex_digits_len(n / 16, (count - 1) as nat);
    }
}

/// Two jobs never share a page.
pub proof fn law_job_pages_differ(a: JobId, b: JobId)
    requires
        hyphenated(a) == hyphenated(b),
    ensures
        a == b,
{
    let x = hex_digits(a as nat, 32);
    let y = hex_digits(b as nat, 32);
    lemma_hex_digits_len(a as nat, 32);
    lemma_hex_digits_len(b as nat, 32);
    let s = hyphenated(a);
    let t = hyphenated(b);
    assert forall|i: int| 0 <= i < 32 implies x[i] == y[i] by {
        if i < 8 {
            assert(x[i] == s[i] && y[i] == t[i]);
        } else if i < 12 {
            assert(x[i] == s[i + 1] && y[i] == t[i + 1]);
        } else if i < 16 {
            assert(x[i] == s[i + 2] && y[i] == t[i + 2]);
        } else if i < 20 {
            assert(x[i] == s[i + 3] && y[i] == t[i + 3]);
        } else {
            assert(x[i] == s[i + 4] && y[i] == t[i + 4]);
        }
    }
    assert(x == y);
    assert(hex_capacity(32) == 0x1_0000_0000_0000_0000_0000_0000_0000_0000) by {
        reveal_with_fuel(hex_capacity, 33);
    }
    lemma_hex_digits_injective(a as nat, b as nat, 32);
}

} // verus!
