//! Turning the `file://` URLs that media players report into local paths.
use vstd::prelude::*;

verus! {

use crate::text::{chars_of, string_from_chars, sub_chars};
use vstd::utf8::{
    decode_utf8, encode_scalar, encode_utf8, encode_utf8_decode_utf8, encode_utf8_valid_utf8,
    valid_utf8,
};

/// An ASCII hexadecimal digit byte (`0-9`, `A-F`, `a-f`).
pub open spec fn is_hex(b: u8) -> bool {
    (0x30 <= b <= 0x39) || (0x41 <= b <= 0x46) || (0x61 <= b <= 0x66)
}

/// The value of a hexadecimal digit byte.
pub open spec fn hex_val(b: u8) -> int {
    if 0x30 <= b <= 0x39 {
        b - 0x30
    } else if 0x41 <= b <= 0x46 {
        b - 0x41 + 10
    } else {
        b - 0x61 + 10
    }
}

/// Percent-decoding of bytes: `%` followed by two hexadecimal digits becomes the
/// byte they write; every other byte, a `%` not followed by two hexadecimal
/// digits included, is kept; `+` stays `+`.
pub open spec fn percent_decode(b: Seq<u8>) -> Seq<u8>
    decreases b.len(),
{
    if b.len() == 0 {
        Seq::empty()
    } else if b[0] == 0x25 && b.len() >= 3 && is_hex(b[1]) && is_hex(b[2]) {
        seq![(hex_val(b[1]) * 16 + hex_val(b[2])) as u8] + percent_decode(
            b.subrange(3, b.len() as int),
        )
    } else {
        seq![b[0]] + percent_decode(b.drop_first())
    }
}

/// The text that percent-decoding the UTF-8 bytes of `s` gives, or `None` when
/// the decoded bytes are not valid UTF-8.
pub open spec fn url_decoded(s: Seq<char>) -> Option<Seq<char>> {
    let bytes = percent_decode(encode_utf8(s));
    if valid_utf8(bytes) {
        Some(decode_utf8(bytes))
    } else {
        None
    }
}

/// Trusted: `urlencoding::decode` percent-decodes the UTF-8 bytes of `s`
/// (`decode_binary`: `%XX` with two hex digits becomes byte `XX`, anything else
/// is copied) and returns them as a string, failing (`FromUtf8Error`) exactly when
/// the decoded bytes are not valid UTF-8. The error value is dropped here.
#[verifier::external_body]
fn url_decode(s: &str) -> (r: Option<String>)
    ensures
        match url_decoded(s@) {
            Some(d) => r matches Some(x) && x@ == d,
            None => r is None,
        },
{
    match urlencoding::decode(s) {
        Ok(d) => Some(d.into_owned()),
        Err(_) => None,
    }
}

/// The URL scheme of local files, `file://`.
pub open spec fn file_scheme() -> Seq<char> {
    seq!['f', 'i', 'l', 'e', ':', '/', '/']
}

/// `s` begins with `p`.
pub open spec fn starts_with(s: Seq<char>, p: Seq<char>) -> bool {
    p.len() <= s.len() && s.take(p.len() as int) == p
}

/// `s` with every leading copy of the non-empty `p` removed (`str::trim_start_matches`).
pub open spec fn strip_all(s: Seq<char>, p: Seq<char>) -> Seq<char>
    decreases s.len(),
{
    if p.len() > 0 && starts_with(s, p) {
        strip_all(s.skip(p.len() as int), p)
    } else {
        s
    }
}

/// The scheme as characters.
fn file_scheme_chars() -> (r: Vec<char>)
    ensures
        r@ == file_scheme(),
{
    let mut v: Vec<char> = Vec::new();
    v.push('f');
    v.push('i');
    v.push('l');
    v.push('e');
    v.push(':');
    v.push('/');
    v.push('/');
    assert(v@ =~= file_scheme());
    v
}

/// Whether `s[from..]` begins with `p`.
fn starts_with_at(s: &[char], from: usize, p: &[char]) -> (r: bool)
    requires
        from <= s@.len(),
    ensures
        r == starts_with(s@.skip(from as int), p@),
{
    let n = s.len();
    let m = p.len();
    if n - from < m {
        return false;
    }
    let mut k: usize = 0;
    while k < m
        invariant
            n == s@.len(),
            m == p@.len(),
            from + m <= n,
            k <= m,
            forall|j: int| 0 <= j < k ==> s@[from + j] == p@[j],
        decreases m - k,
    {
        if s[from + k] != p[k] {
            proof {
                assert(s@.skip(from as int).take(m as int)[k as int] != p@[k as int]);
            }
            return false;
        }
        k = k + 1;
    }
    assert(s@.skip(from as int).take(m as int) =~= p@);
    true
}

/// The decoded path of a local-file URL: `None` unless `url` starts with
/// `file://` and decodes (percent-decoding, then UTF-8) to a string, whose
/// leading `file://` prefixes are then removed.
pub open spec fn spec_track_path(url: Seq<char>) -> Option<Seq<char>> {
    if starts_with(url, file_scheme()) {
        match url_decoded(url) {
            Some(d) => Some(strip_all(d, file_scheme())),
            None => None,
        }
    } else {
        None
    }
}

/// The local path of the track at `url`, when `url` is a `file://` URL that
/// decodes to a string.
pub fn track_path(url: &str) -> (r: Option<String>)
    ensures
        match spec_track_path(url@) {
            Some(p) => r matches Some(x) && x@ == p,
            None => r is None,
        },
{
    let u = chars_of(url);
    let scheme = file_scheme_chars();
    assert(u@.skip(0) =~= u@);
    if !starts_with_at(u.as_slice(), 0, scheme.as_slice()) {
        return None;
    }
    match url_decode(url) {
        None => None,
        Some(decoded) => {
            let d = chars_of(decoded.as_str());
            let n = d.len();
            let mut from: usize = 0;
            assert(d@.skip(0) =~= d@);
            while starts_with_at(d.as_slice(), from, scheme.as_slice())
                invariant
                    n == d@.len(),
                    from <= n,
                    scheme@ == file_scheme(),
                    strip_all(d@.skip(from as int), file_scheme()) == strip_all(
                        d@,
                        file_scheme(),
                    ),
                decreases n - from,
            {
                assert(d@.skip(from as int).skip(7) =~= d@.skip(from + 7));
                from = from + 7;
            }
            let rest = sub_chars(d.as_slice(), from, n);
            assert(rest@ =~= d@.skip(from as int));
            Some(string_from_chars(rest.as_slice()))
        },
    }
}

/// The cover-art path of a track: the art URL (or nothing) without its one
/// leading `file://` (or nothing when it has none), percent-decoded (or nothing
/// when that fails).
pub open spec fn spec_cover_path(art_url: Option<Seq<char>>) -> Seq<char> {
    let a = match art_url {
        Some(s) => s,
        None => Seq::empty(),
    };
    let b = if starts_with(a, file_scheme()) {
        a.skip(7)
    } else {
        Seq::empty()
    };
    match url_decoded(b) {
        Some(d) => d,
        None => Seq::empty(),
    }
}

/// The local path of a track's cover art, from its art URL.
pub fn cover_path(art_url: Option<&str>) -> (r: String)
    ensures
        r@ == spec_cover_path(
            match art_url {
                Some(s) => Some(s@),
                None => None,
            },
        ),
{
    let a: Vec<char> = match art_url {
        Some(s) => chars_of(s),
        None => Vec::new(),
    };
    let scheme = file_scheme_chars();
    assert(a@.skip(0) =~= a@);
    let b: Vec<char> = if starts_with_at(a.as_slice(), 0, scheme.as_slice()) {
        sub_chars(a.as_slice(), 7, a.len())
    } else {
        Vec::new()
    };
    assert(b@ == (if starts_with(a@, file_scheme()) { a@.skip(7) } else { Seq::empty() }));
    let bs = string_from_chars(b.as_slice());
    match url_decode(bs.as_str()) {
        Some(d) => d,
        None => String::new(),
    }
}

/// Bytes with a leading or continuation bit pattern of UTF-8 are never `%`.
proof fn lemma_high_bytes_not_percent(y: u8)
    by (bit_vector)
    ensures
        (0xC0u8 | y) != 0x25u8,
        (0xE0u8 | y) != 0x25u8,
        (0xF0u8 | y) != 0x25u8,
        (0x80u8 | y) != 0x25u8,
{
}

/// A one-byte scalar is encoded as itself.
proof fn lemma_ascii_byte(c: u32)
    by (bit_vector)
    requires
        c <= 0x7F,
    ensures
        ((c & 0x7F) as u8 == 0x25u8) == (c == 0x25),
{
}

/// The UTF-8 encoding of a character other than `%` holds no `%` byte.
proof fn lemma_scalar_no_percent(c: char)
    requires
        c != '%',
    ensures
        forall|k: int| 0 <= k < encode_scalar(c as u32).len() ==> #[trigger] encode_scalar(
            c as u32,
        )[k] != 0x25u8,
{
    let u = c as u32;
    if u <= 0x7F {
        lemma_ascii_byte(u);
    } else {
        lemma_high_bytes_not_percent(((u >> 6) & 0x1F) as u8);
        lemma_high_bytes_not_percent(((u >> 12) & 0x0F) as u8);
        lemma_high_bytes_not_percent(((u >> 18) & 0x7) as u8);
        lemma_high_bytes_not_percent((u & 0x3F) as u8);
        lemma_high_bytes_not_percent(((u >> 6) & 0x3F) as u8);
        lemma_high_bytes_not_percent(((u >> 12) & 0x3F) as u8);
    }
}

/// The UTF-8 encoding of a text without `%` holds no `%` byte.
proof fn lemma_encode_no_percent(s: Seq<char>)
    requires
        forall|i: int| 0 <= i < s.len() ==> s[i] != '%',
    ensures
        forall|k: int| 0 <= k < encode_utf8(s).len() ==> #[trigger] encode_utf8(s)[k] != 0x25u8,
    decreases s.len(),
{
    if s.len() > 0 {
        let rest = s.drop_first();
        assert forall|i: int| 0 <= i < rest.len() implies rest[i] != '%' by {
            assert(rest[i] == s[i + 1]);
        }
        lemma_encode_no_percent(rest);
        lemma_scalar_no_percent(s[0]);
        let e = encode_utf8(s);
        let h = encode_scalar(s[0] as u32);
        assert(e == h + encode_utf8(rest));
        assert forall|k: int| 0 <= k < e.len() implies #[trigger] e[k] != 0x25u8 by {
            if k < h.len() {
                assert(e[k] == h[k]);
            } else {
                assert(e[k] == encode_utf8(rest)[k - h.len()]);
            }
        }
    }
}

/// Percent-decoding bytes without `%` leaves them as they are.
proof fn lemma_decode_no_percent(b: Seq<u8>)
    requires
        forall|k: int| 0 <= k < b.len() ==> b[k] != 0x25u8,
    ensures
        percent_decode(b) == b,
    decreases b.len(),
{
    if b.len() > 0 {
        let rest = b.drop_first();
        assert forall|k: int| 0 <= k < rest.len() implies rest[k] != 0x25u8 by {
            assert(rest[k] == b[k + 1]);
        }
        lemma_decode_no_percent(rest);
        assert(seq![b[0]] + rest =~= b);
    }
}

/// Decoding a text without `%` gives it back unchanged.
pub proof fn lemma_decode_plain_text(s: Seq<char>)
    requires
        forall|i: int| 0 <= i < s.len() ==> s[i] != '%',
    ensures
        url_decoded(s) == Some(s),
{
    lemma_encode_no_percent(s);
    lemma_decode_no_percent(encode_utf8(s));
    encode_utf8_valid_utf8(s);
    encode_utf8_decode_utf8(s);
}

/// The URL `file://` + `p` of a path `p` without `%` (and not itself starting
/// with `file://`) is the local track path `p`.
pub proof fn lemma_plain_file_url(p: Seq<char>)
    requires
        forall|i: int| 0 <= i < p.len() ==> p[i] != '%',
        !starts_with(p, file_scheme()),
    ensures
        spec_track_path(file_scheme() + p) == Some(p),
{
    let u = file_scheme() + p;
    assert forall|i: int| 0 <= i < u.len() implies u[i] != '%' by {
        if i >= 7 {
            assert(u[i] == p[i - 7]);
        }
    }
    lemma_decode_plain_text(u);
    assert(u.take(7) =~= file_scheme());
    assert(u.skip(7) =~= p);
    assert(strip_all(u, file_scheme()) == strip_all(u.skip(7), file_scheme()));
}

} // verus!
