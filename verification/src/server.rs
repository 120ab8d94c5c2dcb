//! The per-connection logic of the static file server: reading the
//! request path out of the request text, percent-decoding it, resolving
//! it against the output directory, and choosing status line and file.
//! The socket itself is handled outside the library.
use vstd::prelude::*;

use crate::errors::ChabloError;
use crate::text::{is_space, is_space_char, lemma_token_len_char, ws_tokens};

verus! {

/// The position of the first line break in `s`, or its length.
pub open spec fn newline_pos(s: Seq<char>) -> nat
    decreases s.len(),
{
    if s.len() == 0 || s[0] == '\n' {
        0
    } else {
        1 + newline_pos(s.drop_first())
    }
}

/// The position of the first line break is pinned by the characters.
pub proof fn lemma_newline_pos_char(s: Seq<char>, k: int)
    requires
        0 <= k <= s.len(),
        forall|j: int| 0 <= j < k ==> s[j] != '\n',
        k == s.len() || s[k] == '\n',
    ensures
        newline_pos(s) == k,
    decreases s.len(),
{
    if s.len() > 0 && k > 0 {
        lemma_newline_pos_char(s.drop_first(), k - 1);
    }
}

/// The first line of `s`: everything before the first line break, with a
/// trailing carriage return removed, as `str::lines` yields it.
pub open spec fn first_line(s: Seq<char>) -> Seq<char> {
    let raw = s.subrange(0, newline_pos(s) as int);
    if raw.len() > 0 && raw.last() == '\r' {
        raw.drop_last()
    } else {
        raw
    }
}

/// The raw request path: the second whitespace-separated word of the
/// request line, or `/` when the line has fewer than two words.
pub open spec fn spec_request_path(s: Seq<char>) -> Seq<char> {
    let toks = ws_tokens(first_line(s));
    if toks.len() >= 2 {
        toks[1]
    } else {
        "/"@
    }
}

/// The second whitespace-separated word of `line`, if it has one.
fn second_token<'a>(line: &'a str) -> (r: Option<&'a str>)
    ensures
        ws_tokens(line@).len() >= 2 ==> (r matches Some(t) && t@ == ws_tokens(line@)[1]),
        ws_tokens(line@).len() < 2 ==> r is None,
{
    let n = line.unicode_len();
    let mut i: usize = 0;
    let mut got_first = false;
    let ghost mut consumed: Seq<Seq<char>> = Seq::empty();
    proof {
        assert(line@.subrange(0, n as int) =~= line@);
        assert(consumed + ws_tokens(line@) =~= ws_tokens(line@));
    }
    while i < n
        invariant
            n == line@.len(),
            i <= n,
            consumed.len() == if got_first {
                1int
            } else {
                0int
            },
            ws_tokens(line@) == consumed + ws_tokens(line@.subrange(i as int, n as int)),
        decreases n - i,
    {
        let ghost suffix = line@.subrange(i as int, n as int);
        let c = line.get_char(i);
        if is_space(c) {
            proof {
                assert(suffix.drop_first() =~= line@.subrange(i + 1, n as int));
            }
            i += 1;
        } else {
            let mut j = i + 1;
            while j < n && !is_space(line.get_char(j))
                invariant
                    n == line@.len(),
                    i < j <= n,
                    forall|k: int| i <= k < j ==> !is_space_char(line@[k]),
                decreases n - j,
            {
                j += 1;
            }
            proof {
                assert forall|k: int| 0 <= k < j - i implies !is_space_char(suffix[k]) by {
                    assert(suffix[k] == line@[i + k]);
                }
                lemma_token_len_char(suffix, j - i);
                let tok = suffix.subrange(0, j - i);
                assert(tok =~= line@.subrange(i as int, j as int));
                assert(ws_tokens(suffix) == seq![tok] + ws_tokens(
                    suffix.subrange(j - i, suffix.len() as int),
                ));
                assert(suffix.subrange(j - i, suffix.len() as int) =~= line@.subrange(
                    j as int,
                    n as int,
                ));
            }
            if !got_first {
                proof {
                    consumed = consumed.push(line@.subrange(i as int, j as int));
                    assert(consumed + ws_tokens(line@.subrange(j as int, n as int)) =~= seq![
                        line@.subrange(i as int, j as int),
                    ] + ws_tokens(line@.subrange(j as int, n as int)));
                }
                got_first = true;
                i = j;
            } else {
                // second word: this is the one
                let t = line.substring_char(i, j);
                proof {
                    assert(ws_tokens(line@)[1] == ws_tokens(suffix)[0]);
                }
                return Some(t);
            }
        }
    }
    proof {
        assert(line@.subrange(n as int, n as int) =~= Seq::<char>::empty());
        assert(ws_tokens(line@) =~= consumed);
    }
    None
}

/// Reads the raw request path out of the request text: second word of
/// the first line, `/` when there is none.
pub fn parse_request_path(request: &str) -> (r: String)
    ensures
        r@ == spec_request_path(request@),
{
    let n = request.unicode_len();
    let mut e: usize = 0;
    while e < n && request.get_char(e) != '\n'
        invariant
            n == request@.len(),
            e <= n,
            forall|j: int| 0 <= j < e ==> request@[j] != '\n',
        decreases n - e,
    {
        e += 1;
    }
    proof {
        lemma_newline_pos_char(request@, e as int);
    }
    let line_end = if e > 0 && request.get_char(e - 1) == '\r' {
        e - 1
    } else {
        e
    };
    let line = request.substring_char(0, line_end);
    proof {
        let raw = request@.subrange(0, e as int);
        if e > 0 && request@[e - 1] == '\r' {
            assert(raw.drop_last() =~= request@.subrange(0, e - 1));
        }
        assert(line@ == first_line(request@));
    }
    match second_token(line) {
        Some(t) => String::from_str(t),
        None => String::from_str("/"),
    }
}

/// Whether `c` writes one of the sixteen hexadecimal digits.
pub open spec fn is_hex_digit(c: char) -> bool {
    ||| 48 <= c as u32 && c as u32 <= 57
    ||| 97 <= c as u32 && c as u32 <= 102
    ||| 65 <= c as u32 && c as u32 <= 70
}

/// The value of a hexadecimal digit.
pub open spec fn hex_val(c: char) -> nat
    recommends
        is_hex_digit(c),
{
    if 48 <= c as u32 && c as u32 <= 57 {
        (c as u32 - 48) as nat
    } else if 97 <= c as u32 && c as u32 <= 102 {
        (c as u32 - 87) as nat
    } else {
        (c as u32 - 55) as nat
    }
}

/// The byte a two-digit percent escape denotes.
pub open spec fn hex_byte(h: char, l: char) -> u8
    recommends
        is_hex_digit(h),
        is_hex_digit(l),
{
    (16 * hex_val(h) + hex_val(l)) as u8
}

/// The low byte of a character, as a `u8` cast takes it.
pub open spec fn low_byte(c: char) -> u8 {
    (c as u32 % 256) as u8
}

/// The bytes a percent-encoded path denotes: a `%` consumes exactly the
/// two following characters as a hex byte, every other character passes
/// through as its low byte; a `%` followed by fewer than two characters,
/// or by anything but hex digits, spoils the whole path.
pub open spec fn spec_percent_decode(s: Seq<char>) -> Option<Seq<u8>>
    decreases s.len(),
{
    if s.len() == 0 {
        Some(Seq::empty())
    } else if s[0] == '%' {
        if s.len() >= 3 && is_hex_digit(s[1]) && is_hex_digit(s[2]) {
            match spec_percent_decode(s.subrange(3, s.len() as int)) {
                Some(rest) => Some(seq![hex_byte(s[1], s[2])] + rest),
                None => None,
            }
        } else {
            None
        }
    } else {
        match spec_percent_decode(s.drop_first()) {
            Some(rest) => Some(seq![low_byte(s[0])] + rest),
            None => None,
        }
    }
}

/// Malformed-escape law: a `%` that is followed by fewer than two
/// characters, or by anything but hex digits, makes the whole decoding
/// fail, wherever it stands behind escape-free text.
pub proof fn lemma_malformed_escape_fails(s: Seq<char>, i: int)
    requires
        0 <= i < s.len(),
        s[i] == '%',
        forall|j: int| 0 <= j < i ==> s[j] != '%',
        i + 3 > s.len() || !is_hex_digit(s[i + 1]) || !is_hex_digit(s[i + 2]),
    ensures
        spec_percent_decode(s) is None,
    decreases i,
{
    if i > 0 {
        let t = s.drop_first();
        assert forall|j: int| 0 <= j < i - 1 implies t[j] != '%' by {
            assert(t[j] == s[j + 1]);
        }
        lemma_malformed_escape_fails(t, i - 1);
    }
}

/// What `String::from_utf8_lossy` returns for these bytes; the result is
/// a function of the bytes alone.
pub uninterp spec fn lossy_of(b: Seq<u8>) -> Seq<char>;

/// Relies on String::from_utf8_lossy: the decoding depends on the bytes
/// alone, and bytes that are valid UTF-8 decode to exactly the
/// characters they encode.
#[verifier::external_body]
fn bytes_to_string_lossy(v: &Vec<u8>) -> (r: String)
    ensures
        r@ == lossy_of(v@),
        vstd::utf8::valid_utf8(v@) ==> vstd::utf8::encode_utf8(r@) == v@,
{
    String::from_utf8_lossy(v.as_slice()).to_string()
}

/// The value of `c` as a hexadecimal digit, if it is one.
fn hex_digit_value(c: char) -> (r: Option<u32>)
    ensures
        r is Some <==> is_hex_digit(c),
        r matches Some(v) ==> v == hex_val(c),
{
    let v = c as u32;
    if 48 <= v && v <= 57 {
        Some(v - 48)
    } else if 97 <= v && v <= 102 {
        Some(v - 87)
    } else if 65 <= v && v <= 70 {
        Some(v - 55)
    } else {
        None
    }
}

/// Percent-decodes a request path. A malformed escape aborts the
/// decoding; everything else passes through byte by byte.
pub fn decode_percent_encoded_string(encoded: &str) -> (r: Result<String, ChabloError>)
    ensures
        r is Ok <==> spec_percent_decode(encoded@) is Some,
        r matches Ok(out) ==> out@ == lossy_of(spec_percent_decode(encoded@).unwrap()),
        r matches Err(e) ==> e == ChabloError::ParseIntError,
{
    let n = encoded.unicode_len();
    let mut bytes: Vec<u8> = Vec::new();
    let mut i: usize = 0;
    proof {
        assert(encoded@.subrange(0, n as int) =~= encoded@);
        assert(bytes@ + spec_percent_decode(encoded@).unwrap() =~= spec_percent_decode(
            encoded@,
        ).unwrap());
    }
    while i < n
        invariant
            n == encoded@.len(),
            i <= n,
            spec_percent_decode(encoded@.subrange(i as int, n as int)) matches Some(rest)
                ==> spec_percent_decode(encoded@) == Some(bytes@ + rest),
            spec_percent_decode(encoded@.subrange(i as int, n as int)) is None
                ==> spec_percent_decode(encoded@) is None,
        decreases n - i,
    {
        let ghost suffix = encoded@.subrange(i as int, n as int);
        let c = encoded.get_char(i);
        if c == '%' {
            if n - i < 3 {
                return Err(ChabloError::ParseIntError);
            }
            let h = encoded.get_char(i + 1);
            let l = encoded.get_char(i + 2);
            let hv = match hex_digit_value(h) {
                Some(v) => v,
                None => {
                    return Err(ChabloError::ParseIntError);
                },
            };
            let lv = match hex_digit_value(l) {
                Some(v) => v,
                None => {
                    return Err(ChabloError::ParseIntError);
                },
            };
            let ghost old_bytes = bytes@;
            bytes.push((16 * hv + lv) as u8);
            proof {
                assert(suffix[1] == encoded@[i + 1]);
                assert(suffix[2] == encoded@[i + 2]);
                assert(suffix.subrange(3, suffix.len() as int) =~= encoded@.subrange(
                    i + 3,
                    n as int,
                ));
                assert(bytes@ =~= old_bytes.push(hex_byte(suffix[1], suffix[2])));
                if spec_percent_decode(encoded@.subrange(i + 3, n as int)) is Some {
                    let rest = spec_percent_decode(encoded@.subrange(i + 3, n as int)).unwrap();
                    assert(spec_percent_decode(suffix) == Some(
                        seq![hex_byte(suffix[1], suffix[2])] + rest,
                    ));
                    assert(old_bytes + (seq![hex_byte(suffix[1], suffix[2])] + rest) =~= bytes@
                        + rest);
                }
            }
            i += 3;
        } else {
            let ghost old_bytes = bytes@;
            let v = c as u32;
            bytes.push((v % 256) as u8);
            proof {
                assert(suffix.drop_first() =~= encoded@.subrange(i + 1, n as int));
                assert(bytes@ =~= old_bytes.push(low_byte(suffix[0])));
                if spec_percent_decode(encoded@.subrange(i + 1, n as int)) is Some {
                    let rest = spec_percent_decode(encoded@.subrange(i + 1, n as int)).unwrap();
                    assert(spec_percent_decode(suffix) == Some(seq![low_byte(suffix[0])] + rest));
                    assert(old_bytes + (seq![low_byte(suffix[0])] + rest) =~= bytes@ + rest);
                }
            }
            i += 1;
        }
    }
    proof {
        assert(encoded@.subrange(n as int, n as int) =~= Seq::<char>::empty());
        assert(bytes@ + Seq::<u8>::empty() =~= bytes@);
    }
    Ok(bytes_to_string_lossy(&bytes))
}

/// The file a decoded path points at: the listing page for the root
/// path, anything else taken as a name under the output root.
pub open spec fn spec_resolved(d: Seq<char>) -> Seq<char> {
    "./public"@ + (if d == seq!['/'] {
        "/index.html"@
    } else {
        d
    })
}

/// Resolves a decoded request path against the output root.
pub fn resolve_path(decoded: &str) -> (r: String)
    ensures
        r@ == spec_resolved(decoded@),
{
    let is_root = decoded.unicode_len() == 1 && decoded.get_char(0) == '/';
    proof {
        if decoded@.len() == 1 && decoded@[0] == '/' {
            assert(decoded@ =~= seq!['/']);
        }
    }
    let base = String::from_str("./public");
    if is_root {
        base.concat("/index.html")
    } else {
        base.concat(decoded)
    }
}

/// The name ends in the literal suffix `.html`.
pub open spec fn ends_with_html(s: Seq<char>) -> bool {
    s.len() >= 5 && s[s.len() - 5] == '.' && s[s.len() - 4] == 'h' && s[s.len() - 3] == 't' && s[
        s.len() - 2] == 'm' && s[s.len() - 1] == 'l'
}

/// Whether the file name carries the `.html` suffix.
fn has_html_suffix(s: &str) -> (r: bool)
    ensures
        r == ends_with_html(s@),
{
    let n = s.unicode_len();
    if n < 5 {
        return false;
    }
    s.get_char(n - 5) == '.' && s.get_char(n - 4) == 'h' && s.get_char(n - 3) == 't' && s.get_char(
        n - 2,
    ) == 'm' && s.get_char(n - 1) == 'l'
}

/// The serving decision for one resolved name: the file itself with a
/// `200` status only when it exists on disk and carries the `.html`
/// suffix; every other case falls back to the fixed `404` page with a
/// `404` status.
pub fn choose_response(file_exists: bool, filename: &str) -> (r: (String, String))
    ensures
        file_exists && ends_with_html(filename@) ==> r.0@ == "HTTP/1.1 200 OK\r\n\r\n"@ && r.1@
            == filename@,
        !(file_exists && ends_with_html(filename@)) ==> r.0@ == "HTTP/1.1 404 NOT FOUND\r\n\r\n"@
            && r.1@ == "./public/404.html"@,
{
    if file_exists && has_html_suffix(filename) {
        (String::from_str("HTTP/1.1 200 OK\r\n\r\n"), String::from_str(filename))
    } else {
        (String::from_str("HTTP/1.1 404 NOT FOUND\r\n\r\n"), String::from_str("./public/404.html"))
    }
}

/// One response: the status line immediately followed by the file bytes,
/// nothing else.
pub fn build_response(status_line: &str, contents: &str) -> (r: String)
    ensures
        r@ == status_line@ + contents@,
{
    String::from_str(status_line).concat(contents)
}

/// The file to look for, as a function of the raw request text; nothing
/// when the path carries a malformed percent escape.
pub open spec fn spec_probe_path(request: Seq<char>) -> Option<Seq<char>> {
    match spec_percent_decode(spec_request_path(request)) {
        Some(bytes) => Some(spec_resolved(lossy_of(bytes))),
        None => None,
    }
}

/// The compute half of one connection, up to the disk: reads the request
/// path, decodes it, and resolves it to the file the server must probe.
/// A malformed escape aborts this connection alone.
pub fn route_request(request: &str) -> (r: Result<String, ChabloError>)
    ensures
        r is Ok <==> spec_probe_path(request@) is Some,
        r matches Ok(f) ==> f@ == spec_probe_path(request@).unwrap(),
        r matches Err(e) ==> e == ChabloError::ParseIntError,
{
    let raw = parse_request_path(request);
    let decoded = match decode_percent_encoded_string(raw.as_str()) {
        Ok(d) => d,
        Err(e) => {
            return Err(e);
        },
    };
    Ok(resolve_path(decoded.as_str()))
}

} // verus!
