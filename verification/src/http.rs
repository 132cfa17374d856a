//! The `PHPSESSID` cookie of an HTTP message.
//!
//! A payload is searched only if it begins an HTTP message: its first line
//! must be the request line of a `GET` or `POST` request or the status line
//! of a response. The header lines after it are read up to the first
//! `Cookie` or `Set-Cookie` line; no line after that one is looked at.

use vstd::prelude::*;
use vstd::slice::slice_subrange;
use vstd::utf8::{decode_utf8, valid_utf8};
use crate::cursor::{
    cut_of,
    find_byte,
    index_of,
    lemma_find_byte,
    lemma_find_byte_cut,
    lemma_find_byte_is,
    ByteCursor,
    Scan,
    LINE_FEED,
};
use crate::text::{decode_text, starts_with, trim, trimmed};

verus! {

/// The byte that separates the cookies of a header line.
pub const SEMICOLON: u8 = 0x3b;

/// The bytes of `GET `, which begin the request line of a `GET` request.
pub open spec fn get_line() -> Seq<u8> {
    seq![0x47u8, 0x45u8, 0x54u8, 0x20u8]
}

/// The bytes of `POST `, which begin the request line of a `POST` request.
pub open spec fn post_line() -> Seq<u8> {
    seq![0x50u8, 0x4fu8, 0x53u8, 0x54u8, 0x20u8]
}

/// The bytes of `HTTP/`, which begin the status line of a response.
pub open spec fn status_line() -> Seq<u8> {
    seq![0x48u8, 0x54u8, 0x54u8, 0x50u8, 0x2fu8]
}

/// The bytes of `Cookie: `, which begin the cookie header of a request.
pub open spec fn cookie_header() -> Seq<u8> {
    seq![0x43u8, 0x6fu8, 0x6fu8, 0x6bu8, 0x69u8, 0x65u8, 0x3au8, 0x20u8]
}

/// The bytes of `Set-Cookie: `, which begin the cookie header of a response.
pub open spec fn set_cookie_header() -> Seq<u8> {
    seq![
        0x53u8,
        0x65u8,
        0x74u8,
        0x2du8,
        0x43u8,
        0x6fu8,
        0x6fu8,
        0x6bu8,
        0x69u8,
        0x65u8,
        0x3au8,
        0x20u8,
    ]
}

/// The bytes of `PHPSESSID=`, which begin the cookie that holds a session id.
pub open spec fn session_key() -> Seq<u8> {
    seq![0x50u8, 0x48u8, 0x50u8, 0x53u8, 0x45u8, 0x53u8, 0x53u8, 0x49u8, 0x44u8, 0x3du8]
}

/// Whether `line` begins an HTTP request of a kind that is searched, or an
/// HTTP response.
pub open spec fn is_message_start(line: Seq<u8>) -> bool {
    get_line().is_prefix_of(line) || post_line().is_prefix_of(line) || status_line().is_prefix_of(
        line,
    )
}

/// The session id in the cookies of `list` from the index `from` on. The
/// cookies are the pieces between semicolons, each without the white space
/// around it; the id is what follows `PHPSESSID=` in the first piece that
/// begins with it.
pub open spec fn session_id_from(list: Seq<u8>, from: int) -> Option<Seq<u8>>
    decreases list.len() - from,
    via session_id_from_decreases
{
    let semi = find_byte(list, from, SEMICOLON);
    let piece = trimmed(list.subrange(from, semi));
    if from < 0 || from > list.len() {
        None
    } else if session_key().is_prefix_of(piece) {
        Some(piece.skip(session_key().len() as int))
    } else if semi < list.len() {
        session_id_from(list, semi + 1)
    } else {
        None
    }
}

#[via_fn]
proof fn session_id_from_decreases(list: Seq<u8>, from: int) {
    if 0 <= from <= list.len() {
        lemma_find_byte(list, from, SEMICOLON);
    }
}

/// What the cookies of a header line give: the session id in them, marked
/// with where the line came from, or nothing. `end` is the offset after the
/// line.
pub open spec fn cookie_scan(origin: bool, list: Seq<u8>, end: int) -> Scan<(bool, Seq<u8>)> {
    match session_id_from(list, 0) {
        Some(id) => Scan::Found((origin, id), end),
        None => Scan::Nothing(end),
    }
}

/// The scan of the header lines from `pos` on. A line is taken without the
/// white space around it. The scan ends with nothing at an empty line and
/// where no line feed is left; it ends at the first line that begins with
/// `Cookie: ` or `Set-Cookie: `, with what the cookies of that line give.
pub open spec fn scan_header_lines(s: Seq<u8>, pos: int) -> Scan<(bool, Seq<u8>)>
    decreases s.len() - pos,
    via scan_header_lines_decreases
{
    let lf = find_byte(s, pos, LINE_FEED);
    let line = trimmed(s.subrange(pos, lf));
    if lf >= s.len() {
        Scan::Nothing(pos)
    } else if line.len() == 0 {
        Scan::Nothing(lf + 1)
    } else if cookie_header().is_prefix_of(line) {
        cookie_scan(false, line.skip(cookie_header().len() as int), lf + 1)
    } else if set_cookie_header().is_prefix_of(line) {
        cookie_scan(true, line.skip(set_cookie_header().len() as int), lf + 1)
    } else {
        scan_header_lines(s, lf + 1)
    }
}

#[via_fn]
proof fn scan_header_lines_decreases(s: Seq<u8>, pos: int) {
    if 0 <= pos <= s.len() {
        lemma_find_byte(s, pos, LINE_FEED);
    }
}

/// The scan of an HTTP message from `pos` on: nothing unless the first line
/// begins a message that is searched, else the scan of the header lines.
pub open spec fn scan_message(s: Seq<u8>, pos: int) -> Scan<(bool, Seq<u8>)> {
    let lf = find_byte(s, pos, LINE_FEED);
    if lf >= s.len() {
        Scan::Nothing(pos)
    } else if !is_message_start(s.subrange(pos, lf)) {
        Scan::Nothing(lf + 1)
    } else {
        scan_header_lines(s, lf + 1)
    }
}

/// The session cookie in the payload `s`, read from `pos` on, with the
/// offset at which the search leaves the cursor. The cookie is the pair of
/// its origin (`true` for `Set-Cookie`, `false` for `Cookie`) and its value.
/// There is one if the scan of the message finds a session id and its bytes
/// are well-formed UTF-8.
pub open spec fn phpid(s: Seq<u8>, pos: int) -> (Option<(bool, Seq<char>)>, int) {
    match scan_message(s, pos) {
        Scan::Found(cookie, end) => if valid_utf8(cookie.1) {
            (Some((cookie.0, decode_utf8(cookie.1))), end)
        } else {
            (None, end)
        },
        Scan::Nothing(end) => (None, end),
        Scan::Resume(end) => (None, end),
    }
}

/// A scan of header lines leaves the cursor between the offset it began at
/// and the end of the buffer, and never asks an enclosing scan to go on.
pub proof fn lemma_header_lines_end(s: Seq<u8>, pos: int)
    requires
        0 <= pos <= s.len(),
    ensures
        pos <= scan_header_lines(s, pos).end() <= s.len(),
        !(scan_header_lines(s, pos) is Resume),
    decreases s.len() - pos,
{
    lemma_find_byte(s, pos, LINE_FEED);
    let lf = find_byte(s, pos, LINE_FEED);
    let line = trimmed(s.subrange(pos, lf));
    if lf < s.len() && line.len() != 0 && !cookie_header().is_prefix_of(line)
        && !set_cookie_header().is_prefix_of(line) {
        lemma_header_lines_end(s, lf + 1);
    }
}

/// The scan of header lines on a buffer cut to `k` bytes.
pub proof fn lemma_header_lines_cut(s: Seq<u8>, pos: int, k: int)
    requires
        0 <= pos <= k <= s.len(),
    ensures
        cut_of(scan_header_lines(s, pos), scan_header_lines(s.take(k), pos), k),
    decreases s.len() - pos,
{
    lemma_find_byte(s, pos, LINE_FEED);
    lemma_find_byte_cut(s, pos, LINE_FEED, k);
    let lf = find_byte(s, pos, LINE_FEED);
    if lf < s.len() {
        let line = trimmed(s.subrange(pos, lf));
        if lf < k {
            assert(s.take(k).subrange(pos, lf) =~= s.subrange(pos, lf));
        }
        if line.len() != 0 && !cookie_header().is_prefix_of(line)
            && !set_cookie_header().is_prefix_of(line) {
            lemma_header_lines_end(s, lf + 1);
            if lf < k {
                lemma_header_lines_cut(s, lf + 1, k);
            }
        }
    }
}

/// The scan of a message on a buffer cut to `k` bytes.
pub proof fn lemma_message_cut(s: Seq<u8>, pos: int, k: int)
    requires
        0 <= pos <= k <= s.len(),
    ensures
        cut_of(scan_message(s, pos), scan_message(s.take(k), pos), k),
{
    lemma_find_byte(s, pos, LINE_FEED);
    lemma_find_byte_cut(s, pos, LINE_FEED, k);
    let lf = find_byte(s, pos, LINE_FEED);
    if lf < s.len() {
        lemma_header_lines_end(s, lf + 1);
        if lf < k {
            assert(s.take(k).subrange(pos, lf) =~= s.subrange(pos, lf));
            lemma_header_lines_cut(s, lf + 1, k);
        }
    }
}

/// A session cookie is found only in a payload that holds the whole header
/// line of the cookie. If the payload `s`, read from `pos` on, holds a
/// cookie in a line that ends before the offset `e`, then `s` cut to fewer
/// than `e` bytes holds none, and `s` cut to `e` bytes or more holds the
/// same cookie.
pub proof fn lemma_phpid_cut(s: Seq<u8>, pos: int, k: int)
    requires
        0 <= pos,
        0 <= k <= s.len(),
        phpid(s, pos).0 is Some,
    ensures
        k < phpid(s, pos).1 ==> phpid(s.take(k), pos).0 is None,
        k >= phpid(s, pos).1 ==> phpid(s.take(k), pos) == phpid(s, pos),
{
    if pos <= k {
        lemma_message_cut(s, pos, k);
    } else {
        if pos <= s.len() {
            lemma_find_byte(s, pos, LINE_FEED);
            lemma_header_lines_end(s, find_byte(s, pos, LINE_FEED) + 1);
        }
    }
}

/// The first cookie header decides. If the line at `pos` begins with
/// `Cookie: ` or `Set-Cookie: `, the scan ends after that line, and it comes
/// to the same on every buffer that agrees with `s` up to the end of the
/// line: what follows the first cookie header is never looked at, whether
/// the header holds a session id or not.
pub proof fn lemma_first_cookie_header_decides(s: Seq<u8>, t: Seq<u8>, pos: int)
    requires
        0 <= pos <= s.len(),
        find_byte(s, pos, LINE_FEED) < s.len(),
        find_byte(s, pos, LINE_FEED) < t.len(),
        t.take(find_byte(s, pos, LINE_FEED) + 1) == s.take(find_byte(s, pos, LINE_FEED) + 1),
        cookie_header().is_prefix_of(trimmed(s.subrange(pos, find_byte(s, pos, LINE_FEED))))
            || set_cookie_header().is_prefix_of(
            trimmed(s.subrange(pos, find_byte(s, pos, LINE_FEED))),
        ),
    ensures
        scan_header_lines(s, pos).end() == find_byte(s, pos, LINE_FEED) + 1,
        scan_header_lines(t, pos) == scan_header_lines(s, pos),
{
    lemma_find_byte(s, pos, LINE_FEED);
    let lf = find_byte(s, pos, LINE_FEED);
    assert forall|j: int| 0 <= j <= lf implies t[j] == s[j] by {
        assert(t[j] == t.take(lf + 1)[j]);
        assert(s[j] == s.take(lf + 1)[j]);
    }
    lemma_find_byte_is(t, pos, LINE_FEED, lf);
    assert(t.subrange(pos, lf) =~= s.subrange(pos, lf));
}

/// A payload that does not begin with `GET `, `POST ` or `HTTP/` holds no
/// session cookie.
pub proof fn lemma_phpid_needs_message_start(s: Seq<u8>)
    requires
        !is_message_start(s),
    ensures
        phpid(s, 0).0 is None,
{
    lemma_find_byte(s, 0, LINE_FEED);
    let lf = find_byte(s, 0, LINE_FEED);
    if lf < s.len() {
        let line = s.subrange(0, lf);
        assert(is_message_start(line) ==> is_message_start(s));
    }
}

/// Whether `line` begins an HTTP request of a kind that is searched, or an
/// HTTP response.
pub fn begins_message(line: &[u8]) -> (b: bool)
    ensures
        b == is_message_start(line@),
{
    let get: [u8; 4] = [0x47, 0x45, 0x54, 0x20];
    let post: [u8; 5] = [0x50, 0x4f, 0x53, 0x54, 0x20];
    let status: [u8; 5] = [0x48, 0x54, 0x54, 0x50, 0x2f];
    assert(get@ =~= get_line());
    assert(post@ =~= post_line());
    assert(status@ =~= status_line());
    starts_with(line, get.as_slice()) || starts_with(line, post.as_slice()) || starts_with(
        line,
        status.as_slice(),
    )
}

/// Searches the cookies of `list` for the session id.
pub fn find_session_id<'a>(list: &'a [u8]) -> (r: Option<&'a [u8]>)
    ensures
        match session_id_from(list@, 0) {
            Some(id) => r is Some && r->Some_0@ == id,
            None => r is None,
        },
{
    let key: [u8; 10] = [0x50, 0x48, 0x50, 0x53, 0x45, 0x53, 0x53, 0x49, 0x44, 0x3d];
    assert(key@ =~= session_key());
    let mut from: usize = 0;
    loop
        invariant
            from <= list@.len(),
            key@ == session_key(),
            session_id_from(list@, from as int) == session_id_from(list@, 0),
        decreases list@.len() - from,
    {
        let semi = index_of(list, from, SEMICOLON);
        let piece = trim(slice_subrange(list, from, semi));
        if starts_with(piece, key.as_slice()) {
            return Some(slice_subrange(piece, 10, piece.len()));
        }
        if semi >= list.len() {
            return None;
        }
        from = semi + 1;
    }
}

/// Reads header lines from the cursor up to the first cookie header, and
/// searches that line for the session id.
pub fn walk_header_lines<'a>(cursor: &mut ByteCursor<'a>) -> (r: Option<(bool, &'a [u8])>)
    ensures
        final(cursor).bytes() == old(cursor).bytes(),
        match scan_header_lines(old(cursor).bytes(), old(cursor).offset()) {
            Scan::Found(cookie, end) => r is Some && r->Some_0.0 == cookie.0 && r->Some_0.1@
                == cookie.1 && final(cursor).offset() == end,
            Scan::Nothing(end) => r is None && final(cursor).offset() == end,
            Scan::Resume(end) => false,
        },
{
    let cookie: [u8; 8] = [0x43, 0x6f, 0x6f, 0x6b, 0x69, 0x65, 0x3a, 0x20];
    let set_cookie: [u8; 12] = [
        0x53,
        0x65,
        0x74,
        0x2d,
        0x43,
        0x6f,
        0x6f,
        0x6b,
        0x69,
        0x65,
        0x3a,
        0x20,
    ];
    assert(cookie@ =~= cookie_header());
    assert(set_cookie@ =~= set_cookie_header());
    let ghost s = cursor.bytes();
    let ghost start = cursor.offset();
    loop
        invariant
            cursor.bytes() == s,
            s == old(cursor).bytes(),
            start == old(cursor).offset(),
            cookie@ == cookie_header(),
            set_cookie@ == set_cookie_header(),
            scan_header_lines(s, cursor.offset()) == scan_header_lines(s, start),
        decreases s.len() - cursor.offset(),
    {
        proof {
            use_type_invariant(&*cursor);
            lemma_find_byte(s, cursor.offset(), LINE_FEED);
        }
        let line = match cursor.read_line() {
            Ok(l) => trim(l),
            Err(_) => {
                return None;
            },
        };
        if line.len() == 0 {
            return None;
        }
        let origin = if starts_with(line, cookie.as_slice()) {
            false
        } else if starts_with(line, set_cookie.as_slice()) {
            true
        } else {
            continue ;
        };
        let skip: usize = if origin {
            12
        } else {
            8
        };
        return match find_session_id(slice_subrange(line, skip, line.len())) {
            Some(id) => Some((origin, id)),
            None => None,
        };
    }
}

/// Extracts the `PHPSESSID` cookie of the HTTP message that begins at the
/// cursor: `true` with the value if a `Set-Cookie` header holds it, `false`
/// with the value if a `Cookie` header does. Only the first cookie header of
/// the message is searched. A payload that does not begin a `GET` or `POST`
/// request or a response, that ends before the cookie header does, or whose
/// session id is not UTF-8 gives nothing.
pub fn extract_phpid<'a>(cursor: &mut ByteCursor<'a>) -> (r: Option<(bool, &'a str)>)
    ensures
        final(cursor).bytes() == old(cursor).bytes(),
        final(cursor).offset() == phpid(old(cursor).bytes(), old(cursor).offset()).1,
        match phpid(old(cursor).bytes(), old(cursor).offset()).0 {
            Some(cookie) => r is Some && r->Some_0.0 == cookie.0 && r->Some_0.1@ == cookie.1,
            None => r is None,
        },
{
    let line = match cursor.read_line() {
        Ok(l) => l,
        Err(_) => {
            return None;
        },
    };
    if !begins_message(line) {
        return None;
    }
    match walk_header_lines(cursor) {
        Some((origin, id)) => match decode_text(id) {
            Ok(value) => Some((origin, value)),
            Err(_) => None,
        },
        None => None,
    }
}

} // verus!
