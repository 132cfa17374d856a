//! The server name that a TLS `ClientHello` announces.
//!
//! A payload is read as a run of TLS records. Each handshake record is read
//! as a run of handshake messages, and each `ClientHello` among them as a
//! fixed prelude followed by a run of extensions. The first `server_name`
//! extension of the first `ClientHello` ends the search.

use vstd::prelude::*;
use vstd::utf8::{decode_utf8, valid_utf8};
use crate::cursor::{be16, be24, can_read, cut_of, ByteCursor, Scan};
use crate::text::decode_text;

verus! {

/// The record type of a handshake record.
pub const HANDSHAKE: u8 = 22;

/// The handshake type of a `ClientHello`.
pub const CLIENT_HELLO: u8 = 1;

/// The extension type of `server_name`.
pub const SERVER_NAME: u16 = 0x0000;

/// The length of the random field of a `ClientHello`.
pub const RANDOM_LEN: usize = 32;

/// The length of what precedes the name in a `server_name` extension: the
/// length of the name list and the type of the name.
pub const NAME_HEADER_LEN: usize = 3;

/// The protocol versions that the parser accepts.
#[allow(non_camel_case_types)]
#[derive(Clone, Copy, Debug, PartialEq, Eq, Structural)]
pub enum TlsVersion {
    UNKNOWN,
    SSLv3,
    TLSv1,
    TLSv11,
    TLSv12,
}

impl TlsVersion {
    /// The version that the wire value `val` stands for.
    pub open spec fn of(val: int) -> TlsVersion {
        if val == 0x0300 {
            TlsVersion::SSLv3
        } else if val == 0x0301 {
            TlsVersion::TLSv1
        } else if val == 0x0302 {
            TlsVersion::TLSv11
        } else if val == 0x0303 {
            TlsVersion::TLSv12
        } else {
            TlsVersion::UNKNOWN
        }
    }

    /// The version that the wire value `val` stands for; `UNKNOWN` for every
    /// value but the four known ones.
    pub fn from_u16(val: u16) -> (v: TlsVersion)
        ensures
            v == TlsVersion::of(val as int),
    {
        match val {
            0x0300 => TlsVersion::SSLv3,
            0x0301 => TlsVersion::TLSv1,
            0x0302 => TlsVersion::TLSv11,
            0x0303 => TlsVersion::TLSv12,
            _ => TlsVersion::UNKNOWN,
        }
    }
}

/// The offset after a block whose length is the byte at `pos`, or, if the
/// buffer is too short, the offset at which reading stops.
pub open spec fn after_block8(s: Seq<u8>, pos: int) -> Result<int, int> {
    if !can_read(s, pos, 1) {
        Err(pos)
    } else if !can_read(s, pos + 1, s[pos] as int) {
        Err(pos + 1)
    } else {
        Ok(pos + 1 + s[pos])
    }
}

/// The offset after a block whose length is the two-byte number at `pos`,
/// or, if the buffer is too short, the offset at which reading stops.
pub open spec fn after_block16(s: Seq<u8>, pos: int) -> Result<int, int> {
    if !can_read(s, pos, 2) {
        Err(pos)
    } else if !can_read(s, pos + 2, be16(s, pos)) {
        Err(pos + 2)
    } else {
        Ok(pos + 2 + be16(s, pos))
    }
}

/// The scan of the extensions from `pos` on, as long as `pos` is before
/// `end`. An extension is a two-byte type, a two-byte length and a body.
/// The body of a `server_name` extension is three bytes, a two-byte length
/// and the name.
pub open spec fn scan_extensions(s: Seq<u8>, pos: int, end: int) -> Scan<Seq<u8>>
    decreases s.len() - pos,
{
    if pos >= end {
        Scan::Resume(pos)
    } else if !can_read(s, pos, 2) {
        Scan::Nothing(pos)
    } else if !can_read(s, pos + 2, 2) {
        Scan::Nothing(pos + 2)
    } else if be16(s, pos) != SERVER_NAME {
        if !can_read(s, pos + 4, be16(s, pos + 2)) {
            Scan::Nothing(pos + 4)
        } else {
            scan_extensions(s, pos + 4 + be16(s, pos + 2), end)
        }
    } else if !can_read(s, pos + 4, NAME_HEADER_LEN as int) {
        Scan::Nothing(pos + 4)
    } else if !can_read(s, pos + 7, 2) {
        Scan::Nothing(pos + 7)
    } else if !can_read(s, pos + 9, be16(s, pos + 7)) {
        Scan::Nothing(pos + 9)
    } else {
        Scan::Found(s.subrange(pos + 9, pos + 9 + be16(s, pos + 7)), pos + 9 + be16(s, pos + 7))
    }
}

/// The scan of the body of a `ClientHello` at `pos`: a two-byte version, a
/// random field, a session id, a list of cipher suites and a list of
/// compression methods, each list behind its length, then the two-byte
/// length of the extensions and the extensions.
pub open spec fn scan_client_hello(s: Seq<u8>, pos: int) -> Scan<Seq<u8>> {
    if !can_read(s, pos, 2) {
        Scan::Nothing(pos)
    } else if TlsVersion::of(be16(s, pos)) == TlsVersion::UNKNOWN {
        Scan::Nothing(pos + 2)
    } else if !can_read(s, pos + 2, RANDOM_LEN as int) {
        Scan::Nothing(pos + 2)
    } else {
        match after_block8(s, pos + 2 + RANDOM_LEN) {
            Err(p) => Scan::Nothing(p),
            Ok(ciphers) => match after_block16(s, ciphers) {
                Err(p) => Scan::Nothing(p),
                Ok(compressions) => match after_block8(s, compressions) {
                    Err(p) => Scan::Nothing(p),
                    Ok(p) => if !can_read(s, p, 2) {
                        Scan::Nothing(p)
                    } else {
                        scan_extensions(s, p + 2, p + 2 + be16(s, p))
                    },
                },
            },
        }
    }
}

/// A scan of extensions leaves the cursor between the offset it began at
/// and the end of the buffer.
pub proof fn lemma_extensions_end(s: Seq<u8>, pos: int, end: int)
    requires
        0 <= pos <= s.len(),
    ensures
        pos <= scan_extensions(s, pos, end).end() <= s.len(),
    decreases s.len() - pos,
{
    if pos < end && can_read(s, pos, 2) && can_read(s, pos + 2, 2) && be16(s, pos) != SERVER_NAME
        && can_read(s, pos + 4, be16(s, pos + 2)) {
        lemma_extensions_end(s, pos + 4 + be16(s, pos + 2), end);
    }
}

/// A scan of a `ClientHello` leaves the cursor between the offset it began
/// at and the end of the buffer.
pub proof fn lemma_client_hello_end(s: Seq<u8>, pos: int)
    requires
        0 <= pos <= s.len(),
    ensures
        pos <= scan_client_hello(s, pos).end() <= s.len(),
{
    if can_read(s, pos, 2) && can_read(s, pos + 2, RANDOM_LEN as int) {
        if let Ok(ciphers) = after_block8(s, pos + 2 + RANDOM_LEN) {
            if let Ok(compressions) = after_block16(s, ciphers) {
                if let Ok(p) = after_block8(s, compressions) {
                    if can_read(s, p, 2) {
                        lemma_extensions_end(s, p + 2, p + 2 + be16(s, p));
                    }
                }
            }
        }
    }
}

/// The scan of the handshake messages from `pos` on, as long as `pos` is
/// before `end`. A message is a one-byte type, a three-byte length and a
/// body. After a `ClientHello` without a server name the scan goes on where
/// the scan of its extensions ended.
pub open spec fn scan_handshakes(s: Seq<u8>, pos: int, end: int) -> Scan<Seq<u8>>
    decreases s.len() - pos,
    via scan_handshakes_decreases
{
    if pos >= end {
        Scan::Resume(pos)
    } else if !can_read(s, pos, 1) {
        Scan::Nothing(pos)
    } else if !can_read(s, pos + 1, 3) {
        Scan::Nothing(pos + 1)
    } else if s[pos] != CLIENT_HELLO {
        if !can_read(s, pos + 4, be24(s, pos + 1)) {
            Scan::Nothing(pos + 4)
        } else {
            scan_handshakes(s, pos + 4 + be24(s, pos + 1), end)
        }
    } else {
        match scan_client_hello(s, pos + 4) {
            Scan::Resume(p) => scan_handshakes(s, p, end),
            other => other,
        }
    }
}

#[via_fn]
proof fn scan_handshakes_decreases(s: Seq<u8>, pos: int, end: int) {
    if can_read(s, pos, 1) && can_read(s, pos + 1, 3) {
        lemma_client_hello_end(s, pos + 4);
    }
}

/// A scan of handshake messages leaves the cursor between the offset it
/// began at and the end of the buffer.
pub proof fn lemma_handshakes_end(s: Seq<u8>, pos: int, end: int)
    requires
        0 <= pos <= s.len(),
    ensures
        pos <= scan_handshakes(s, pos, end).end() <= s.len(),
    decreases s.len() - pos,
{
    if pos < end && can_read(s, pos, 1) && can_read(s, pos + 1, 3) {
        if s[pos] != CLIENT_HELLO {
            if can_read(s, pos + 4, be24(s, pos + 1)) {
                lemma_handshakes_end(s, pos + 4 + be24(s, pos + 1), end);
            }
        } else {
            lemma_client_hello_end(s, pos + 4);
            if let Scan::Resume(p) = scan_client_hello(s, pos + 4) {
                lemma_handshakes_end(s, p, end);
            }
        }
    }
}

/// The scan of the records from `pos` on. A record is a one-byte type, a
/// two-byte version, a two-byte length and a body. A record of an unknown
/// version ends the scan. The body of a handshake record is scanned for
/// handshake messages up to its length; after it the scan goes on where the
/// scan of the messages ended.
pub open spec fn scan_records(s: Seq<u8>, pos: int) -> Scan<Seq<u8>>
    decreases s.len() - pos,
    via scan_records_decreases
{
    if !can_read(s, pos, 1) {
        Scan::Nothing(pos)
    } else if !can_read(s, pos + 1, 2) {
        Scan::Nothing(pos + 1)
    } else if TlsVersion::of(be16(s, pos + 1)) == TlsVersion::UNKNOWN {
        Scan::Nothing(pos + 3)
    } else if !can_read(s, pos + 3, 2) {
        Scan::Nothing(pos + 3)
    } else if s[pos] != HANDSHAKE {
        if !can_read(s, pos + 5, be16(s, pos + 3)) {
            Scan::Nothing(pos + 5)
        } else {
            scan_records(s, pos + 5 + be16(s, pos + 3))
        }
    } else {
        match scan_handshakes(s, pos + 5, pos + 5 + be16(s, pos + 3)) {
            Scan::Resume(p) => scan_records(s, p),
            other => other,
        }
    }
}

#[via_fn]
proof fn scan_records_decreases(s: Seq<u8>, pos: int) {
    if can_read(s, pos, 1) && can_read(s, pos + 1, 2) && can_read(s, pos + 3, 2) {
        lemma_handshakes_end(s, pos + 5, pos + 5 + be16(s, pos + 3));
    }
}

/// A scan of records leaves the cursor between the offset it began at and
/// the end of the buffer, and never asks an enclosing scan to go on.
pub proof fn lemma_records_end(s: Seq<u8>, pos: int)
    requires
        0 <= pos <= s.len(),
    ensures
        pos <= scan_records(s, pos).end() <= s.len(),
        !(scan_records(s, pos) is Resume),
    decreases s.len() - pos,
{
    if can_read(s, pos, 1) && can_read(s, pos + 1, 2) && TlsVersion::of(be16(s, pos + 1))
        != TlsVersion::UNKNOWN && can_read(s, pos + 3, 2) {
        if s[pos] != HANDSHAKE {
            if can_read(s, pos + 5, be16(s, pos + 3)) {
                lemma_records_end(s, pos + 5 + be16(s, pos + 3));
            }
        } else {
            lemma_handshakes_end(s, pos + 5, pos + 5 + be16(s, pos + 3));
            if let Scan::Resume(p) = scan_handshakes(s, pos + 5, pos + 5 + be16(s, pos + 3)) {
                lemma_records_end(s, p);
            }
        }
    }
}

/// The server name in the payload `s`, read from `pos` on, with the offset at
/// which the search leaves the cursor. There is a name if the scan of the
/// records finds one and its bytes are well-formed UTF-8.
pub open spec fn tls_sni(s: Seq<u8>, pos: int) -> (Option<Seq<char>>, int) {
    match scan_records(s, pos) {
        Scan::Found(name, end) => if valid_utf8(name) {
            (Some(decode_utf8(name)), end)
        } else {
            (None, end)
        },
        Scan::Nothing(end) => (None, end),
        Scan::Resume(end) => (None, end),
    }
}

/// The scan of extensions on a buffer cut to `k` bytes.
pub proof fn lemma_extensions_cut(s: Seq<u8>, pos: int, end: int, k: int)
    requires
        0 <= pos <= k <= s.len(),
    ensures
        cut_of(scan_extensions(s, pos, end), scan_extensions(s.take(k), pos, end), k),
    decreases s.len() - pos,
{
    let t = s.take(k);
    if pos < end && can_read(s, pos, 2) && can_read(s, pos + 2, 2) {
        if be16(s, pos) != SERVER_NAME {
            let next = pos + 4 + be16(s, pos + 2);
            if next <= s.len() {
                lemma_extensions_end(s, next, end);
                if next <= k {
                    lemma_extensions_cut(s, next, end, k);
                }
            }
        } else if can_read(s, pos + 4, NAME_HEADER_LEN as int) && can_read(s, pos + 7, 2) {
            let e = pos + 9 + be16(s, pos + 7);
            if e <= k {
                assert(t.subrange(pos + 9, e) =~= s.subrange(pos + 9, e));
            }
        }
    }
}

/// The scan of a `ClientHello` on a buffer cut to `k` bytes.
pub proof fn lemma_client_hello_cut(s: Seq<u8>, pos: int, k: int)
    requires
        0 <= pos <= k <= s.len(),
    ensures
        cut_of(scan_client_hello(s, pos), scan_client_hello(s.take(k), pos), k),
{
    let t = s.take(k);
    lemma_client_hello_end(s, pos);
    if can_read(t, pos, 2) && can_read(t, pos + 2, RANDOM_LEN as int) {
        if let Ok(ciphers) = after_block8(t, pos + 2 + RANDOM_LEN) {
            if let Ok(compressions) = after_block16(t, ciphers) {
                if let Ok(p) = after_block8(t, compressions) {
                    if can_read(t, p, 2) {
                        lemma_extensions_cut(s, p + 2, p + 2 + be16(s, p), k);
                    }
                }
            }
        }
    }
    if scan_client_hello(s, pos) is Nothing {
    } else {
        let ciphers = after_block8(s, pos + 2 + RANDOM_LEN)->Ok_0;
        let compressions = after_block16(s, ciphers)->Ok_0;
        let p = after_block8(s, compressions)->Ok_0;
        lemma_extensions_end(s, p + 2, p + 2 + be16(s, p));
    }
}

/// The scan of handshake messages on a buffer cut to `k` bytes.
pub proof fn lemma_handshakes_cut(s: Seq<u8>, pos: int, end: int, k: int)
    requires
        0 <= pos <= k <= s.len(),
    ensures
        cut_of(scan_handshakes(s, pos, end), scan_handshakes(s.take(k), pos, end), k),
    decreases s.len() - pos,
{
    let t = s.take(k);
    if pos < end && can_read(s, pos, 1) && can_read(s, pos + 1, 3) {
        if s[pos] != CLIENT_HELLO {
            let next = pos + 4 + be24(s, pos + 1);
            if next <= s.len() {
                lemma_handshakes_end(s, next, end);
                if next <= k {
                    lemma_handshakes_cut(s, next, end, k);
                }
            }
        } else {
            lemma_client_hello_end(s, pos + 4);
            if pos + 4 <= k {
                lemma_client_hello_cut(s, pos + 4, k);
            }
            if let Scan::Resume(p) = scan_client_hello(s, pos + 4) {
                lemma_handshakes_end(s, p, end);
                if p <= k {
                    lemma_handshakes_cut(s, p, end, k);
                }
            }
        }
    }
}

/// The scan of records on a buffer cut to `k` bytes.
pub proof fn lemma_records_cut(s: Seq<u8>, pos: int, k: int)
    requires
        0 <= pos <= k <= s.len(),
    ensures
        cut_of(scan_records(s, pos), scan_records(s.take(k), pos), k),
    decreases s.len() - pos,
{
    let t = s.take(k);
    if can_read(s, pos, 1) && can_read(s, pos + 1, 2) && TlsVersion::of(be16(s, pos + 1))
        != TlsVersion::UNKNOWN && can_read(s, pos + 3, 2) {
        let len = be16(s, pos + 3);
        if s[pos] != HANDSHAKE {
            let next = pos + 5 + len;
            if next <= s.len() {
                lemma_records_end(s, next);
                if next <= k {
                    lemma_records_cut(s, next, k);
                }
            }
        } else {
            lemma_handshakes_end(s, pos + 5, pos + 5 + len);
            if pos + 5 <= k {
                lemma_handshakes_cut(s, pos + 5, pos + 5 + len, k);
            }
            if let Scan::Resume(p) = scan_handshakes(s, pos + 5, pos + 5 + len) {
                lemma_records_end(s, p);
                if p <= k {
                    lemma_records_cut(s, p, k);
                }
            }
        }
    }
}

/// A server name is found only in a payload that holds every byte up to the
/// end of the name. If the payload `s`, read from `pos` on, holds a name
/// that ends at the offset `e`, then `s` cut to fewer than `e` bytes holds
/// none, and `s` cut to `e` bytes or more holds the same name.
pub proof fn lemma_tls_sni_cut(s: Seq<u8>, pos: int, k: int)
    requires
        0 <= pos,
        0 <= k <= s.len(),
        tls_sni(s, pos).0 is Some,
    ensures
        k < tls_sni(s, pos).1 ==> tls_sni(s.take(k), pos).0 is None,
        k >= tls_sni(s, pos).1 ==> tls_sni(s.take(k), pos) == tls_sni(s, pos),
{
    if pos <= k {
        lemma_records_cut(s, pos, k);
    } else {
        assert(!can_read(s.take(k), pos, 1));
        if pos <= s.len() {
            lemma_records_end(s, pos);
        }
    }
}

/// What a walk over part of a payload came to.
pub enum Walk<'a> {
    /// The bytes of a server name.
    Found(&'a [u8]),
    /// The walk ended without a name.
    Nothing,
    /// This part of the payload holds no name; the enclosing walk goes on.
    Resume,
}

impl<'a> Walk<'a> {
    /// The scan that this walk stands for when it left the cursor at `pos`.
    pub open spec fn at(self, pos: int) -> Scan<Seq<u8>> {
        match self {
            Walk::Found(name) => Scan::Found(name@, pos),
            Walk::Nothing => Scan::Nothing(pos),
            Walk::Resume => Scan::Resume(pos),
        }
    }
}

/// Moves the cursor past a block that a one-byte length precedes. Returns
/// whether the buffer held the length and the block.
pub fn skip_block8(cursor: &mut ByteCursor) -> (done: bool)
    ensures
        final(cursor).bytes() == old(cursor).bytes(),
        match after_block8(old(cursor).bytes(), old(cursor).offset()) {
            Ok(p) => done && final(cursor).offset() == p,
            Err(p) => !done && final(cursor).offset() == p,
        },
{
    match cursor.read_u8() {
        Ok(n) => cursor.skip(n as usize).is_ok(),
        Err(_) => false,
    }
}

/// Moves the cursor past a block that a two-byte length precedes. Returns
/// whether the buffer held the length and the block.
pub fn skip_block16(cursor: &mut ByteCursor) -> (done: bool)
    ensures
        final(cursor).bytes() == old(cursor).bytes(),
        match after_block16(old(cursor).bytes(), old(cursor).offset()) {
            Ok(p) => done && final(cursor).offset() == p,
            Err(p) => !done && final(cursor).offset() == p,
        },
{
    match cursor.read_u16() {
        Ok(n) => cursor.skip(n as usize).is_ok(),
        Err(_) => false,
    }
}

/// Walks the extensions that begin at the cursor and take up `len` bytes.
pub fn walk_extensions<'a>(cursor: &mut ByteCursor<'a>, len: usize) -> (w: Walk<'a>)
    ensures
        final(cursor).bytes() == old(cursor).bytes(),
        w.at(final(cursor).offset()) == scan_extensions(
            old(cursor).bytes(),
            old(cursor).offset(),
            old(cursor).offset() + len,
        ),
{
    let start = cursor.pos();
    let ghost s = cursor.bytes();
    let ghost end = start + len;
    while cursor.pos() - start < len
        invariant
            cursor.bytes() == s,
            s == old(cursor).bytes(),
            start == old(cursor).offset(),
            start <= cursor.offset() <= s.len(),
            end == start + len,
            scan_extensions(s, cursor.offset(), end) == scan_extensions(s, start as int, end),
        decreases s.len() - cursor.offset(),
    {
        let kind = match cursor.read_u16() {
            Ok(v) => v,
            Err(_) => {
                return Walk::Nothing;
            },
        };
        let body = match cursor.read_u16() {
            Ok(v) => v,
            Err(_) => {
                return Walk::Nothing;
            },
        };
        if kind != SERVER_NAME {
            if cursor.skip(body as usize).is_err() {
                return Walk::Nothing;
            }
            continue ;
        }
        if cursor.skip(NAME_HEADER_LEN).is_err() {
            return Walk::Nothing;
        }
        let name_len = match cursor.read_u16() {
            Ok(v) => v,
            Err(_) => {
                return Walk::Nothing;
            },
        };
        return match cursor.read_bytes(name_len as usize) {
            Ok(name) => Walk::Found(name),
            Err(_) => Walk::Nothing,
        };
    }
    Walk::Resume
}

/// Walks the body of a `ClientHello` that begins at the cursor.
pub fn walk_client_hello<'a>(cursor: &mut ByteCursor<'a>) -> (w: Walk<'a>)
    ensures
        final(cursor).bytes() == old(cursor).bytes(),
        w.at(final(cursor).offset()) == scan_client_hello(
            old(cursor).bytes(),
            old(cursor).offset(),
        ),
{
    let version = match cursor.read_u16() {
        Ok(v) => v,
        Err(_) => {
            return Walk::Nothing;
        },
    };
    if TlsVersion::from_u16(version) == TlsVersion::UNKNOWN {
        return Walk::Nothing;
    }
    if cursor.skip(RANDOM_LEN).is_err() {
        return Walk::Nothing;
    }
    if !skip_block8(cursor) {
        return Walk::Nothing;
    }
    if !skip_block16(cursor) {
        return Walk::Nothing;
    }
    if !skip_block8(cursor) {
        return Walk::Nothing;
    }
    let len = match cursor.read_u16() {
        Ok(v) => v,
        Err(_) => {
            return Walk::Nothing;
        },
    };
    walk_extensions(cursor, len as usize)
}

/// Walks the handshake messages that begin at the cursor and take up `len`
/// bytes.
pub fn walk_handshakes<'a>(cursor: &mut ByteCursor<'a>, len: usize) -> (w: Walk<'a>)
    ensures
        final(cursor).bytes() == old(cursor).bytes(),
        w.at(final(cursor).offset()) == scan_handshakes(
            old(cursor).bytes(),
            old(cursor).offset(),
            old(cursor).offset() + len,
        ),
{
    let start = cursor.pos();
    let ghost s = cursor.bytes();
    let ghost end = start + len;
    while cursor.pos() - start < len
        invariant
            cursor.bytes() == s,
            s == old(cursor).bytes(),
            start == old(cursor).offset(),
            start <= cursor.offset() <= s.len(),
            end == start + len,
            scan_handshakes(s, cursor.offset(), end) == scan_handshakes(s, start as int, end),
        decreases s.len() - cursor.offset(),
    {
        let ghost here = cursor.offset();
        let kind = match cursor.read_u8() {
            Ok(v) => v,
            Err(_) => {
                return Walk::Nothing;
            },
        };
        let body = match cursor.read_u24() {
            Ok(v) => v,
            Err(_) => {
                return Walk::Nothing;
            },
        };
        if kind != CLIENT_HELLO {
            if cursor.skip(body as usize).is_err() {
                return Walk::Nothing;
            }
            continue ;
        }
        proof {
            lemma_client_hello_end(s, here + 4);
        }
        match walk_client_hello(cursor) {
            Walk::Resume => {},
            other => {
                return other;
            },
        }
    }
    Walk::Resume
}

/// Walks the records that begin at the cursor, to the end of the payload.
pub fn walk_records<'a>(cursor: &mut ByteCursor<'a>) -> (w: Walk<'a>)
    ensures
        final(cursor).bytes() == old(cursor).bytes(),
        w.at(final(cursor).offset()) == scan_records(old(cursor).bytes(), old(cursor).offset()),
{
    let ghost s = cursor.bytes();
    let ghost start = cursor.offset();
    proof {
        use_type_invariant(&*cursor);
    }
    loop
        invariant
            cursor.bytes() == s,
            s == old(cursor).bytes(),
            start == old(cursor).offset(),
            0 <= cursor.offset() <= s.len(),
            scan_records(s, cursor.offset()) == scan_records(s, start),
        decreases s.len() - cursor.offset(),
    {
        let ghost here = cursor.offset();
        let kind = match cursor.read_u8() {
            Ok(v) => v,
            Err(_) => {
                return Walk::Nothing;
            },
        };
        let version = match cursor.read_u16() {
            Ok(v) => v,
            Err(_) => {
                return Walk::Nothing;
            },
        };
        if TlsVersion::from_u16(version) == TlsVersion::UNKNOWN {
            return Walk::Nothing;
        }
        let len = match cursor.read_u16() {
            Ok(v) => v,
            Err(_) => {
                return Walk::Nothing;
            },
        };
        if kind != HANDSHAKE {
            if cursor.skip(len as usize).is_err() {
                return Walk::Nothing;
            }
            continue ;
        }
        proof {
            lemma_handshakes_end(s, here + 5, here + 5 + len);
        }
        match walk_handshakes(cursor, len as usize) {
            Walk::Resume => {},
            other => {
                return other;
            },
        }
    }
}

/// Extracts the server name that a `ClientHello` in the payload announces.
/// The cursor is read from its offset on; the name is that of the first
/// `server_name` extension of the first `ClientHello` in a handshake record.
/// A payload that ends early, holds a record or a `ClientHello` of an
/// unknown version before the name, or holds a name that is not UTF-8 gives
/// nothing.
pub fn extract_tls_sni<'a>(cursor: &mut ByteCursor<'a>) -> (r: Option<&'a str>)
    ensures
        final(cursor).bytes() == old(cursor).bytes(),
        final(cursor).offset() == tls_sni(old(cursor).bytes(), old(cursor).offset()).1,
        match tls_sni(old(cursor).bytes(), old(cursor).offset()).0 {
            Some(name) => r is Some && r->Some_0@ == name,
            None => r is None,
        },
{
    match walk_records(cursor) {
        Walk::Found(name) => match decode_text(name) {
            Ok(text) => Some(text),
            Err(_) => None,
        },
        _ => None,
    }
}

} // verus!
