//! A bounds-checked reader over a byte slice.
//!
//! The cursor keeps an offset into an immutable buffer. Every read either
//! succeeds and advances the offset, or fails and leaves the cursor as it was.

use vstd::prelude::*;
use vstd::slice::slice_subrange;

verus! {

/// Why a parsing step gave no value.
#[derive(Clone, Copy, Debug, PartialEq, Eq, Structural)]
pub enum ParseError {
    /// The buffer ended before the requested bytes.
    InsufficientData,
    /// The bytes are not valid UTF-8 where text was expected.
    InvalidEncoding,
}

/// What a scan over part of a buffer came to, with the offset at which it
/// left the cursor.
pub enum Scan<T> {
    /// The scan found a value.
    Found(T, int),
    /// The scan ended without a value: the buffer was too short, or what it
    /// holds rules a value out.
    Nothing(int),
    /// This part of the buffer holds no value; the enclosing scan goes on.
    Resume(int),
}

impl<T> Scan<T> {
    /// The offset at which the scan left the cursor.
    pub open spec fn end(self) -> int {
        match self {
            Scan::Found(_, e) => e,
            Scan::Nothing(e) => e,
            Scan::Resume(e) => e,
        }
    }
}

/// How the scan of a buffer cut to its first `k` bytes relates to the scan
/// of the whole buffer: a scan that ends with the cursor within the first
/// `k` bytes comes to the same on the cut buffer; one that finds a value or
/// goes on past them comes to nothing there.
pub open spec fn cut_of<T>(whole: Scan<T>, cut: Scan<T>, k: int) -> bool {
    match whole {
        Scan::Nothing(_) => cut is Nothing,
        _ => if whole.end() <= k {
            cut == whole
        } else {
            cut is Nothing
        },
    }
}

/// The byte that ends a line.
pub const LINE_FEED: u8 = 0x0a;

/// Whether `n` bytes can be read from `s` at offset `pos`.
pub open spec fn can_read(s: Seq<u8>, pos: int, n: int) -> bool {
    0 <= pos && 0 <= n && pos + n <= s.len()
}

/// The big-endian number held in the two bytes of `s` at `pos`.
pub open spec fn be16(s: Seq<u8>, pos: int) -> int {
    s[pos] * 0x100 + s[pos + 1]
}

/// The big-endian number held in the three bytes of `s` at `pos`.
pub open spec fn be24(s: Seq<u8>, pos: int) -> int {
    s[pos] * 0x1_0000 + s[pos + 1] * 0x100 + s[pos + 2]
}

/// The index of the first occurrence of `b` in `s` at or after `from`, or
/// the length of `s` if there is none.
pub open spec fn find_byte(s: Seq<u8>, from: int, b: u8) -> int
    decreases s.len() - from,
{
    if from < 0 || from >= s.len() {
        s.len() as int
    } else if s[from] == b {
        from
    } else {
        find_byte(s, from + 1, b)
    }
}

/// `find_byte` returns the least index at or after `from` that holds `b`.
pub proof fn lemma_find_byte(s: Seq<u8>, from: int, b: u8)
    requires
        0 <= from <= s.len(),
    ensures
        from <= find_byte(s, from, b) <= s.len(),
        find_byte(s, from, b) < s.len() ==> s[find_byte(s, from, b)] == b,
        forall|j: int| from <= j < find_byte(s, from, b) ==> s[j] != b,
    decreases s.len() - from,
{
    if from < s.len() && s[from] != b {
        lemma_find_byte(s, from + 1, b);
    }
}

/// An index `at` that holds `b`, with no `b` between `from` and `at`, is
/// what `find_byte` returns; so is the length of `s` if no `b` follows `from`.
pub proof fn lemma_find_byte_is(s: Seq<u8>, from: int, b: u8, at: int)
    requires
        0 <= from <= at <= s.len(),
        at < s.len() ==> s[at] == b,
        forall|j: int| from <= j < at ==> s[j] != b,
    ensures
        find_byte(s, from, b) == at,
    decreases at - from,
{
    if from < at {
        lemma_find_byte_is(s, from + 1, b, at);
    }
}

/// The first `b` at or after `from` in `s` cut to its first `k` bytes is the
/// first in `s` if that one lies within the `k` bytes; else there is none.
pub proof fn lemma_find_byte_cut(s: Seq<u8>, from: int, b: u8, k: int)
    requires
        0 <= from <= k <= s.len(),
    ensures
        find_byte(s, from, b) < k ==> find_byte(s.take(k), from, b) == find_byte(s, from, b),
        find_byte(s, from, b) >= k ==> find_byte(s.take(k), from, b) == k,
{
    lemma_find_byte(s, from, b);
    let at = find_byte(s, from, b);
    if at < k {
        lemma_find_byte_is(s.take(k), from, b, at);
    } else {
        lemma_find_byte_is(s.take(k), from, b, k);
    }
}

/// A forward reader over a byte slice, with an offset that never passes the
/// end of the slice.
pub struct ByteCursor<'a> {
    data: &'a [u8],
    pos: usize,
}

impl<'a> ByteCursor<'a> {
    /// The offset never passes the end of the buffer.
    #[verifier::type_invariant]
    pub open spec fn in_bounds(self) -> bool {
        0 <= self.offset() <= self.bytes().len()
    }

    /// The bytes of the underlying buffer.
    pub closed spec fn bytes(self) -> Seq<u8> {
        self.data@
    }

    /// The current offset into the buffer.
    pub closed spec fn offset(self) -> int {
        self.pos as int
    }

    /// A cursor at the start of `data`.
    pub fn new(data: &'a [u8]) -> (c: Self)
        ensures
            c.bytes() == data@,
            c.offset() == 0,
    {
        ByteCursor { data, pos: 0 }
    }

    /// The current offset, to come back to with `rewind`.
    pub fn pos(&self) -> (p: usize)
        ensures
            p == self.offset(),
            p <= self.bytes().len(),
    {
        proof {
            use_type_invariant(self);
        }
        self.pos
    }

    /// Sets the offset to `to`, which must not pass the end of the buffer.
    pub fn rewind(&mut self, to: usize) -> (r: Result<(), ParseError>)
        ensures
            final(self).bytes() == old(self).bytes(),
            to <= old(self).bytes().len() ==> r is Ok && final(self).offset() == to,
            to > old(self).bytes().len() ==> r == Err::<(), ParseError>(
                ParseError::InsufficientData,
            ) && final(self).offset() == old(self).offset(),
    {
        if to <= self.data.len() {
            self.pos = to;
            Ok(())
        } else {
            Err(ParseError::InsufficientData)
        }
    }

    /// Advances the offset by `n` bytes.
    pub fn skip(&mut self, n: usize) -> (r: Result<(), ParseError>)
        ensures
            final(self).bytes() == old(self).bytes(),
            can_read(old(self).bytes(), old(self).offset(), n as int) ==> r is Ok && final(self).offset() == old(self).offset() + n,
            !can_read(old(self).bytes(), old(self).offset(), n as int) ==> r == Err::<
                (),
                ParseError,
            >(ParseError::InsufficientData) && final(self).offset() == old(self).offset(),
    {
        proof {
            use_type_invariant(&*self);
        }
        if n <= self.data.len() - self.pos {
            self.pos = self.pos + n;
            Ok(())
        } else {
            Err(ParseError::InsufficientData)
        }
    }

    /// Reads one byte.
    pub fn read_u8(&mut self) -> (r: Result<u8, ParseError>)
        ensures
            final(self).bytes() == old(self).bytes(),
            can_read(old(self).bytes(), old(self).offset(), 1) ==> r == Ok::<u8, ParseError>(
                old(self).bytes()[old(self).offset()],
            ) && final(self).offset() == old(self).offset() + 1,
            !can_read(old(self).bytes(), old(self).offset(), 1) ==> r == Err::<u8, ParseError>(
                ParseError::InsufficientData,
            ) && final(self).offset() == old(self).offset(),
    {
        proof {
            use_type_invariant(&*self);
        }
        if 1 <= self.data.len() - self.pos {
            let v = self.data[self.pos];
            self.pos = self.pos + 1;
            Ok(v)
        } else {
            Err(ParseError::InsufficientData)
        }
    }

    /// Reads two bytes as a big-endian number.
    pub fn read_u16(&mut self) -> (r: Result<u16, ParseError>)
        ensures
            final(self).bytes() == old(self).bytes(),
            can_read(old(self).bytes(), old(self).offset(), 2) ==> r is Ok && r->Ok_0 == be16(
                old(self).bytes(),
                old(self).offset(),
            ) && final(self).offset() == old(self).offset() + 2,
            !can_read(old(self).bytes(), old(self).offset(), 2) ==> r == Err::<u16, ParseError>(
                ParseError::InsufficientData,
            ) && final(self).offset() == old(self).offset(),
    {
        proof {
            use_type_invariant(&*self);
        }
        if 2 <= self.data.len() - self.pos {
            let hi: u16 = self.data[self.pos] as u16;
            let lo: u16 = self.data[self.pos + 1] as u16;
            self.pos = self.pos + 2;
            Ok(hi * 0x100 + lo)
        } else {
            Err(ParseError::InsufficientData)
        }
    }

    /// Reads three bytes as a big-endian number.
    pub fn read_u24(&mut self) -> (r: Result<u32, ParseError>)
        ensures
            final(self).bytes() == old(self).bytes(),
            can_read(old(self).bytes(), old(self).offset(), 3) ==> r is Ok && r->Ok_0 == be24(
                old(self).bytes(),
                old(self).offset(),
            ) && final(self).offset() == old(self).offset() + 3,
            !can_read(old(self).bytes(), old(self).offset(), 3) ==> r == Err::<u32, ParseError>(
                ParseError::InsufficientData,
            ) && final(self).offset() == old(self).offset(),
    {
        proof {
            use_type_invariant(&*self);
        }
        if 3 <= self.data.len() - self.pos {
            let hi: u32 = self.data[self.pos] as u32;
            let mid: u32 = self.data[self.pos + 1] as u32;
            let lo: u32 = self.data[self.pos + 2] as u32;
            self.pos = self.pos + 3;
            Ok(hi * 0x1_0000 + mid * 0x100 + lo)
        } else {
            Err(ParseError::InsufficientData)
        }
    }

    /// Returns the next `n` bytes.
    pub fn read_bytes(&mut self, n: usize) -> (r: Result<&'a [u8], ParseError>)
        ensures
            final(self).bytes() == old(self).bytes(),
            can_read(old(self).bytes(), old(self).offset(), n as int) ==> r is Ok && r->Ok_0@
                == old(self).bytes().subrange(old(self).offset(), old(self).offset() + n)
                && final(self).offset() == old(self).offset() + n,
            !can_read(old(self).bytes(), old(self).offset(), n as int) ==> r == Err::<
                &[u8],
                ParseError,
            >(ParseError::InsufficientData) && final(self).offset() == old(self).offset(),
    {
        proof {
            use_type_invariant(&*self);
        }
        if n <= self.data.len() - self.pos {
            let out = slice_subrange(self.data, self.pos, self.pos + n);
            self.pos = self.pos + n;
            Ok(out)
        } else {
            Err(ParseError::InsufficientData)
        }
    }

    /// Returns the bytes up to the next line feed and moves past it. The line
    /// feed is not part of the line; a carriage return before it is.
    pub fn read_line(&mut self) -> (r: Result<&'a [u8], ParseError>)
        ensures
            final(self).bytes() == old(self).bytes(),
            find_byte(old(self).bytes(), old(self).offset(), LINE_FEED) < old(self).bytes().len()
                ==> r is Ok && r->Ok_0@ == old(self).bytes().subrange(
                old(self).offset(),
                find_byte(old(self).bytes(), old(self).offset(), LINE_FEED),
            ) && final(self).offset() == find_byte(
                old(self).bytes(),
                old(self).offset(),
                LINE_FEED,
            ) + 1,
            find_byte(old(self).bytes(), old(self).offset(), LINE_FEED) >= old(self).bytes().len()
                ==> r == Err::<&[u8], ParseError>(ParseError::InsufficientData) && final(
                self).offset() == old(self).offset(),
    {
        proof {
            use_type_invariant(&*self);
        }
        let start = self.pos;
        let at = index_of(self.data, start, LINE_FEED);
        if at < self.data.len() {
            let line = slice_subrange(self.data, start, at);
            self.pos = at + 1;
            Ok(line)
        } else {
            Err(ParseError::InsufficientData)
        }
    }
}

/// The index of the first `b` in `data` at or after `from`, or the length of
/// `data` if there is none.
pub fn index_of(data: &[u8], from: usize, b: u8) -> (at: usize)
    ensures
        at == find_byte(data@, from as int, b),
        at <= data@.len(),
        from <= data@.len() ==> from <= at,
{
    if from > data.len() {
        return data.len();
    }
    let mut i: usize = from;
    while i < data.len() && data[i] != b
        invariant
            from <= i <= data@.len(),
            forall|j: int| from <= j < i ==> data@[j] != b,
        decreases data@.len() - i,
    {
        i = i + 1;
    }
    proof {
        lemma_find_byte_is(data@, from as int, b, i as int);
    }
    i
}

} // verus!
