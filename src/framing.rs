//! Content-Length framing of messages on a byte stream.
//!
//! A frame is `Content-Length: <n>\r\n`, an optional
//! `Content-Type: <token>\r\n`, a blank `\r\n`, and then exactly `n` bytes
//! of payload. The payload is read by count, never by looking at its bytes.

use vstd::prelude::*;
use vstd::slice::{slice_subrange, slice_to_vec};
use crate::decimal::{all_digits, decimal, digits_value, encode_decimal, lemma_decimal, parse_decimal};
use crate::error::{Error, FramingError};

verus! {

/// The bytes of `Content-Length:`.
pub open spec fn length_name() -> Seq<u8> {
    seq![67u8, 111, 110, 116, 101, 110, 116, 45, 76, 101, 110, 103, 116, 104, 58]
}

/// The bytes of `Content-Type:`.
pub open spec fn content_type_name() -> Seq<u8> {
    seq![67u8, 111, 110, 116, 101, 110, 116, 45, 84, 121, 112, 101, 58]
}

pub open spec fn has_prefix(s: Seq<u8>, p: Seq<u8>) -> bool {
    p.len() <= s.len() && s.subrange(0, p.len() as int) == p
}

/// `s` without its leading spaces.
pub open spec fn skip_spaces(s: Seq<u8>) -> Seq<u8>
    decreases s.len(),
{
    if s.len() > 0 && s[0] == 32 {
        skip_spaces(s.drop_first())
    } else {
        s
    }
}

/// One header line, its `\r\n` taken off.
#[derive(Debug, Clone, Copy, PartialEq, Eq)]
pub enum HeaderLine {
    ContentLength(usize),
    ContentType,
    Blank,
}

/// What a header line says, or why it is malformed.
pub open spec fn header_line_meaning(line: Seq<u8>) -> Result<HeaderLine, FramingError> {
    if line.len() == 0 {
        Ok(HeaderLine::Blank)
    } else if has_prefix(line, length_name()) {
        let v = skip_spaces(line.skip(15));
        if v.len() > 0 && all_digits(v) && digits_value(v) <= usize::MAX {
            Ok(HeaderLine::ContentLength(digits_value(v) as usize))
        } else {
            Err(FramingError::BadContentLength)
        }
    } else if has_prefix(line, content_type_name()) {
        Ok(HeaderLine::ContentType)
    } else {
        Err(FramingError::UnknownHeader)
    }
}

/// Where the reading of a header stands after one more line.
pub enum HeaderProgress {
    /// More lines follow; the length seen so far, if any.
    Reading(Option<usize>),
    /// The header is complete and announces a payload of this many bytes.
    Done(usize),
}

/// The step that one header line makes, given the length seen before it.
pub open spec fn after_line(seen: Option<usize>, line: Seq<u8>) -> Result<HeaderProgress, Error> {
    match header_line_meaning(line) {
        Err(e) => Err(Error::Framing(e)),
        Ok(HeaderLine::ContentLength(n)) => if seen is Some {
            Err(Error::Framing(FramingError::DuplicateContentLength))
        } else {
            Ok(HeaderProgress::Reading(Some(n)))
        },
        Ok(HeaderLine::ContentType) => Ok(HeaderProgress::Reading(seen)),
        Ok(HeaderLine::Blank) => match seen {
            Some(n) => Ok(HeaderProgress::Done(n)),
            None => Err(Error::Framing(FramingError::MissingContentLength)),
        },
    }
}

/// The index of the first `\r\n` at or after `from`.
pub open spec fn line_end(buf: Seq<u8>, from: int) -> Option<int>
    decreases buf.len() - from,
{
    if from < 0 || from + 1 >= buf.len() {
        None
    } else if buf[from] == 13 && buf[from + 1] == 10 {
        Some(from)
    } else {
        line_end(buf, from + 1)
    }
}

/// Decoding of the header lines that start at `start`: the payload and the
/// number of bytes the frame takes, counted from the start of `buf`.
pub open spec fn decode_from(buf: Seq<u8>, start: int, seen: Option<usize>) -> Result<(Seq<u8>, nat), Error>
    decreases buf.len() - start,
{
    match line_end(buf, start) {
        None => Err(Error::ConnectionClosed),
        Some(e) => if e < start || e + 2 > buf.len() {
            Err(Error::ConnectionClosed)
        } else {
            match after_line(seen, buf.subrange(start, e)) {
                Err(err) => Err(err),
                Ok(HeaderProgress::Reading(s)) => decode_from(buf, e + 2, s),
                Ok(HeaderProgress::Done(n)) => if e + 2 + n <= buf.len() {
                    Ok((buf.subrange(e + 2, e + 2 + n), (e + 2 + n) as nat))
                } else {
                    Err(Error::ConnectionClosed)
                },
            }
        },
    }
}

/// The first frame of `buf`: its payload and its length in bytes.
pub open spec fn decode(buf: Seq<u8>) -> Result<(Seq<u8>, nat), Error> {
    decode_from(buf, 0, None)
}

/// The frame that carries `payload`.
pub open spec fn frame(payload: Seq<u8>) -> Seq<u8> {
    length_name() + seq![32u8] + decimal(payload.len()) + seq![13u8, 10, 13, 10] + payload
}

/// Whether `buf` starts with `p`.
fn starts_with(buf: &[u8], p: &[u8]) -> (r: bool)
    ensures
        r == has_prefix(buf@, p@),
{
    if p.len() > buf.len() {
        return false;
    }
    let mut i: usize = 0;
    while i < p.len()
        invariant
            p@.len() <= buf@.len(),
            i <= p@.len(),
            buf@.subrange(0, i as int) == p@.subrange(0, i as int),
        decreases p@.len() - i,
    {
        if buf[i] != p[i] {
            assert(buf@.subrange(0, p@.len() as int)[i as int] != p@[i as int]);
            return false;
        }
        i = i + 1;
        assert(buf@.subrange(0, i as int) =~= p@.subrange(0, i as int));
    }
    assert(p@.subrange(0, i as int) =~= p@);
    true
}

fn length_name_bytes() -> (r: Vec<u8>)
    ensures
        r@ == length_name(),
{
    let r = vec![67u8, 111, 110, 116, 101, 110, 116, 45, 76, 101, 110, 103, 116, 104, 58];
    assert(r@ =~= length_name());
    r
}

fn content_type_name_bytes() -> (r: Vec<u8>)
    ensures
        r@ == content_type_name(),
{
    let r = vec![67u8, 111, 110, 116, 101, 110, 116, 45, 84, 121, 112, 101, 58];
    assert(r@ =~= content_type_name());
    r
}

/// Reads one header line, given without its `\r\n`.
pub fn parse_header_line(line: &[u8]) -> (r: Result<HeaderLine, FramingError>)
    ensures
        r == header_line_meaning(line@),
{
    if line.len() == 0 {
        return Ok(HeaderLine::Blank);
    }
    let length = length_name_bytes();
    if starts_with(line, length.as_slice()) {
        let mut i: usize = 15;
        assert(skip_spaces(line@.skip(15)) == skip_spaces(line@.skip(i as int)));
        while i < line.len() && line[i] == 32
            invariant
                15 <= i <= line@.len(),
                skip_spaces(line@.skip(15)) == skip_spaces(line@.skip(i as int)),
            decreases line@.len() - i,
        {
            assert(line@.skip(i as int).drop_first() =~= line@.skip(i + 1));
            i = i + 1;
        }
        let rest = slice_subrange(line, i, line.len());
        assert(rest@ =~= line@.skip(i as int));
        assert(skip_spaces(line@.skip(i as int)) == line@.skip(i as int));
        match parse_decimal(rest) {
            Some(n) => Ok(HeaderLine::ContentLength(n)),
            None => Err(FramingError::BadContentLength),
        }
    } else {
        let content_type = content_type_name_bytes();
        if starts_with(line, content_type.as_slice()) {
            Ok(HeaderLine::ContentType)
        } else {
            Err(FramingError::UnknownHeader)
        }
    }
}

/// Reads a frame header line by line, as lines arrive from a stream.
pub struct HeaderReader {
    /// The `Content-Length` of the current header, once it has been read.
    pub content_length: Option<usize>,
}

impl HeaderReader {
    pub fn new() -> (r: HeaderReader)
        ensures
            r.content_length is None,
    {
        HeaderReader { content_length: None }
    }

    /// Takes one header line without its `\r\n`. Returns the payload length
    /// once the blank line ends the header, and `None` while lines remain.
    /// A finished header leaves the reader ready for the next frame.
    pub fn feed(&mut self, line: &[u8]) -> (r: Result<Option<usize>, Error>)
        ensures
            match after_line(old(self).content_length, line@) {
                Ok(HeaderProgress::Reading(s)) => r == Ok::<Option<usize>, Error>(None)
                    && final(self).content_length == s,
                Ok(HeaderProgress::Done(n)) => r == Ok::<Option<usize>, Error>(Some(n))
                    && final(self).content_length is None,
                Err(e) => r == Err::<Option<usize>, Error>(e),
            },
    {
        match parse_header_line(line) {
            Err(e) => Err(Error::Framing(e)),
            Ok(HeaderLine::ContentLength(n)) => {
                if self.content_length.is_some() {
                    Err(Error::Framing(FramingError::DuplicateContentLength))
                } else {
                    self.content_length = Some(n);
                    Ok(None)
                }
            },
            Ok(HeaderLine::ContentType) => Ok(None),
            Ok(HeaderLine::Blank) => match self.content_length {
                Some(n) => {
                    self.content_length = None;
                    Ok(Some(n))
                },
                None => Err(Error::Framing(FramingError::MissingContentLength)),
            },
        }
    }
}

/// Puts `payload` in a frame.
pub fn encode_frame(payload: &[u8]) -> (r: Vec<u8>)
    ensures
        r@ == frame(payload@),
{
    let mut r = length_name_bytes();
    r.push(32);
    let mut digits = encode_decimal(payload.len());
    r.append(&mut digits);
    r.push(13);
    r.push(10);
    r.push(13);
    r.push(10);
    let mut i: usize = 0;
    let ghost head = r@;
    while i < payload.len()
        invariant
            i <= payload@.len(),
            r@ == head + payload@.subrange(0, i as int),
        decreases payload@.len() - i,
    {
        r.push(payload[i]);
        i = i + 1;
        assert(r@ =~= head + payload@.subrange(0, i as int));
    }
    assert(payload@.subrange(0, i as int) =~= payload@);
    assert(r@ =~= frame(payload@));
    r
}

/// The index of the first `\r\n` at or after `from`.
fn find_line_end(buf: &[u8], from: usize) -> (r: Option<usize>)
    ensures
        r is None <==> line_end(buf@, from as int) is None,
        r matches Some(k) ==> line_end(buf@, from as int) == Some(k as int),
{
    let mut i = from;
    while buf.len() > 1 && i < buf.len() - 1
        invariant
            from <= i,
            line_end(buf@, from as int) == line_end(buf@, i as int),
        decreases buf@.len() - i,
    {
        if buf[i] == 13 && buf[i + 1] == 10 {
            return Some(i);
        }
        i = i + 1;
    }
    None
}

proof fn lemma_line_end_bounds(buf: Seq<u8>, from: int)
    ensures
        line_end(buf, from) is Some ==> {
            let e = line_end(buf, from)->0;
            from <= e && e + 2 <= buf.len() && buf[e] == 13 && buf[e + 1] == 10
        },
    decreases buf.len() - from,
{
    if !(from < 0 || from + 1 >= buf.len()) && !(buf[from] == 13 && buf[from + 1] == 10) {
        lemma_line_end_bounds(buf, from + 1);
    }
}

/// Reads the first frame of `buf`: its payload, and how many bytes of `buf`
/// the frame takes. Bytes after the frame are left alone.
pub fn decode_frame(buf: &[u8]) -> (r: Result<(Vec<u8>, usize), Error>)
    ensures
        match decode(buf@) {
            Ok((p, n)) => r matches Ok((q, m)) && q@ == p && m == n,
            Err(e) => r == Err::<(Vec<u8>, usize), Error>(e),
        },
{
    let mut reader = HeaderReader::new();
    let mut start: usize = 0;
    let len = buf.len();
    loop
        invariant
            len == buf@.len(),
            start <= buf@.len(),
            decode(buf@) == decode_from(buf@, start as int, reader.content_length),
        decreases buf@.len() - start,
    {
        proof {
            lemma_line_end_bounds(buf@, start as int);
        }
        let e = match find_line_end(buf, start) {
            Some(e) => e,
            None => return Err(Error::ConnectionClosed),
        };
        let line = slice_subrange(buf, start, e);
        let next = e + 2;
        let ghost seen = reader.content_length;
        match reader.feed(line) {
            Err(err) => return Err(err),
            Ok(None) => {
                start = next;
            },
            Ok(Some(n)) => {
                if n > buf.len() - next {
                    return Err(Error::ConnectionClosed);
                }
                let body = slice_subrange(buf, next, next + n);
                return Ok((slice_to_vec(body), next + n));
            },
        }
    }
}

proof fn lemma_line_end_at(buf: Seq<u8>, from: int, e: int)
    requires
        0 <= from <= e,
        e + 1 < buf.len(),
        buf[e] == 13,
        buf[e + 1] == 10,
        forall|i: int| from <= i < e ==> buf[i] != 13,
    ensures
        line_end(buf, from) == Some(e),
    decreases e - from,
{
    if from < e {
        lemma_line_end_at(buf, from + 1, e);
    }
}

/// Decoding the frame of a payload gives back exactly that payload and
/// stops where the frame ends, whatever bytes the payload holds (a `}`
/// inside a JSON string included) and whatever bytes follow the frame.
pub proof fn lemma_frame_round_trip(payload: Seq<u8>, rest: Seq<u8>)
    requires
        payload.len() <= usize::MAX,
    ensures
        decode(frame(payload) + rest) == Ok::<(Seq<u8>, nat), Error>(
            (payload, frame(payload).len()),
        ),
{
    let n: int = payload.len() as int;
    let d = decimal(n as nat);
    lemma_decimal(n as nat);
    let buf = frame(payload) + rest;
    let h: int = 16 + d.len() as int;
    let head = length_name() + seq![32u8] + d;
    assert(head.len() == h);
    assert(buf =~= head + seq![13u8, 10, 13, 10] + payload + rest);
    assert forall|i: int| 0 <= i < h implies buf[i] != 13 by {
        assert(buf[i] == head[i]);
        if i >= 16 {
            assert(head[i] == d[i - 16]);
        }
    }
    lemma_line_end_at(buf, 0, h);
    let line = buf.subrange(0, h);
    assert(line =~= head);
    assert(line.subrange(0, 15) =~= length_name());
    let tail = line.skip(15);
    assert(tail =~= seq![32u8] + d);
    assert(tail.drop_first() =~= d);
    assert(skip_spaces(d) == d);
    assert(skip_spaces(tail) == d);
    assert(header_line_meaning(line) == Ok::<HeaderLine, FramingError>(
        HeaderLine::ContentLength(n as usize),
    ));
    assert(decode_from(buf, 0, None) == decode_from(buf, h + 2, Some(n as usize)));
    lemma_line_end_at(buf, h + 2, h + 2);
    assert(buf.subrange(h + 2, h + 2) =~= Seq::<u8>::empty());
    assert(buf.subrange(h + 4, h + 4 + n) =~= payload);
    assert(decode_from(buf, h + 2, Some(n as usize)) == Ok::<(Seq<u8>, nat), Error>(
        (payload, (h + 4 + n) as nat),
    ));
}

} // verus!
