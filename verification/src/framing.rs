//! Framing of HTTP/1.x messages read from a byte stream: where the header
//! block ends, what `Content-Length` it announces, and when enough bytes have
//! been read.

use vstd::prelude::*;
use vstd::string::StrSliceExecFns;
use vstd::utf8::{valid_utf8, decode_utf8};
use crate::text::{copy_range, parse_usize, parse_usize_range, push_all, trim, str_chars, trim_range, utf8_str};

verus! {

// ---------------------------------------------------------------------------
// End of the header block
// ---------------------------------------------------------------------------

/// `buf[i..i + 4]` is `\r\n\r\n`.
pub open spec fn is_blank_line_at(buf: Seq<u8>, i: int) -> bool {
    &&& 0 <= i
    &&& i + 4 <= buf.len()
    &&& buf[i] == 13
    &&& buf[i + 1] == 10
    &&& buf[i + 2] == 13
    &&& buf[i + 3] == 10
}

/// The first position at or after `from` where `\r\n\r\n` starts.
pub open spec fn blank_line_from(buf: Seq<u8>, from: int) -> Option<int>
    decreases buf.len() - from,
{
    if from < 0 || from + 4 > buf.len() {
        None
    } else if is_blank_line_at(buf, from) {
        Some(from)
    } else {
        blank_line_from(buf, from + 1)
    }
}

/// The position where `\r\n\r\n` first occurs in `buf`, if anywhere.
pub open spec fn header_end(buf: Seq<u8>) -> Option<int> {
    blank_line_from(buf, 0)
}

/// `blank_line_from` finds the first occurrence.
pub proof fn lemma_blank_line_from(buf: Seq<u8>, from: int)
    requires
        0 <= from,
    ensures
        blank_line_from(buf, from) matches Some(i) ==> from <= i && is_blank_line_at(buf, i)
            && forall|j: int| from <= j < i ==> !is_blank_line_at(buf, j),
        blank_line_from(buf, from) is None ==> forall|j: int|
            from <= j ==> !is_blank_line_at(buf, j),
    decreases buf.len() - from,
{
    if from + 4 <= buf.len() && !is_blank_line_at(buf, from) {
        lemma_blank_line_from(buf, from + 1);
    }
}

/// Position of the first `\r\n\r\n` in `buf`.
pub fn find_header_end(buf: &[u8]) -> (r: Option<usize>)
    ensures
        r matches Some(i) ==> header_end(buf@) == Some(i as int),
        r is None ==> header_end(buf@) is None,
        r matches Some(i) ==> is_blank_line_at(buf@, i as int) && forall|j: int|
            0 <= j < i ==> !is_blank_line_at(buf@, j),
        r is None ==> forall|j: int| 0 <= j ==> !is_blank_line_at(buf@, j),
{
    proof {
        lemma_blank_line_from(buf@, 0);
    }
    let n = buf.len();
    let mut i: usize = 0;
    while i < n && n - i >= 4
        invariant
            n == buf@.len(),
            i <= n,
            blank_line_from(buf@, 0) == blank_line_from(buf@, i as int),
        decreases n - i,
    {
        if buf[i] == 13 && buf[i + 1] == 10 && buf[i + 2] == 13 && buf[i + 3] == 10 {
            proof {
                lemma_blank_line_from(buf@, 0);
            }
            return Some(i);
        }
        i = i + 1;
    }
    proof {
        lemma_blank_line_from(buf@, 0);
    }
    None
}

// ---------------------------------------------------------------------------
// Content-Length
// ---------------------------------------------------------------------------

/// Index of the first `\n` in `t`, or `t.len()` when there is none.
pub open spec fn newline_index(t: Seq<char>) -> nat
    decreases t.len(),
{
    if t.len() == 0 || t[0] == '\n' {
        0
    } else {
        1 + newline_index(t.drop_first())
    }
}

pub proof fn lemma_newline_index(t: Seq<char>, k: int)
    requires
        0 <= k <= t.len(),
        forall|j: int| 0 <= j < k ==> t[j] != '\n',
        k == t.len() || t[k] == '\n',
    ensures
        newline_index(t) == k,
    decreases k,
{
    if k > 0 {
        lemma_newline_index(t.drop_first(), k - 1);
    }
}

/// `l` without one trailing `\r`.
pub open spec fn strip_cr(l: Seq<char>) -> Seq<char> {
    if l.len() > 0 && l.last() == '\r' {
        l.drop_last()
    } else {
        l
    }
}

/// The lines of `t` as `str::lines` yields them: split after each `\n`,
/// with the `\n` and a `\r` just before it removed; a final `\n` does not
/// start another line.
pub open spec fn text_lines(t: Seq<char>) -> Seq<Seq<char>>
    decreases t.len(),
{
    if t.len() == 0 {
        Seq::empty()
    } else {
        let e = newline_index(t);
        if e >= t.len() {
            seq![t]
        } else {
            seq![strip_cr(t.take(e as int))] + text_lines(t.skip(e as int + 1))
        }
    }
}

/// The header names that announce a body length: exactly these two spellings.
pub open spec fn content_length_name(lower: bool) -> Seq<char> {
    if lower {
        "content-length:"@
    } else {
        "Content-Length:"@
    }
}

pub open spec fn starts_with(s: Seq<char>, p: Seq<char>) -> bool {
    p.len() <= s.len() && s.take(p.len() as int) == p
}

/// What follows the name, when `line` starts with `Content-Length:` or `content-length:`.
pub open spec fn content_length_field(line: Seq<char>) -> Option<Seq<char>> {
    if starts_with(line, content_length_name(false)) {
        Some(line.skip(content_length_name(false).len() as int))
    } else if starts_with(line, content_length_name(true)) {
        Some(line.skip(content_length_name(true).len() as int))
    } else {
        None
    }
}

/// The field of the first line that has one.
pub open spec fn first_content_length_field(lines: Seq<Seq<char>>) -> Option<Seq<char>>
    decreases lines.len(),
{
    if lines.len() == 0 {
        None
    } else {
        match content_length_field(lines[0]) {
            Some(v) => Some(v),
            None => first_content_length_field(lines.drop_first()),
        }
    }
}

/// The body length that a header block announces: the first line that
/// starts with `Content-Length:` or `content-length:` decides, and its value,
/// trimmed, must parse as a `usize`. A block that is not UTF-8 announces none.
pub open spec fn announced_content_length(header: Seq<u8>) -> Option<usize> {
    if valid_utf8(header) {
        match first_content_length_field(text_lines(decode_utf8(header))) {
            Some(v) => parse_usize(trim(v)),
            None => None,
        }
    } else {
        None
    }
}

/// Whether `chars[lo..hi]` starts with `p`.
fn starts_with_at(chars: &Vec<char>, lo: usize, hi: usize, p: &str) -> (r: bool)
    requires
        lo <= hi <= chars@.len(),
    ensures
        r == starts_with(chars@.subrange(lo as int, hi as int), p@),
{
    let m = p.unicode_len();
    if hi - lo < m {
        return false;
    }
    let mut k: usize = 0;
    while k < m
        invariant
            m == p@.len(),
            lo + m <= hi <= chars@.len(),
            k <= m,
            forall|j: int| 0 <= j < k ==> chars@[lo + j] == p@[j],
        decreases m - k,
    {
        if chars[lo + k] != p.get_char(k) {
            assert(chars@.subrange(lo as int, hi as int).take(m as int)[k as int] != p@[k as int]);
            return false;
        }
        k = k + 1;
    }
    assert(chars@.subrange(lo as int, hi as int).take(m as int) =~= p@);
    true
}

proof fn lemma_lines_step(t: Seq<char>, start: int, e: int)
    requires
        0 <= start < e <= t.len() || (0 <= start <= e <= t.len() && start < t.len()),
        forall|j: int| start <= j < e ==> t[j] != '\n',
        e == t.len() || t[e] == '\n',
    ensures
        text_lines(t.skip(start)) == if e >= t.len() {
            seq![t.skip(start)]
        } else {
            seq![strip_cr(t.subrange(start, e))] + text_lines(t.skip(e as int + 1))
        },
{
    let u = t.skip(start);
    lemma_newline_index(u, e - start);
    if e < t.len() {
        assert(u.take(e - start) =~= t.subrange(start, e));
        assert(u.skip(e - start + 1) =~= t.skip(e + 1));
    }
}

/// The body length announced by the header block `header`.
pub fn extract_content_length(header: &[u8]) -> (r: Option<usize>)
    ensures
        r == announced_content_length(header@),
{
    let text = match utf8_str(header) {
        Some(t) => t,
        None => return None,
    };
    let chars = str_chars(text);
    let ghost t = chars@;
    let n = chars.len();
    let mut start: usize = 0;
    assert(t.skip(0) =~= t);
    while start < n
        invariant
            n == t.len(),
            t == chars@,
            t == decode_utf8(header@),
            valid_utf8(header@),
            start <= n,
            first_content_length_field(text_lines(t)) == first_content_length_field(
                text_lines(t.skip(start as int)),
            ),
        decreases n - start,
    {
        let mut e = start;
        while e < n && chars[e] != '\n'
            invariant
                start <= e <= n,
                n == chars@.len(),
                forall|j: int| start <= j < e ==> chars@[j] != '\n',
            decreases n - e,
        {
            e = e + 1;
        }
        proof {
            lemma_lines_step(t, start as int, e as int);
        }
        let mut line_end = e;
        if e < n && e > start && chars[e - 1] == '\r' {
            line_end = e - 1;
        }
        assert(chars@.subrange(start as int, line_end as int) == if e >= n {
            t.skip(start as int)
        } else {
            strip_cr(t.subrange(start as int, e as int))
        }) by {
            if e < n && e > start && t[e - 1] == '\r' {
                assert(t.subrange(start as int, e as int).drop_last() =~= t.subrange(
                    start as int,
                    line_end as int,
                ));
            }
            if e >= n {
                assert(t.subrange(start as int, e as int) =~= t.skip(start as int));
            }
        }
        let ghost line = chars@.subrange(start as int, line_end as int);
        let ghost lines = text_lines(t.skip(start as int));
        assert(lines[0] == line);
        assert(lines.drop_first() == if e >= n {
            Seq::<Seq<char>>::empty()
        } else {
            text_lines(t.skip(e as int + 1))
        }) by {
            if e >= n {
                assert(lines.drop_first() =~= Seq::<Seq<char>>::empty());
            } else {
                assert(lines.drop_first() =~= text_lines(t.skip(e + 1)));
            }
        }
        proof {
            reveal_strlit("Content-Length:");
            reveal_strlit("content-length:");
        }
        let upper = starts_with_at(&chars, start, line_end, "Content-Length:");
        let lower = !upper && starts_with_at(&chars, start, line_end, "content-length:");
        if upper || lower {
            let vs = start + 15;
            assert(line.skip(15) =~= chars@.subrange(vs as int, line_end as int));
            let (a, b) = trim_range(&chars, vs, line_end);
            return parse_usize_range(&chars, a, b);
        }
        assert(content_length_field(line) is None);
        if e >= n {
            assert(first_content_length_field(lines.drop_first()) is None);
            return None;
        }
        start = e + 1;
    }
    assert(t.skip(start as int) =~= Seq::<char>::empty());
    None
}

proof fn lemma_lines_front(line: Seq<char>, rest: Seq<char>)
    requires
        forall|i: int| 0 <= i < line.len() ==> line[i] != '\n',
    ensures
        text_lines(line + seq!['\n'] + rest) == seq![strip_cr(line)] + text_lines(rest),
{
    let t = line + seq!['\n'] + rest;
    lemma_newline_index(t, line.len() as int);
    assert(t.take(line.len() as int) =~= line);
    assert(t.skip(line.len() as int + 1) =~= rest);
}

proof fn lemma_first_field_front(l: Seq<char>, lines: Seq<Seq<char>>)
    ensures
        first_content_length_field(seq![l] + lines) == match content_length_field(l) {
            Some(v) => Some(v),
            None => first_content_length_field(lines),
        },
{
    assert((seq![l] + lines)[0] == l);
    assert((seq![l] + lines).drop_first() =~= lines);
}

/// A line in front of the one that announces the length changes nothing:
/// putting in front of a UTF-8 header block a line that starts with neither
/// `Content-Length:` nor `content-length:` leaves the announced length as
/// it was, wherever the announcing line stands.
pub proof fn content_length_after_other_line(line: Seq<char>, rest: Seq<char>)
    requires
        forall|i: int| 0 <= i < line.len() ==> line[i] != '\n',
        !(line.len() >= 15 && line.take(15) == "Content-Length:"@),
        !(line.len() >= 15 && line.take(15) == "content-length:"@),
    ensures
        announced_content_length(vstd::utf8::encode_utf8(line + seq!['\n'] + rest))
            == announced_content_length(vstd::utf8::encode_utf8(rest)),
{
    broadcast use vstd::utf8::encode_utf8_valid_utf8, vstd::utf8::encode_utf8_decode_utf8;

    reveal_strlit("Content-Length:");
    reveal_strlit("content-length:");
    lemma_lines_front(line, rest);
    lemma_first_field_front(strip_cr(line), text_lines(rest));
    let l = strip_cr(line);
    if l.len() >= 15 {
        assert(l.take(15) =~= line.take(15));
    }
    assert(content_length_field(l) is None);
}

/// The line that announces the length is read: a header block whose first
/// line is `Content-Length:` or `content-length:` followed by `value` (and
/// then the end of the block or a line break) announces `value`, trimmed,
/// read as a decimal number.
pub proof fn content_length_of_announcing_line(lower: bool, value: Seq<char>, rest: Seq<char>)
    requires
        forall|i: int| 0 <= i < value.len() ==> value[i] != '\n' && value[i] != '\r',
        rest.len() == 0 || rest[0] == '\n',
    ensures
        announced_content_length(
            vstd::utf8::encode_utf8(
                (if lower {
                    "content-length:"@
                } else {
                    "Content-Length:"@
                }) + value + rest,
            ),
        ) == parse_usize(trim(value)),
{
    broadcast use vstd::utf8::encode_utf8_valid_utf8, vstd::utf8::encode_utf8_decode_utf8;

    reveal_strlit("Content-Length:");
    reveal_strlit("content-length:");
    let name = if lower {
        "content-length:"@
    } else {
        "Content-Length:"@
    };
    assert(name.len() == 15);
    assert forall|i: int| 0 <= i < 15 implies name[i] != '\n' && name[i] != '\r' by {
        assert(name[i] == 'C' || name[i] == 'c' || name[i] == 'o' || name[i] == 'n' || name[i] == 't'
            || name[i] == 'e' || name[i] == '-' || name[i] == 'L' || name[i] == 'l' || name[i] == 'g'
            || name[i] == 'h' || name[i] == ':');
    }
    let l = name + value;
    assert forall|i: int| 0 <= i < l.len() implies l[i] != '\n' && l[i] != '\r' by {
        if i < 15 {
            assert(l[i] == name[i]);
        } else {
            assert(l[i] == value[i - 15]);
        }
    }
    let t = l + rest;
    if rest.len() == 0 {
        assert(t =~= l);
        lemma_newline_index(l, l.len() as int);
        assert(text_lines(l) == seq![l]);
        assert(seq![l] =~= seq![l] + Seq::<Seq<char>>::empty());
        lemma_first_field_front(l, Seq::empty());
    } else {
        let after = rest.drop_first();
        assert(t =~= l + seq!['\n'] + after);
        lemma_lines_front(l, after);
        lemma_first_field_front(strip_cr(l), text_lines(after));
    }
    assert(strip_cr(l) == l);
    assert(l.take(15) =~= name);
    assert(l.skip(15) =~= value);
    if lower {
        assert(l.take(15)[0] == 'c');
        assert(content_length_name(false)[0] == 'C');
        assert(!starts_with(l, content_length_name(false)));
    }
}

// ---------------------------------------------------------------------------
// Reading a whole message
// ---------------------------------------------------------------------------

/// Where the reading of a message stands.
#[derive(Debug, Clone, Copy, PartialEq, Eq, Structural)]
pub enum ReadPhase {
    /// Still looking for the end of the header block.
    Headers,
    /// The header block announced a body; the message ends at `total` bytes.
    Body { total: usize },
    /// No body length was announced; everything up to the end of the stream belongs to the message.
    UntilClose,
    /// Nothing more is to be read.
    Finished,
}

/// What the reader asks of the stream next, or how reading ended.
#[derive(Debug, Clone, Copy, PartialEq, Eq, Structural)]
pub enum ReadStep {
    /// Read one more chunk and hand it to `on_chunk` (an empty chunk at the end of the stream).
    ReadChunk,
    /// Read the stream to its end and hand everything to `on_rest`.
    ReadToEnd,
    /// The message is complete.
    Complete,
    /// The header block grew past the limit without ending.
    HeadersTooLarge,
    /// The announced body is longer than the limit.
    BodyTooLarge,
}

/// Decides how a message goes on once its header block ends at `header_end`:
/// what phase follows and what to ask for.
pub open spec fn after_headers(buf: Seq<u8>, header_end: int, max_body: usize) -> (ReadPhase, ReadStep) {
    match announced_content_length(buf.take(header_end)) {
        Some(cl) => if cl > max_body {
            (ReadPhase::Finished, ReadStep::BodyTooLarge)
        } else if buf.len() < header_end + 4 + cl {
            (ReadPhase::Body { total: (header_end + 4 + cl) as usize }, ReadStep::ReadChunk)
        } else {
            (ReadPhase::Finished, ReadStep::Complete)
        },
        None => (ReadPhase::UntilClose, ReadStep::ReadToEnd),
    }
}

/// The decisions of reading one HTTP message from a stream, kept apart from
/// the stream itself: the caller performs each requested read and hands the
/// bytes back.
pub struct HttpMessageReader {
    buf: Vec<u8>,
    max_header_bytes: usize,
    max_body_bytes: usize,
    phase: ReadPhase,
}

impl HttpMessageReader {
    pub closed spec fn buffered(&self) -> Seq<u8> {
        self.buf@
    }

    pub closed spec fn phase(&self) -> ReadPhase {
        self.phase
    }

    pub closed spec fn max_header(&self) -> usize {
        self.max_header_bytes
    }

    pub closed spec fn max_body(&self) -> usize {
        self.max_body_bytes
    }

    /// A reader with nothing read yet, whose first step is `ReadChunk`.
    pub fn new(max_header_bytes: usize, max_body_bytes: usize) -> (r: Self)
        ensures
            r.buffered() == Seq::<u8>::empty(),
            r.phase() == ReadPhase::Headers,
            r.max_header() == max_header_bytes,
            r.max_body() == max_body_bytes,
    {
        HttpMessageReader { buf: Vec::new(), max_header_bytes, max_body_bytes, phase: ReadPhase::Headers }
    }

    /// The limits of an HTTP request: 64 KiB of headers and 1 MiB of body.
    pub fn for_request() -> (r: Self)
        ensures
            r.buffered() == Seq::<u8>::empty(),
            r.phase() == ReadPhase::Headers,
            r.max_header() == 64 * 1024,
            r.max_body() == 1024 * 1024,
    {
        Self::new(64 * 1024, 1024 * 1024)
    }

    /// The limits of an HTTP response: 64 KiB of headers and 16 MiB of body.
    pub fn for_response() -> (r: Self)
        ensures
            r.buffered() == Seq::<u8>::empty(),
            r.phase() == ReadPhase::Headers,
            r.max_header() == 64 * 1024,
            r.max_body() == 16 * 1024 * 1024,
    {
        Self::new(64 * 1024, 16 * 1024 * 1024)
    }

    /// The phase, as a value.
    pub fn current_phase(&self) -> (p: ReadPhase)
        ensures
            p == self.phase(),
    {
        self.phase
    }

    /// Whether a chunk of `len` bytes can be taken without the lengths
    /// that the reader computes leaving the range of `usize`.
    pub open spec fn room_for(&self, len: nat) -> bool {
        self.buffered().len() + len + 4 + self.max_body() <= usize::MAX
    }

    /// Runtime form of `room_for`.
    pub fn has_room_for(&self, len: usize) -> (r: bool)
        ensures
            r == self.room_for(len as nat),
    {
        self.max_body_bytes <= usize::MAX - 4
            && self.buf.len() <= usize::MAX - 4 - self.max_body_bytes
            && len <= usize::MAX - 4 - self.max_body_bytes - self.buf.len()
    }

    fn decide_after_headers(&mut self, header_end: usize) -> (step: ReadStep)
        requires
            header_end <= old(self).buf@.len(),
            old(self).buf@.len() + 4 + old(self).max_body_bytes <= usize::MAX,
        ensures
            final(self).buf@ == old(self).buf@,
            final(self).max_header_bytes == old(self).max_header_bytes,
            final(self).max_body_bytes == old(self).max_body_bytes,
            (final(self).phase, step) == after_headers(
                old(self).buf@,
                header_end as int,
                old(self).max_body_bytes,
            ),
    {
        let header = copy_range(self.buf.as_slice(), 0, header_end);
        assert(header@ =~= self.buf@.take(header_end as int));
        match extract_content_length(header.as_slice()) {
            Some(cl) => {
                if cl > self.max_body_bytes {
                    self.phase = ReadPhase::Finished;
                    ReadStep::BodyTooLarge
                } else {
                    let total = header_end + 4 + cl;
                    if self.buf.len() < total {
                        self.phase = ReadPhase::Body { total };
                        ReadStep::ReadChunk
                    } else {
                        self.phase = ReadPhase::Finished;
                        ReadStep::Complete
                    }
                }
            },
            None => {
                self.phase = ReadPhase::UntilClose;
                ReadStep::ReadToEnd
            },
        }
    }

    /// Takes the next chunk read from the stream; an empty chunk means the
    /// stream has ended.
    ///
    /// While the header block is incomplete, the chunk is appended and the
    /// block's end searched for; when the stream ends first, the whole buffer
    /// counts as the header block. Once the block ends, its announced length
    /// decides the rest (`after_headers`); a block longer than the limit
    /// without an end fails. While a body is read, the chunk is appended and
    /// the message is complete once `total` bytes are there or the stream ends.
    pub fn on_chunk(&mut self, chunk: &[u8]) -> (step: ReadStep)
        requires
            old(self).phase() == ReadPhase::Headers || old(self).phase() is Body,
            old(self).room_for(chunk@.len()),
        ensures
            final(self).buffered() == old(self).buffered() + chunk@,
            final(self).max_header() == old(self).max_header(),
            final(self).max_body() == old(self).max_body(),
            old(self).phase() == ReadPhase::Headers ==> {
                let buf = old(self).buffered() + chunk@;
                if chunk@.len() == 0 {
                    (final(self).phase(), step) == after_headers(buf, buf.len() as int, old(self).max_body())
                } else {
                    match header_end(buf) {
                        Some(he) => (final(self).phase(), step) == after_headers(buf, he, old(self).max_body()),
                        None => if buf.len() > old(self).max_header() {
                            final(self).phase() == ReadPhase::Finished && step == ReadStep::HeadersTooLarge
                        } else {
                            final(self).phase() == ReadPhase::Headers && step == ReadStep::ReadChunk
                        },
                    }
                }
            },
            old(self).phase() matches ReadPhase::Body { total } ==> {
                if chunk@.len() == 0 || old(self).buffered().len() + chunk@.len() >= total {
                    final(self).phase() == ReadPhase::Finished && step == ReadStep::Complete
                } else {
                    final(self).phase() == old(self).phase() && step == ReadStep::ReadChunk
                }
            },
    {
        let ghost before = self.buf@;
        push_all(&mut self.buf, chunk);
        assert(self.buf@ == before + chunk@);
        match self.phase {
            ReadPhase::Headers => {
                if chunk.len() == 0 {
                    let he = self.buf.len();
                    assert(self.buf@ =~= before);
                    self.decide_after_headers(he)
                } else {
                    match find_header_end(self.buf.as_slice()) {
                        Some(pos) => self.decide_after_headers(pos),
                        None => {
                            if self.buf.len() > self.max_header_bytes {
                                self.phase = ReadPhase::Finished;
                                ReadStep::HeadersTooLarge
                            } else {
                                ReadStep::ReadChunk
                            }
                        },
                    }
                }
            },
            ReadPhase::Body { total } => {
                if chunk.len() == 0 || self.buf.len() >= total {
                    self.phase = ReadPhase::Finished;
                    ReadStep::Complete
                } else {
                    ReadStep::ReadChunk
                }
            },
            _ => ReadStep::Complete,
        }
    }

    /// Takes everything read up to the end of the stream, when no body
    /// length was announced; the message is then complete.
    pub fn on_rest(&mut self, rest: &[u8]) -> (step: ReadStep)
        requires
            old(self).phase() == ReadPhase::UntilClose,
        ensures
            final(self).buffered() == old(self).buffered() + rest@,
            final(self).phase() == ReadPhase::Finished,
            final(self).max_header() == old(self).max_header(),
            final(self).max_body() == old(self).max_body(),
            step == ReadStep::Complete,
    {
        push_all(&mut self.buf, rest);
        self.phase = ReadPhase::Finished;
        ReadStep::Complete
    }

    /// The bytes read so far.
    pub fn into_message(self) -> (m: Vec<u8>)
        ensures
            m@ == self.buffered(),
    {
        self.buf
    }
}

} // verus!
