//! Streaming a model file over HTTP range requests: the buffering and range
//! planning of the reader. The requests themselves are made by the caller.
//!
//! Small reads (the many tiny reads of a file header) are coalesced into a
//! read-ahead window; large reads (tensor payloads) are fetched at exactly
//! their size, so no byte is pulled that is not used.

use vstd::prelude::*;
use vstd::string::*;

verus! {

/// Read-ahead window for small reads, in bytes.
pub const SMALL_READAHEAD: u64 = 262144;

/// A reader over a remote file of known length, holding one fetched range.
pub struct HttpRangeReader {
    url: String,
    pos: u64,
    len: u64,
    buf: Vec<u8>,
    buf_start: u64,
    fetched_bytes: u64,
}

/// What a read needs.
pub enum ReadPlan {
    /// At or past the end, or an empty destination: the read returns 0.
    AtEnd,
    /// The position is not buffered: fetch from `start`, at least `want` bytes.
    Fetch { start: u64, want: u64 },
    /// The position is buffered: copy from the buffer.
    Buffered,
}

/// Where to seek to.
pub enum SeekTarget {
    Start(u64),
    End(i64),
    Current(i64),
}

/// Why a seek was refused.
#[derive(Debug, PartialEq, Eq, Structural)]
pub enum SeekError {
    /// The target lies before the start of the file.
    BeforeStart,
}

/// How many bytes a fetch from `start` asks for: at least `want`, and small
/// reads are widened to the read-ahead window (not past the end).
pub open spec fn fetch_span(len: u64, start: u64, want: u64) -> int {
    let rest: int = if len >= start { len - start } else { 0 };
    let window: int = if SMALL_READAHEAD <= rest { SMALL_READAHEAD as int } else { rest };
    if want >= window { want as int } else { window }
}

/// The inclusive byte range to request for a fetch from `start`, or `None`
/// when it would be empty.
pub open spec fn fetch_range(len: u64, start: u64, want: u64) -> Option<(u64, u64)> {
    let end: int = if start + fetch_span(len, start, want) <= len { start + fetch_span(len, start, want) } else { len as int };
    if end <= start {
        None
    } else {
        Some((start, (end - 1) as u64))
    }
}

/// A seek offset `base + delta`, where `base` is read as a signed 64-bit
/// value (wrapping past the signed maximum).
pub open spec fn as_signed(x: u64) -> int {
    if x <= i64::MAX {
        x as int
    } else {
        x - 0x1_0000_0000_0000_0000
    }
}

/// The position a seek aims at.
pub open spec fn seek_target(len: u64, pos: u64, target: SeekTarget) -> int {
    match target {
        SeekTarget::Start(s) => as_signed(s),
        SeekTarget::End(e) => as_signed(len) + e,
        SeekTarget::Current(c) => as_signed(pos) + c,
    }
}

/// Whether the target's arithmetic stays within signed 64 bits.
pub open spec fn seek_in_range(len: u64, pos: u64, target: SeekTarget) -> bool {
    i64::MIN <= seek_target(len, pos, target) <= i64::MAX
}

fn signed_of(x: u64) -> (r: i64)
    ensures
        r as int == as_signed(x),
{
    if x <= i64::MAX as u64 {
        x as i64
    } else {
        let below: u64 = u64::MAX - x;
        -(below as i64) - 1
    }
}

impl HttpRangeReader {
    /// The reader's source.
    pub closed spec fn url_view(&self) -> Seq<char> {
        self.url@
    }

    /// Current read position.
    pub closed spec fn position(&self) -> u64 {
        self.pos
    }

    /// Length of the remote file.
    pub closed spec fn length(&self) -> u64 {
        self.len
    }

    /// Total bytes pulled over the wire so far.
    pub closed spec fn fetched(&self) -> u64 {
        self.fetched_bytes
    }

    /// Total bytes actually pulled over the wire (for diagnostics).
    pub fn fetched_bytes(&self) -> (r: u64)
        ensures
            r == self.fetched(),
    {
        self.fetched_bytes
    }

    /// The buffered bytes.
    pub closed spec fn buffer(&self) -> Seq<u8> {
        self.buf@
    }

    /// Where the buffered bytes start in the file.
    pub closed spec fn buffer_start(&self) -> u64 {
        self.buf_start
    }

    /// A reader at the start of a remote file of `len` bytes, with nothing
    /// buffered or fetched yet.
    pub fn from_length(url: String, len: u64) -> (r: HttpRangeReader)
        ensures
            r.url_view() == url@,
            r.position() == 0,
            r.length() == len,
            r.buffer() == Seq::<u8>::empty(),
            r.buffer_start() == 0,
            r.fetched() == 0,
    {
        HttpRangeReader { url, pos: 0, len, buf: Vec::new(), buf_start: 0, fetched_bytes: 0 }
    }

    /// The current read position.
    pub fn stream_position(&self) -> (r: u64)
        ensures
            r == self.position(),
    {
        self.pos
    }

    /// The length of the remote file.
    pub fn total_length(&self) -> (r: u64)
        ensures
            r == self.length(),
    {
        self.len
    }

    /// Where the buffered bytes start in the file, and how many there are.
    pub fn buffer_span(&self) -> (r: (u64, usize))
        ensures
            r.0 == self.buffer_start(),
            r.1 == self.buffer().len(),
    {
        (self.buf_start, self.buf.len())
    }

    /// The source of the reader.
    pub fn url(&self) -> (r: &String)
        ensures
            r@ == self.url_view(),
    {
        &self.url
    }

    /// The inclusive byte range to request for a fetch from `start` of at
    /// least `want` bytes; `None` when there is nothing to fetch.
    pub fn plan_fetch(&self, start: u64, want: u64) -> (r: Option<(u64, u64)>)
        requires
            start + fetch_span(self.length(), start, want) <= u64::MAX,
        ensures
            r == fetch_range(self.length(), start, want),
    {
        let rest = if self.len >= start { self.len - start } else { 0 };
        let window = if SMALL_READAHEAD <= rest { SMALL_READAHEAD } else { rest };
        let span = if want >= window { want } else { window };
        let end = if start + span <= self.len { start + span } else { self.len };
        if end <= start {
            None
        } else {
            Some((start, end - 1))
        }
    }

    /// Prepares the prefetch of a contiguous range covering a whole layer
    /// slice, so that the many reads that follow hit the buffer. Returns the
    /// range to request (then handed to [`Self::store_fetched`]); when there
    /// is nothing to fetch, the buffer is emptied at `start` instead.
    pub fn prefetch(&mut self, start: u64, len: u64) -> (r: Option<(u64, u64)>)
        requires
            start + fetch_span(old(self).length(), start, len) <= u64::MAX,
        ensures
            r == fetch_range(old(self).length(), start, len),
            final(self).position() == old(self).position(),
            final(self).length() == old(self).length(),
            final(self).url_view() == old(self).url_view(),
            final(self).fetched() == old(self).fetched(),
            r is Some ==> final(self).buffer() == old(self).buffer() && final(self).buffer_start() == old(
                self,
            ).buffer_start(),
            r is None ==> final(self).buffer() == Seq::<u8>::empty() && final(self).buffer_start() == start,
    {
        let r = self.plan_fetch(start, len);
        if r.is_none() {
            self.buf.clear();
            self.buf_start = start;
        }
        r
    }

    /// Installs the bytes fetched from `start` as the buffer.
    pub fn store_fetched(&mut self, start: u64, data: Vec<u8>)
        requires
            old(self).fetched() + data@.len() <= u64::MAX,
        ensures
            final(self).buffer() == data@,
            final(self).buffer_start() == start,
            final(self).fetched() == old(self).fetched() + data@.len(),
            final(self).position() == old(self).position(),
            final(self).length() == old(self).length(),
            final(self).url_view() == old(self).url_view(),
    {
        self.fetched_bytes = self.fetched_bytes + data.len() as u64;
        self.buf = data;
        self.buf_start = start;
    }

    /// What a read into `out_len` bytes needs.
    pub fn read_plan(&self, out_len: usize) -> (r: ReadPlan)
        ensures
            (self.position() >= self.length() || out_len == 0) ==> r is AtEnd,
            !(self.position() >= self.length() || out_len == 0) ==> {
                let buffered = self.position() >= self.buffer_start() && self.position() - self.buffer_start()
                    < self.buffer().len();
                &&& buffered ==> r is Buffered
                &&& !buffered ==> r == (ReadPlan::Fetch { start: self.position(), want: out_len as u64 })
            },
    {
        if self.pos >= self.len || out_len == 0 {
            return ReadPlan::AtEnd;
        }
        let in_buf = self.pos >= self.buf_start && self.pos - self.buf_start < self.buf.len() as u64;
        if in_buf {
            ReadPlan::Buffered
        } else {
            ReadPlan::Fetch { start: self.pos, want: out_len as u64 }
        }
    }

    /// Copies buffered bytes from the current position into `out` and
    /// advances past them. Returns how many were copied: as many as both the
    /// buffer and `out` hold, 0 when the position is past the buffer.
    pub fn copy_buffered(&mut self, out: &mut [u8]) -> (n: usize)
        requires
            old(self).position() >= old(self).buffer_start(),
            old(self).buffer_start() + old(self).buffer().len() <= u64::MAX,
        ensures
            ({
                let offset = old(self).position() - old(self).buffer_start();
                let avail = old(self).buffer().len() - offset;
                if offset >= old(self).buffer().len() {
                    n == 0 && final(out)@ == old(out)@
                } else {
                    &&& n == (if avail <= old(out)@.len() {
                        avail
                    } else {
                        old(out)@.len() as int
                    })
                    &&& final(out)@.len() == old(out)@.len()
                    &&& final(out)@.take(n as int) == old(self).buffer().subrange(offset, offset + n)
                    &&& final(out)@.skip(n as int) == old(out)@.skip(n as int)
                }
            }),
            final(self).position() == old(self).position() + n,
            final(self).buffer() == old(self).buffer(),
            final(self).buffer_start() == old(self).buffer_start(),
            final(self).length() == old(self).length(),
            final(self).url_view() == old(self).url_view(),
            final(self).fetched() == old(self).fetched(),
    {
        let offset_wide = self.pos - self.buf_start;
        if offset_wide >= self.buf.len() as u64 {
            return 0;
        }
        let offset = offset_wide as usize;
        let avail = self.buf.len() - offset;
        let n = if avail <= out.len() { avail } else { out.len() };
        let ghost start_out = out@;
        let buf = &self.buf;
        let buf_len = buf.len();
        for k in 0..n
            invariant
                buf_len == buf@.len(),
                n <= out@.len(),
                offset + n <= buf@.len(),
                out@.len() == start_out.len(),
                out@.take(k as int) == buf@.subrange(offset as int, offset + k),
                out@.skip(n as int) == start_out.skip(n as int),
                forall|q: int| k <= q < out@.len() ==> out@[q] == start_out[q],
        {
            out[k] = buf[offset + k];
            assert(out@.take(k + 1) =~= buf@.subrange(offset as int, offset + k + 1));
            assert(out@.skip(n as int) =~= start_out.skip(n as int));
        }
        self.pos = self.pos + n as u64;
        n
    }

    /// Moves the read position. Offsets are computed in signed 64 bits; a
    /// target before the start is refused and leaves the position as it is.
    pub fn seek(&mut self, target: SeekTarget) -> (r: Result<u64, SeekError>)
        requires
            seek_in_range(old(self).length(), old(self).position(), target),
        ensures
            seek_target(old(self).length(), old(self).position(), target) < 0 ==> r == Err::<u64, SeekError>(
                SeekError::BeforeStart,
            ) && final(self).position() == old(self).position(),
            seek_target(old(self).length(), old(self).position(), target) >= 0 ==> r == Ok::<u64, SeekError>(
                seek_target(old(self).length(), old(self).position(), target) as u64,
            ) && final(self).position() == seek_target(old(self).length(), old(self).position(), target),
            final(self).length() == old(self).length(),
            final(self).buffer() == old(self).buffer(),
            final(self).buffer_start() == old(self).buffer_start(),
            final(self).url_view() == old(self).url_view(),
            final(self).fetched() == old(self).fetched(),
    {
        let new: i64 = match target {
            SeekTarget::Start(s) => signed_of(s),
            SeekTarget::End(e) => signed_of(self.len) + e,
            SeekTarget::Current(c) => signed_of(self.pos) + c,
        };
        if new < 0 {
            return Err(SeekError::BeforeStart);
        }
        self.pos = new as u64;
        Ok(self.pos)
    }
}

/// Whether every byte is an ASCII digit.
pub open spec fn all_digits(s: Seq<u8>) -> bool {
    forall|i: int| 0 <= i < s.len() ==> 48 <= #[trigger] s[i] <= 57
}

/// The value of a string of ASCII digits.
pub open spec fn decimal_value(s: Seq<u8>) -> int
    decreases s.len(),
{
    if s.len() == 0 {
        0
    } else {
        decimal_value(s.drop_last()) * 10 + (s.last() - 48)
    }
}

/// The digits of an unsigned decimal: the text after an optional `+`.
pub open spec fn unsigned_digits(s: Seq<u8>) -> Seq<u8> {
    if s.len() > 0 && s[0] == 43 {
        s.skip(1)
    } else {
        s
    }
}

/// What parsing a `Content-Length` value as a 64-bit unsigned integer gives:
/// an optional `+`, then one or more ASCII digits whose value fits.
pub open spec fn content_length_value(s: Seq<u8>) -> Option<u64> {
    let d = unsigned_digits(s);
    if d.len() > 0 && all_digits(d) && decimal_value(d) <= u64::MAX {
        Some(decimal_value(d) as u64)
    } else {
        None
    }
}

proof fn lemma_decimal_value_step(s: Seq<u8>, i: int)
    requires
        0 <= i < s.len(),
    ensures
        decimal_value(s.take(i + 1)) == decimal_value(s.take(i)) * 10 + (s[i] - 48),
{
    assert(s.take(i + 1).drop_last() =~= s.take(i));
}

proof fn lemma_decimal_value_monotone(s: Seq<u8>, i: int)
    requires
        0 <= i <= s.len(),
        all_digits(s),
    ensures
        decimal_value(s.take(i)) <= decimal_value(s),
        decimal_value(s.take(i)) >= 0,
    decreases s.len() - i,
{
    if i < s.len() {
        lemma_decimal_value_monotone(s, i + 1);
        lemma_decimal_value_step(s, i);
        assert(decimal_value(s.take(i)) >= 0) by {
            lemma_decimal_value_nonneg(s.take(i));
        }
        assert(decimal_value(s.take(i)) <= decimal_value(s.take(i)) * 10 + (s[i] - 48)) by (nonlinear_arith)
            requires
                decimal_value(s.take(i)) >= 0,
                48 <= s[i] <= 57,
        ;
    } else {
        assert(s.take(i) =~= s);
        lemma_decimal_value_nonneg(s);
    }
}

proof fn lemma_decimal_value_nonneg(s: Seq<u8>)
    requires
        all_digits(s),
    ensures
        decimal_value(s) >= 0,
    decreases s.len(),
{
    if s.len() > 0 {
        assert(all_digits(s.drop_last()));
        lemma_decimal_value_nonneg(s.drop_last());
    }
}

/// Parses a `Content-Length` header value as a 64-bit unsigned integer.
pub fn parse_content_length(value: &str) -> (r: Option<u64>)
    ensures
        r == content_length_value(value.spec_bytes()),
{
    let bytes = value.as_bytes();
    let n = bytes.len();
    let start: usize = if n > 0 && bytes[0] == 43 { 1 } else { 0 };
    let ghost d = unsigned_digits(bytes@);
    assert(d =~= bytes@.skip(start as int));
    if start >= n {
        return None;
    }
    let mut acc: u64 = 0;
    let mut i = start;
    while i < n
        invariant
            start <= i <= n,
            n == bytes@.len(),
            d == bytes@.skip(start as int),
            d == unsigned_digits(bytes@),
            bytes@ == value.spec_bytes(),
            d.len() == n - start,
            all_digits(d.take(i - start)),
            acc as int == decimal_value(d.take(i - start)),
        decreases n - i,
    {
        let c = bytes[i];
        if c < 48 || c > 57 {
            proof {
                assert(d[i - start] == c);
                assert(!all_digits(d));
            }
            return None;
        }
        let digit = (c - 48) as u64;
        proof {
            assert(d[i - start] == c);
            lemma_decimal_value_step(d, i - start);
            assert(d.take(i - start + 1).drop_last() =~= d.take(i - start));
        }
        if acc > (u64::MAX - digit) / 10 {
            proof {
                assert(decimal_value(d.take(i - start + 1)) > u64::MAX) by (nonlinear_arith)
                    requires
                        acc > (u64::MAX - digit) / 10,
                        decimal_value(d.take(i - start + 1)) == acc * 10 + digit,
                ;
                if all_digits(d) {
                    lemma_decimal_value_monotone(d, i - start + 1);
                    assert(decimal_value(d) > u64::MAX);
                }
                assert(content_length_value(bytes@) is None);
            }
            return None;
        }
        acc = acc * 10 + digit;
        i = i + 1;
        proof {
            assert(all_digits(d.take(i - start)));
        }
    }
    proof {
        assert(d.take(n - start) =~= d);
    }
    Some(acc)
}

/// A prefetched range never reaches past the end of the file, and always
/// covers at least the bytes asked for that the file has.
pub proof fn lemma_fetch_range_within_file(len: u64, start: u64, want: u64)
    requires
        start + fetch_span(len, start, want) <= u64::MAX,
    ensures
        fetch_range(len, start, want) matches Some((s, e)) ==> s == start && e < len && e + 1 >= (if start
            + want <= len {
            start + want
        } else {
            len as int
        }),
        fetch_range(len, start, want) is None <==> start >= len,
{
}

/// Small reads fetch the whole read-ahead window (or up to the end), large
/// reads fetch exactly what they ask for.
pub proof fn lemma_fetch_span_cases(len: u64, start: u64, want: u64)
    requires
        start < len,
    ensures
        want >= SMALL_READAHEAD ==> fetch_span(len, start, want) == want,
        want < SMALL_READAHEAD && len - start >= SMALL_READAHEAD ==> fetch_span(len, start, want) == SMALL_READAHEAD,
{
}

} // verus!
