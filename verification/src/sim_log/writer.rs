//! Writing and reading `.simlog` bytes.

use super::schema::{LogEvent, LogEventV, LogFrame, LogFrameV, LOG_MAGIC, LOG_VERSION};
use crate::codec::{from_bytes, to_bytes, DecodeError, Wire};
use vstd::prelude::*;

verus! {

/// Collects the frames of a log. They are taken out as bytes with `drain`.
#[derive(Debug)]
pub struct EventLogger {
    pub frames: Vec<LogFrame>,
}

impl View for EventLogger {
    type V = Seq<LogFrameV>;

    open spec fn view(&self) -> Seq<LogFrameV> {
        self.frames@.map_values(|f: LogFrame| f@)
    }
}

/// The frame that every log starts with.
pub open spec fn header_frame() -> LogFrameV {
    LogFrameV {
        at_ns: 0,
        event: LogEventV::Header { magic: LOG_MAGIC, version: LOG_VERSION },
    }
}

/// A number's four bytes, low byte first.
pub open spec fn le32(n: u32) -> Seq<u8> {
    seq![
        (n % 0x100) as u8,
        (n / 0x100 % 0x100) as u8,
        (n / 0x1_0000 % 0x100) as u8,
        (n / 0x100_0000) as u8,
    ]
}

/// The number of the first four bytes, low byte first.
pub open spec fn of_le32(b: Seq<u8>) -> u32 {
    (b[0] + b[1] * 0x100 + b[2] * 0x1_0000 + b[3] * 0x100_0000) as u32
}

/// A frame as it stands in a file: the length of its byte form, kept to 32
/// bits, and the byte form.
pub open spec fn framed(f: LogFrameV) -> Seq<u8> {
    le32(LogFrame::bytes(f).len() as u32) + LogFrame::bytes(f)
}

/// Frames one after the other.
pub open spec fn framed_all(s: Seq<LogFrameV>) -> Seq<u8>
    decreases s.len(),
{
    if s.len() == 0 {
        Seq::empty()
    } else {
        framed(s[0]) + framed_all(s.drop_first())
    }
}

impl EventLogger {
    /// A log that holds its header.
    pub fn create() -> (r: EventLogger)
        ensures
            r@ == seq![header_frame()],
    {
        let mut r = EventLogger { frames: Vec::new() };
        r.log(0, LogEvent::Header { magic: LOG_MAGIC, version: LOG_VERSION });
        assert(r@ =~= seq![header_frame()]);
        r
    }

    pub fn log(&mut self, at_ns: u64, event: LogEvent)
        ensures
            final(self)@ == old(self)@.push(LogFrameV { at_ns, event: event@ }),
    {
        let ghost before = self@;
        let ghost e = event@;
        self.frames.push(LogFrame { at_ns, event });
        assert(self@ =~= before.push(LogFrameV { at_ns, event: e }));
    }

    /// Takes the collected frames out, as the bytes of a file.
    pub fn drain(&mut self) -> (r: Vec<u8>)
        ensures
            r@ == framed_all(old(self)@),
            final(self)@.len() == 0,
    {
        let ghost s = self@;
        let mut out: Vec<u8> = Vec::new();
        let mut i: usize = 0;
        assert(s.skip(0) =~= s);
        while i < self.frames.len()
            invariant
                i <= self.frames.len(),
                s == self@,
                framed_all(s) == out@ + framed_all(s.skip(i as int)),
            decreases self.frames.len() - i,
        {
            let ghost before = out@;
            write_frame(&self.frames[i], &mut out);
            proof {
                let t = s.skip(i as int);
                assert(t[0] == self.frames@[i as int]@);
                assert(t.drop_first() =~= s.skip(i + 1));
                assert(out@ + framed_all(s.skip(i + 1)) =~= before + (framed(t[0]) + framed_all(
                    s.skip(i + 1),
                )));
            }
            i += 1;
        }
        assert(s.skip(i as int) =~= Seq::empty());
        assert(out@ + Seq::<u8>::empty() =~= out@);
        self.frames = Vec::new();
        out
    }
}

/// Appends a frame to the bytes of a file.
pub fn write_frame(f: &LogFrame, out: &mut Vec<u8>)
    ensures
        final(out)@ == old(out)@ + framed(f@),
{
    let mut body = to_bytes(f);
    let n: u32 = body.len() as u32;
    out.push((n % 0x100) as u8);
    out.push((n / 0x100 % 0x100) as u8);
    out.push((n / 0x1_0000 % 0x100) as u8);
    out.push((n / 0x100_0000) as u8);
    out.append(&mut body);
    assert(out@ =~= old(out)@ + framed(f@));
}

#[derive(Debug)]
pub enum ReadError {
    Decode(String),
    UnexpectedEof,
    BadHeader,
}

/// Why a log cannot be read.
pub enum ReadFault {
    Decode,
    UnexpectedEof,
    BadHeader,
}

impl ReadError {
    /// The fault, without the words.
    pub open spec fn fault(&self) -> ReadFault {
        match self {
            ReadError::Decode(_) => ReadFault::Decode,
            ReadError::UnexpectedEof => ReadFault::UnexpectedEof,
            ReadError::BadHeader => ReadFault::BadHeader,
        }
    }
}

/// The frames that the bytes hold, or the first fault in them.
pub open spec fn frames_in(b: Seq<u8>) -> Result<Seq<LogFrameV>, ReadFault>
    decreases b.len(),
{
    if b.len() == 0 {
        Ok(Seq::empty())
    } else if b.len() < 4 {
        Err(ReadFault::UnexpectedEof)
    } else if b.len() - 4 < of_le32(b) {
        Err(ReadFault::UnexpectedEof)
    } else {
        let n = of_le32(b) as int;
        match LogFrame::parse(b.subrange(4, 4 + n)) {
            None => Err(ReadFault::Decode),
            Some((f, _)) => match frames_in(b.skip(4 + n)) {
                Ok(rest) => Ok(seq![f] + rest),
                Err(e) => Err(e),
            },
        }
    }
}

/// Whether frames start with the header of this version.
pub open spec fn starts_with_header(s: Seq<LogFrameV>) -> bool {
    s.len() > 0 && s[0].event == (LogEventV::Header { magic: LOG_MAGIC, version: LOG_VERSION })
}

/// Whether an event is the header of this version.
pub fn is_header(e: &LogEvent) -> (r: bool)
    ensures
        r == (e@ == (LogEventV::Header { magic: LOG_MAGIC, version: LOG_VERSION })),
{
    match e {
        LogEvent::Header { magic, version } => *magic == LOG_MAGIC && *version == LOG_VERSION,
        _ => false,
    }
}

/// Decodes the body of one frame.
pub fn decode_frame(body: &[u8]) -> (r: Result<LogFrame, ReadError>)
    ensures
        match r {
            Ok(f) => LogFrame::parse(body@) matches Some((v, _)) && v == f@,
            Err(e) => e.fault() is Decode && LogFrame::parse(body@) is None,
        },
{
    let d: Result<LogFrame, DecodeError> = from_bytes(body);
    match d {
        Ok(f) => Ok(f),
        Err(e) => Err(ReadError::Decode(e.text())),
    }
}

/// Judges the body of the next frame of a log that is read piece by piece: the
/// first must be the header and is not handed on.
pub fn accept_frame(first: bool, body: &[u8]) -> (r: Result<Option<LogFrame>, ReadError>)
    ensures
        match LogFrame::parse(body@) {
            None => r matches Err(e) && e.fault() is Decode,
            Some((f, _)) => if first {
                if starts_with_header(seq![f]) {
                    r matches Ok(None)
                } else {
                    r matches Err(e) && e.fault() is BadHeader
                }
            } else {
                r matches Ok(Some(g)) && g@ == f
            },
        },
{
    match decode_frame(body) {
        Ok(f) => {
            if !first {
                Ok(Some(f))
            } else if is_header(&f.event) {
                Ok(None)
            } else {
                Err(ReadError::BadHeader)
            }
        },
        Err(e) => Err(e),
    }
}

/// Reads every frame from the bytes of a file. The first must be the header.
pub fn decode_all(bytes: &[u8]) -> (r: Result<Vec<LogFrame>, ReadError>)
    ensures
        match frames_in(bytes@) {
            Err(f) => r matches Err(e) && e.fault() == f,
            Ok(s) => if starts_with_header(s) {
                r matches Ok(v) && v@.map_values(|f: LogFrame| f@) == s
            } else {
                r matches Err(e) && e.fault() is BadHeader
            },
        },
{
    let mut out: Vec<LogFrame> = Vec::new();
    let mut at: usize = 0;
    let ghost b = bytes@;
    let n: usize = bytes.len();
    assert(b.skip(0) =~= b);
    assert(out@.map_values(|f: LogFrame| f@) =~= Seq::empty());
    proof {
        match frames_in(b) {
            Ok(s) => {
                assert(Seq::empty() + s =~= s);
            },
            Err(_) => {},
        }
    }
    while at < n
        invariant
            at <= n,
            n == bytes.len(),
            b == bytes@,
            match frames_in(b.skip(at as int)) {
                Ok(s) => frames_in(b) == Ok::<Seq<LogFrameV>, ReadFault>(
                    out@.map_values(|f: LogFrame| f@) + s,
                ),
                Err(e) => frames_in(b) == Err::<Seq<LogFrameV>, ReadFault>(e),
            },
        decreases n - at,
    {
        let ghost t = b.skip(at as int);
        let ghost before = out@.map_values(|f: LogFrame| f@);
        if n - at < 4 {
            return Err(ReadError::UnexpectedEof);
        }
        let len: u32 = (bytes[at] as u32) + (bytes[at + 1] as u32) * 0x100 + (bytes[at + 2] as u32)
            * 0x1_0000 + (bytes[at + 3] as u32) * 0x100_0000;
        assert(len == of_le32(t));
        let start: usize = at + 4;
        if (n - start) as u64 >= len as u64 {
            let end: usize = start + len as usize;
            let body = vstd::slice::slice_subrange(bytes, start, end);
            assert(body@ =~= t.subrange(4, 4 + len));
            match decode_frame(body) {
                Ok(f) => {
                    let ghost v = f@;
                    out.push(f);
                    proof {
                        assert(out@.map_values(|f: LogFrame| f@) =~= before.push(v));
                        assert(t.skip(4 + len) =~= b.skip(end as int));
                        match frames_in(b.skip(end as int)) {
                            Ok(s) => {
                                assert(before + (seq![v] + s) =~= before.push(v) + s);
                            },
                            Err(_) => {},
                        }
                    }
                    at = end;
                },
                Err(e) => return Err(e),
            }
        } else {
            return Err(ReadError::UnexpectedEof);
        }
    }
    assert(b.skip(at as int) =~= Seq::empty());
    assert(out@.map_values(|f: LogFrame| f@) + Seq::empty() =~= out@.map_values(|f: LogFrame| f@));
    if out.len() == 0 {
        return Err(ReadError::BadHeader);
    }
    assert(out@.map_values(|f: LogFrame| f@)[0] == out@[0]@);
    if !is_header(&out[0].event) {
        return Err(ReadError::BadHeader);
    }
    Ok(out)
}

proof fn lemma_le32(n: u32, rest: Seq<u8>)
    ensures
        of_le32(le32(n) + rest) == n,
        le32(n).len() == 4,
{
    let b = le32(n);
    assert((b + rest)[0] == b[0] && (b + rest)[1] == b[1] && (b + rest)[2] == b[2] && (b + rest)[3]
        == b[3]);
    assert(n % 0x100 + n / 0x100 % 0x100 * 0x100 + n / 0x1_0000 % 0x100 * 0x1_0000 + n / 0x100_0000
        * 0x100_0000 == n);
}

/// What was written is read back: the frames of a file are those that were
/// logged, in order, as long as each fits the length that is written before it.
pub proof fn logs_read_back(s: Seq<LogFrameV>)
    requires
        forall|i: int|
            0 <= i < s.len() ==> LogFrame::fits(#[trigger] s[i]) && LogFrame::bytes(s[i]).len()
                <= u32::MAX,
    ensures
        frames_in(framed_all(s)) == Ok::<Seq<LogFrameV>, ReadFault>(s),
    decreases s.len(),
{
    if s.len() > 0 {
        let t = s.drop_first();
        assert forall|i: int| 0 <= i < t.len() implies LogFrame::fits(#[trigger] t[i])
            && LogFrame::bytes(t[i]).len() <= u32::MAX by {
            assert(LogFrame::fits(s[i + 1]));
        }
        logs_read_back(t);
        let f = s[0];
        assert(LogFrame::fits(s[0]));
        let body = LogFrame::bytes(f);
        let tail = framed_all(t);
        let b = framed_all(s);
        lemma_le32(body.len() as u32, body + tail);
        assert(b =~= le32(body.len() as u32) + (body + tail));
        assert(b.subrange(4, 4 + body.len() as int) =~= body);
        assert(b.skip(4 + body.len() as int) =~= tail);
        crate::codec::values_survive_the_wire::<LogFrame>(f);
        assert(seq![f] + t =~= s);
    } else {
        assert(s =~= Seq::empty());
    }
}

} // verus!
