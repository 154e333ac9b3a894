use vstd::prelude::*;

use crate::{HEADER_LEN, MAGIC, MAX_FRAME, MAX_PAYLOAD};

verus! {

/// A decoded request frame. Payload bytes beyond `payload_len` are zero when
/// the request comes from the parser.
#[derive(Clone, Copy, Debug, Eq, PartialEq)]
pub struct Request {
    pub command: u8,
    pub sequence: u8,
    pub flags: u8,
    pub payload: [u8; MAX_PAYLOAD],
    pub payload_len: u8,
}

/// The bytes of a frame: magic, command or status, payload length, sequence,
/// flags, payload.
pub open spec fn frame_bytes(code: u8, sequence: u8, flags: u8, payload: Seq<u8>) -> Seq<u8> {
    seq![MAGIC, code, payload.len() as u8, sequence, flags] + payload
}

/// The payload bytes that `request` declares.
pub open spec fn request_payload(request: Request) -> Seq<u8> {
    request.payload@.take(request.payload_len as int)
}

/// `request` is exactly what the complete frame `frame` decodes to: its
/// fields, its payload, and zero padding after the payload.
pub open spec fn carries(frame: Seq<u8>, request: Request) -> bool {
    &&& request.payload_len as int <= MAX_PAYLOAD
    &&& frame == frame_bytes(request.command, request.sequence, request.flags, request_payload(request))
    &&& forall|i: int| request.payload_len <= i < MAX_PAYLOAD ==> request.payload@[i] == 0
}

impl Request {
    /// A request with every field and payload byte zero.
    pub fn empty() -> (r: Self)
        ensures
            r.command == 0,
            r.sequence == 0,
            r.flags == 0,
            r.payload_len == 0,
            r.payload@ == Seq::new(MAX_PAYLOAD as nat, |i: int| 0u8),
    {
        let r = Self { command: 0, sequence: 0, flags: 0, payload: [0; MAX_PAYLOAD], payload_len: 0 };
        assert(r.payload@ =~= Seq::new(MAX_PAYLOAD as nat, |i: int| 0u8));
        r
    }
}

#[derive(Clone, Copy, Debug, Eq, PartialEq)]
pub enum ParseError {
    BadMagic,
    FrameTooLong,
    BadLength,
}

/// What one byte does to the bytes of a partial frame.
pub ghost enum ParseStep {
    /// The byte was refused; the partial frame is dropped.
    Failed(ParseError),
    /// The frame is still incomplete; these are its bytes so far.
    Partial(Seq<u8>),
    /// The byte completed this frame.
    Complete(Seq<u8>),
}

/// The effect of appending `byte` to the partial frame `buf`.
pub open spec fn parse_step(buf: Seq<u8>, byte: u8) -> ParseStep {
    if buf.len() == 0 && byte != MAGIC {
        ParseStep::Failed(ParseError::BadMagic)
    } else if buf.len() == MAX_FRAME {
        ParseStep::Failed(ParseError::FrameTooLong)
    } else {
        let next = buf.push(byte);
        if next.len() == HEADER_LEN && next[2] > MAX_PAYLOAD {
            ParseStep::Failed(ParseError::BadLength)
        } else if next.len() >= HEADER_LEN && next.len() == HEADER_LEN + next[2] {
            ParseStep::Complete(next)
        } else {
            ParseStep::Partial(next)
        }
    }
}

/// `buf` is a partial frame a parser can hold: empty, or starting with the
/// magic byte, with a valid declared length once the header is complete, and
/// shorter than the frame it declares.
pub open spec fn is_partial_frame(buf: Seq<u8>) -> bool {
    buf.len() == 0 || {
        &&& buf[0] == MAGIC
        &&& buf.len() < MAX_FRAME
        &&& buf.len() >= HEADER_LEN ==> buf[2] <= MAX_PAYLOAD && buf.len() < HEADER_LEN + buf[2]
    }
}

/// Feeding `bytes` to a fresh parser: `None` when some byte is refused,
/// otherwise the remaining partial frame and the last complete frame.
pub open spec fn scan(bytes: Seq<u8>) -> Option<(Seq<u8>, Option<Seq<u8>>)>
    decreases bytes.len(),
{
    if bytes.len() == 0 {
        Some((Seq::empty(), None))
    } else {
        match scan(bytes.drop_last()) {
            None => None,
            Some((buf, last)) => match parse_step(buf, bytes.last()) {
                ParseStep::Failed(_) => None,
                ParseStep::Partial(next) => Some((next, last)),
                ParseStep::Complete(frame) => Some((Seq::empty(), Some(frame))),
            },
        }
    }
}

/// The frame that a receive capture yields: the last complete frame of a
/// capture that is not truncated, refuses no byte and ends on a frame boundary.
pub open spec fn packet_frame(packet: Seq<u8>, truncated: bool) -> Option<Seq<u8>> {
    if truncated {
        None
    } else {
        match scan(packet) {
            Some((buf, Some(frame))) => if buf.len() == 0 {
                Some(frame)
            } else {
                None
            },
            _ => None,
        }
    }
}

/// Incremental frame parser. It holds the bytes of at most one partial frame.
#[derive(Clone, Copy, Debug, Eq, PartialEq)]
pub struct Parser {
    frame: [u8; MAX_FRAME],
    length: usize,
}

impl View for Parser {
    type V = Seq<u8>;

    /// The bytes of the partial frame held.
    closed spec fn view(&self) -> Seq<u8> {
        self.frame@.take(self.length as int)
    }
}

impl Parser {
    pub closed spec fn wf(&self) -> bool {
        &&& self.length <= MAX_FRAME
        &&& self.length > 0 ==> self.frame@[0] == MAGIC
    }

    pub fn new() -> (r: Self)
        ensures
            r.wf(),
            r@ == Seq::<u8>::empty(),
            is_partial_frame(r@),
    {
        let r = Self { frame: [0; MAX_FRAME], length: 0 };
        assert(r@ =~= Seq::<u8>::empty());
        r
    }

    /// Drops the partial frame.
    pub fn reset(&mut self)
        ensures
            final(self).wf(),
            final(self)@ == Seq::<u8>::empty(),
    {
        self.length = 0;
        assert(self@ =~= Seq::<u8>::empty());
    }

    /// Feeds one byte: refused bytes drop the partial frame, and a completed
    /// frame is returned as a request and leaves the parser empty.
    pub fn push(&mut self, byte: u8) -> (r: Result<Option<Request>, ParseError>)
        requires
            old(self).wf(),
        ensures
            final(self).wf(),
            is_partial_frame(old(self)@) ==> is_partial_frame(final(self)@),
            match parse_step(old(self)@, byte) {
                ParseStep::Failed(e) => r == Err::<Option<Request>, ParseError>(e) && final(self)@
                    == Seq::<u8>::empty(),
                ParseStep::Partial(next) => r == Ok::<Option<Request>, ParseError>(None)
                    && final(self)@ == next,
                ParseStep::Complete(frame) => final(self)@ == Seq::<u8>::empty() && (r matches Ok(
                    Some(request),
                ) && carries(frame, request)),
            },
    {
        let ghost buf = self@;
        if self.length == 0 && byte != MAGIC {
            assert(self@ =~= Seq::<u8>::empty());
            return Err(ParseError::BadMagic);
        }
        if self.length == MAX_FRAME {
            self.reset();
            return Err(ParseError::FrameTooLong);
        }
        self.frame[self.length] = byte;
        self.length += 1;
        assert(self@ =~= buf.push(byte));

        if self.length == HEADER_LEN {
            let payload_len = self.frame[2] as usize;
            if payload_len > MAX_PAYLOAD {
                self.reset();
                return Err(ParseError::BadLength);
            }
        }

        if self.length >= HEADER_LEN && self.length == HEADER_LEN + self.frame[2] as usize {
            let mut payload = [0u8; MAX_PAYLOAD];
            let payload_len = self.frame[2] as usize;
            let mut i: usize = 0;
            while i < payload_len
                invariant
                    payload_len <= MAX_PAYLOAD,
                    self.length == HEADER_LEN + payload_len,
                    self.wf(),
                    i <= payload_len,
                    forall|j: int| 0 <= j < i ==> payload@[j] == self.frame@[HEADER_LEN + j],
                    forall|j: int| i <= j < MAX_PAYLOAD ==> payload@[j] == 0,
                decreases payload_len - i,
            {
                payload[i] = self.frame[HEADER_LEN + i];
                i += 1;
            }
            let request = Request {
                command: self.frame[1],
                sequence: self.frame[3],
                flags: self.frame[4],
                payload,
                payload_len: payload_len as u8,
            };
            assert(request_payload(request) =~= self.frame@.subrange(
                HEADER_LEN as int,
                self.length as int,
            ));
            assert(self@ =~= frame_bytes(
                request.command,
                request.sequence,
                request.flags,
                request_payload(request),
            ));
            self.reset();
            return Ok(Some(request));
        }
        Ok(None)
    }
}

/// Writes a response frame into `output` and returns its length; a payload
/// longer than `MAX_PAYLOAD` is refused and leaves `output` unchanged.
pub fn encode_response(
    status: u8,
    sequence: u8,
    flags: u8,
    payload: &[u8],
    output: &mut [u8; MAX_FRAME],
) -> (r: Result<usize, ParseError>)
    ensures
        payload@.len() > MAX_PAYLOAD ==> r == Err::<usize, ParseError>(ParseError::BadLength)
            && final(output)@ == old(output)@,
        payload@.len() <= MAX_PAYLOAD ==> {
            let frame = frame_bytes(status, sequence, flags, payload@);
            &&& r == Ok::<usize, ParseError>(frame.len() as usize)
            &&& final(output)@.take(frame.len() as int) == frame
            &&& final(output)@.skip(frame.len() as int) == old(output)@.skip(frame.len() as int)
        },
{
    if payload.len() > MAX_PAYLOAD {
        return Err(ParseError::BadLength);
    }
    output[0] = MAGIC;
    output[1] = status;
    output[2] = payload.len() as u8;
    output[3] = sequence;
    output[4] = flags;
    let mut i: usize = 0;
    while i < payload.len()
        invariant
            payload@.len() <= MAX_PAYLOAD,
            i <= payload@.len(),
            output@.len() == MAX_FRAME,
            output@[0] == MAGIC,
            output@[1] == status,
            output@[2] == payload@.len() as u8,
            output@[3] == sequence,
            output@[4] == flags,
            forall|j: int| 0 <= j < i ==> output@[HEADER_LEN + j] == payload@[j],
            forall|j: int| HEADER_LEN + payload@.len() <= j < MAX_FRAME ==> output@[j] == old(output)@[j],
        decreases payload@.len() - i,
    {
        output[HEADER_LEN + i] = payload[i];
        i += 1;
    }
    let ghost frame = frame_bytes(status, sequence, flags, payload@);
    assert(output@.take(frame.len() as int) =~= frame);
    assert(output@.skip(frame.len() as int) =~= old(output)@.skip(frame.len() as int));
    Ok(HEADER_LEN + payload.len())
}

/// Parses one complete I2C receive capture.
///
/// A capture is valid only if it is not truncated, has no malformed frames or
/// trailing partial frame, and contains at least one complete frame. For
/// captures containing multiple frames, returns the final complete frame.
pub fn parse_packet(packet: &[u8], truncated: bool) -> (r: Option<Request>)
    ensures
        match packet_frame(packet@, truncated) {
            None => r is None,
            Some(frame) => r matches Some(request) && carries(frame, request),
        },
{
    if truncated {
        return None;
    }
    let mut parser = Parser::new();
    let mut request: Option<Request> = None;
    let mut i: usize = 0;
    while i < packet.len()
        invariant
            i <= packet@.len(),
            parser.wf(),
            scan(packet@.take(i as int)) matches Some((buf, last)) && buf == parser@ && match last {
                None => request is None,
                Some(frame) => request matches Some(req) && carries(frame, req),
            },
        decreases packet@.len() - i,
    {
        proof {
            assert(packet@.take(i + 1).drop_last() =~= packet@.take(i as int));
        }
        match parser.push(packet[i]) {
            Ok(Some(value)) => request = Some(value),
            Ok(None) => {},
            Err(_) => {
                proof {
                    assert(scan(packet@.take(i + 1)) is None);
                    lemma_scan_failure_persists(packet@, i as int + 1);
                    assert(packet@.take(packet@.len() as int) =~= packet@);
                }
                return None;
            },
        }
        i += 1;
    }
    assert(packet@.take(packet@.len() as int) =~= packet@);
    if parser.length != 0 {
        assert(parser@.len() != 0);
        None
    } else {
        request
    }
}

/// Once a byte is refused, no longer capture scans.
proof fn lemma_scan_failure_persists(bytes: Seq<u8>, k: int)
    requires
        0 <= k <= bytes.len(),
        scan(bytes.take(k)) is None,
    ensures
        scan(bytes) is None,
    decreases bytes.len() - k,
{
    if k < bytes.len() {
        assert(bytes.take(k + 1).drop_last() =~= bytes.take(k));
        lemma_scan_failure_persists(bytes, k + 1);
    } else {
        assert(bytes.take(k) =~= bytes);
    }
}

/// Every proper prefix of a well-formed frame is held as a partial frame by
/// a parser that started on a frame boundary.
proof fn lemma_scan_frame_prefix(prefix: Seq<u8>, frame: Seq<u8>, k: int, payload_len: int)
    requires
        scan(prefix) matches Some((buf, _)) && buf.len() == 0,
        0 <= payload_len <= MAX_PAYLOAD,
        frame.len() == HEADER_LEN + payload_len,
        frame[0] == MAGIC,
        frame[2] == payload_len,
        0 <= k < frame.len(),
    ensures
        scan(prefix + frame.take(k)) == Some((frame.take(k), scan(prefix).unwrap().1)),
    decreases k,
{
    if k == 0 {
        assert(prefix + frame.take(0) =~= prefix);
        assert(frame.take(0) =~= Seq::<u8>::empty());
    } else {
        lemma_scan_frame_prefix(prefix, frame, k - 1, payload_len);
        assert((prefix + frame.take(k)).drop_last() =~= prefix + frame.take(k - 1));
        assert((prefix + frame.take(k)).last() == frame[k - 1]);
        assert(frame.take(k - 1).push(frame[k - 1]) =~= frame.take(k));
    }
}

/// Appending a well-formed frame to a capture that ends on a frame boundary
/// makes that frame the one the capture yields: of several frames in one
/// capture, only the last is dispatched.
pub proof fn law_last_frame_wins(
    prefix: Seq<u8>,
    code: u8,
    sequence: u8,
    flags: u8,
    payload: Seq<u8>,
)
    requires
        payload.len() <= MAX_PAYLOAD,
        scan(prefix) matches Some((buf, _)) && buf.len() == 0,
    ensures
        scan(prefix + frame_bytes(code, sequence, flags, payload)) == Some(
            (Seq::<u8>::empty(), Some(frame_bytes(code, sequence, flags, payload))),
        ),
        packet_frame(prefix + frame_bytes(code, sequence, flags, payload), false) == Some(
            frame_bytes(code, sequence, flags, payload),
        ),
{
    let frame = frame_bytes(code, sequence, flags, payload);
    let n = frame.len() as int;
    lemma_scan_frame_prefix(prefix, frame, n - 1, payload.len() as int);
    assert((prefix + frame).drop_last() =~= prefix + frame.take(n - 1));
    assert((prefix + frame).last() == frame[n - 1]);
    assert(frame.take(n - 1).push(frame[n - 1]) =~= frame);
}

/// A single well-formed frame is a valid capture that yields itself.
pub proof fn law_single_frame_parses(code: u8, sequence: u8, flags: u8, payload: Seq<u8>)
    requires
        payload.len() <= MAX_PAYLOAD,
    ensures
        packet_frame(frame_bytes(code, sequence, flags, payload), false) == Some(
            frame_bytes(code, sequence, flags, payload),
        ),
{
    let empty = Seq::<u8>::empty();
    assert(scan(empty) == Some((empty, None::<Seq<u8>>)));
    law_last_frame_wins(empty, code, sequence, flags, payload);
    assert(empty + frame_bytes(code, sequence, flags, payload) =~= frame_bytes(
        code,
        sequence,
        flags,
        payload,
    ));
}

/// Decoding gives back what was encoded: the request carried by the frame of
/// `code`, `sequence`, `flags` and `payload` has exactly those fields.
pub proof fn law_frame_fields_round_trip(
    code: u8,
    sequence: u8,
    flags: u8,
    payload: Seq<u8>,
    request: Request,
)
    requires
        payload.len() <= MAX_PAYLOAD,
        carries(frame_bytes(code, sequence, flags, payload), request),
    ensures
        request.command == code,
        request.sequence == sequence,
        request.flags == flags,
        request.payload_len == payload.len(),
        request_payload(request) == payload,
{
    let frame = frame_bytes(code, sequence, flags, payload);
    assert(frame[1] == code && frame[2] == payload.len() as u8 && frame[3] == sequence && frame[4]
        == flags);
    assert(frame.len() == HEADER_LEN + payload.len());
    assert(request_payload(request) =~= frame.skip(HEADER_LEN as int));
    assert(payload =~= frame.skip(HEADER_LEN as int));
}

/// A frame decodes to one request only.
pub proof fn law_decoding_is_unique(frame: Seq<u8>, first: Request, second: Request)
    requires
        carries(frame, first),
        carries(frame, second),
    ensures
        first == second,
{
    broadcast use vstd::array::group_array_axioms;

    assert(frame[1] == first.command && frame[1] == second.command);
    assert(frame[2] == first.payload_len as u8 && frame[2] == second.payload_len as u8);
    assert(first.payload@ =~= second.payload@) by {
        assert forall|i: int| 0 <= i < MAX_PAYLOAD implies first.payload@[i] == second.payload@[i] by {
            if i < first.payload_len {
                assert(first.payload@[i] == frame[HEADER_LEN + i]);
                assert(second.payload@[i] == frame[HEADER_LEN + i]);
            }
        }
    }
    assert(first.payload =~= second.payload);
    assert(frame[3] == first.sequence && frame[3] == second.sequence);
    assert(frame[4] == first.flags && frame[4] == second.flags);
}

/// A parser only ever holds one partial frame: from a partial frame, a byte
/// either completes the frame, is refused, or leaves another partial frame,
/// and the held bytes never reach the length that would refuse a byte as
/// `FrameTooLong`.
pub proof fn law_partial_frames_stay_bounded(buf: Seq<u8>, byte: u8)
    requires
        is_partial_frame(buf),
    ensures
        parse_step(buf, byte) != ParseStep::Failed(ParseError::FrameTooLong),
        parse_step(buf, byte) matches ParseStep::Partial(next) ==> is_partial_frame(next),
{
}

/// `f` is one well-formed frame: magic, a declared payload length of at most
/// `MAX_PAYLOAD`, and exactly that many payload bytes after the header.
pub open spec fn is_frame(f: Seq<u8>) -> bool {
    &&& f.len() >= HEADER_LEN
    &&& f[0] == MAGIC
    &&& f[2] as int <= MAX_PAYLOAD
    &&& f.len() == HEADER_LEN + f[2]
}

/// The bytes of the frames `frames`, one after another.
pub open spec fn concat_frames(frames: Seq<Seq<u8>>) -> Seq<u8>
    decreases frames.len(),
{
    if frames.len() == 0 {
        Seq::empty()
    } else {
        concat_frames(frames.drop_last()) + frames.last()
    }
}

/// What a capture that scans is made of: whole well-formed frames, the last
/// of which is the one reported, followed by the partial frame held.
proof fn lemma_scan_frames(bytes: Seq<u8>) -> (frames: Seq<Seq<u8>>)
    requires
        scan(bytes) is Some,
    ensures
        ({
            let (buf, last) = scan(bytes).unwrap();
            &&& is_partial_frame(buf)
            &&& bytes == concat_frames(frames) + buf
            &&& forall|i: int| 0 <= i < frames.len() ==> is_frame(#[trigger] frames[i])
            &&& last == if frames.len() == 0 {
                None
            } else {
                Some(frames.last())
            }
        }),
    decreases bytes.len(),
{
    if bytes.len() == 0 {
        assert(concat_frames(Seq::<Seq<u8>>::empty()) + Seq::<u8>::empty() =~= bytes);
        Seq::empty()
    } else {
        let earlier = lemma_scan_frames(bytes.drop_last());
        let (buf0, _) = scan(bytes.drop_last()).unwrap();
        let b = bytes.last();
        law_partial_frames_stay_bounded(buf0, b);
        assert(bytes =~= bytes.drop_last().push(b));
        match parse_step(buf0, b) {
            ParseStep::Partial(next) => {
                assert(bytes =~= concat_frames(earlier) + next);
                earlier
            },
            ParseStep::Complete(frame) => {
                let frames = earlier.push(frame);
                assert(frames.drop_last() =~= earlier);
                assert(frame =~= buf0.push(b));
                assert(bytes =~= concat_frames(frames) + Seq::<u8>::empty());
                assert(is_frame(frame));
                assert forall|i: int| 0 <= i < frames.len() implies is_frame(#[trigger] frames[i]) by {
                    if i < earlier.len() {
                        assert(frames[i] == earlier[i]);
                    }
                }
                frames
            },
            ParseStep::Failed(_) => {
                earlier
            },
        }
    }
}

/// Every valid capture is a sequence of one or more well-formed frames with
/// nothing after them, and the frame it yields is the last of them.
pub proof fn law_capture_is_frames(packet: Seq<u8>)
    requires
        packet_frame(packet, false) is Some,
    ensures
        exists|frames: Seq<Seq<u8>>|
            {
                &&& frames.len() >= 1
                &&& #[trigger] concat_frames(frames) == packet
                &&& forall|i: int| 0 <= i < frames.len() ==> is_frame(#[trigger] frames[i])
                &&& packet_frame(packet, false) == Some(frames.last())
            },
{
    let frames = lemma_scan_frames(packet);
    assert(concat_frames(frames) + Seq::<u8>::empty() =~= concat_frames(frames));
}

/// Pushing the bytes of a well-formed frame one by one into an empty parser:
/// every byte but the last leaves the bytes so far as the partial frame, and
/// the last completes the frame, after which the parser is empty again.
pub proof fn law_frame_pushes_complete(code: u8, sequence: u8, flags: u8, payload: Seq<u8>)
    requires
        payload.len() <= MAX_PAYLOAD,
    ensures
        ({
            let frame = frame_bytes(code, sequence, flags, payload);
            &&& forall|k: int|
                0 <= k < frame.len() - 1 ==> #[trigger] parse_step(frame.take(k), frame[k])
                    == ParseStep::Partial(frame.take(k + 1))
            &&& parse_step(frame.take(frame.len() - 1), frame[frame.len() - 1])
                == ParseStep::Complete(frame)
        }),
{
    let frame = frame_bytes(code, sequence, flags, payload);
    assert(frame.len() == HEADER_LEN + payload.len());
    assert(frame[0] == MAGIC && frame[2] == payload.len());
    assert forall|k: int| 0 <= k < frame.len() - 1 implies #[trigger] parse_step(
        frame.take(k),
        frame[k],
    ) == ParseStep::Partial(frame.take(k + 1)) by {
        assert(frame.take(k).push(frame[k]) =~= frame.take(k + 1));
        if k + 1 >= HEADER_LEN {
            assert(frame.take(k + 1)[2] == frame[2]);
        }
    }
    let n = frame.len() - 1;
    assert(frame.take(n).push(frame[n]) =~= frame);
}

/// A fresh or reset parser (one that holds no bytes) refuses every byte but
/// the magic byte, which it keeps as the start of a frame.
pub proof fn law_empty_parser_waits_for_magic(byte: u8)
    ensures
        parse_step(Seq::empty(), byte) == if byte == MAGIC {
            ParseStep::Partial(seq![MAGIC])
        } else {
            ParseStep::Failed(ParseError::BadMagic)
        },
{
    if byte == MAGIC {
        assert(Seq::<u8>::empty().push(byte) =~= seq![MAGIC]);
    }
}

/// A frame that declares more than `MAX_PAYLOAD` payload bytes is refused
/// with `BadLength` as soon as its header completes, and a full-length
/// partial frame refuses any further byte as `FrameTooLong`.
pub proof fn law_oversized_frames_refused(buf: Seq<u8>, byte: u8)
    ensures
        buf.len() == HEADER_LEN - 1 && buf[0] == MAGIC && buf[2] as int > MAX_PAYLOAD
            ==> parse_step(buf, byte) == ParseStep::Failed(ParseError::BadLength),
        buf.len() == MAX_FRAME ==> parse_step(buf, byte) == ParseStep::Failed(
            ParseError::FrameTooLong,
        ),
{
    if buf.len() == HEADER_LEN - 1 {
        assert(buf.push(byte)[2] == buf[2]);
    }
}

impl Default for Parser {
    fn default() -> (r: Self)
        ensures
            r.wf(),
            r@ == Seq::<u8>::empty(),
    {
        Self::new()
    }
}

} // verus!
