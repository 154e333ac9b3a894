use vstd::prelude::*;

use crate::bytes::{law_le16_value, law_le32_bytes_value, le16, le32_bytes, read_le16, write_le32};
use crate::frame::{Request, carries, encode_response, frame_bytes, packet_frame, parse_packet, request_payload, law_decoding_is_unique};
use crate::loader::{
    BpfLoader, LoaderState, LoaderView, load_operation_of, load_verdict, map_read_range, map_write_range,
    query_result, start_result, start_verdict,
};
use crate::map_helpers::splice;
use crate::status::StatusQueue;
use crate::{
    BPF_MAX_MAP_BYTES, CMD_I2C_READ, CMD_I2C_WRITE, CMD_LOAD_BPF, CMD_QUERY_BPF_CRC,
    CMD_READ_BPF_MAP, CMD_READ_STATUS, CMD_RESET, CMD_START_BPF, CMD_WRITE_BPF_MAP, HEADER_LEN,
    MAX_FRAME, MAX_PAYLOAD, STATUS_BAD_COMMAND, STATUS_BAD_FLAGS, STATUS_BAD_LENGTH,
    STATUS_NOT_IMPLEMENTED, STATUS_NO_PROGRAM, STATUS_OK,
};

verus! {

/// What one I2C receive capture leads to.
#[derive(Clone, Copy, Debug, Eq, PartialEq)]
pub enum PacketOutcome {
    /// A response frame of this length was written to the output buffer.
    Response(usize),
    /// No protocol response: the response slot is cleared.
    Empty,
    /// A valid Reset: reset the MCU and queue nothing.
    Reset,
    /// A valid Start BPF for the committed image: run it once, then answer
    /// with `respond_start` and this request sequence.
    Start { sequence: u8 },
}

/// A status response frame (response flags are always zero).
pub open spec fn reply_frame(status: u8, sequence: u8, payload: Seq<u8>) -> Seq<u8> {
    frame_bytes(status, sequence, 0, payload)
}

/// `outcome` reports that `frame` was written at the start of the output
/// buffer, which was `before` and is now `after`, the rest left as it was.
pub open spec fn responded(outcome: PacketOutcome, before: Seq<u8>, after: Seq<u8>, frame: Seq<u8>) -> bool {
    &&& outcome == PacketOutcome::Response(frame.len() as usize)
    &&& after.take(frame.len() as int) == frame
    &&& after.skip(frame.len() as int) == before.skip(frame.len() as int)
}

/// The response to `request` without a loader (`None` for a valid Reset),
/// given the stored status message `status`.
pub open spec fn dispatch_reply(request: Request, status: Seq<u8>) -> Option<Seq<u8>> {
    let sequence = request.sequence;
    let empty = Seq::<u8>::empty();
    if request.flags != 0 {
        Some(reply_frame(STATUS_BAD_FLAGS, sequence, empty))
    } else if request.command == CMD_RESET {
        if request.payload_len == 0 {
            None
        } else {
            Some(reply_frame(STATUS_BAD_LENGTH, sequence, empty))
        }
    } else if request.command == CMD_READ_STATUS {
        if request.payload_len == 0 {
            Some(reply_frame(STATUS_OK, sequence, status))
        } else {
            Some(reply_frame(STATUS_BAD_LENGTH, sequence, empty))
        }
    } else if request.command == CMD_LOAD_BPF || request.command == CMD_START_BPF
        || request.command == CMD_READ_BPF_MAP || request.command == CMD_WRITE_BPF_MAP {
        if request.payload_len == 0 {
            Some(reply_frame(STATUS_NOT_IMPLEMENTED, sequence, empty))
        } else {
            Some(reply_frame(STATUS_BAD_LENGTH, sequence, empty))
        }
    } else {
        Some(reply_frame(STATUS_BAD_COMMAND, sequence, empty))
    }
}

/// Whether `request` consumes the stored status message: only a valid Read
/// Status does.
pub open spec fn pops_status(request: Request) -> bool {
    request.flags == 0 && request.command == CMD_READ_STATUS && request.payload_len == 0
}

/// The map ID, map-relative offset and replacement bytes of a Write BPF map
/// payload: `map_location` (little-endian, offset in bits 0 to 9, map ID in
/// bits 10 to 12, bits 13 to 15 zero) and one to 14 bytes; `None` for a
/// malformed payload.
pub open spec fn map_write_request(request: Request) -> Option<(u8, u16, Seq<u8>)> {
    let p = request.payload@;
    if request.payload_len < 3 || request.payload_len as int > MAX_PAYLOAD {
        None
    } else {
        let location = le16(p[0], p[1]);
        if location >= 0x2000 {
            None
        } else {
            Some(((location / 1024) as u8, (location % 1024) as u16, request_payload(request).skip(2)))
        }
    }
}

/// The backing range a Write BPF map request replaces, or the status
/// refusing it.
pub open spec fn map_write_verdict(request: Request, loader: LoaderView) -> Result<(int, int), u8> {
    match map_write_request(request) {
        None => Err(STATUS_BAD_LENGTH),
        Some((map_id, byte_offset, bytes)) => map_write_range(loader, map_id, byte_offset, bytes.len() as int),
    }
}

/// The map backing store after `request`: only an accepted Write BPF map
/// changes it, replacing exactly its range with the replacement bytes.
pub open spec fn bpf_backing_after(request: Request, loader: LoaderView, backing: Seq<u8>) -> Seq<u8> {
    if request.flags == 0 && request.command == CMD_WRITE_BPF_MAP {
        match (map_write_verdict(request, loader), map_write_request(request)) {
            (Ok((start, _)), Some((_, _, bytes))) => splice(backing, start, bytes),
            _ => backing,
        }
    } else {
        backing
    }
}

/// `request` is a valid Start BPF that runs the committed image.
pub open spec fn bpf_starts(request: Request, loader: LoaderView) -> bool {
    request.flags == 0 && request.command == CMD_START_BPF && start_verdict(
        loader,
        request.payload_len,
    ) is Ok
}

/// The response to `request` with a loader and map backing store (`None`
/// for a valid Reset; a valid Start BPF is answered once the image has run,
/// by `respond_start`).
pub open spec fn bpf_reply(
    request: Request,
    status: Seq<u8>,
    loader: LoaderView,
    backing: Seq<u8>,
) -> Option<Seq<u8>> {
    let sequence = request.sequence;
    let empty = Seq::<u8>::empty();
    let p = request.payload@;
    if request.flags != 0 {
        Some(reply_frame(STATUS_BAD_FLAGS, sequence, empty))
    } else if request.command == CMD_LOAD_BPF {
        match load_verdict(loader, request_payload(request)) {
            Ok(()) => Some(reply_frame(STATUS_OK, sequence, empty)),
            Err(code) => Some(reply_frame(code, sequence, empty)),
        }
    } else if request.command == CMD_READ_BPF_MAP {
        if request.payload_len != 4 {
            Some(reply_frame(STATUS_BAD_LENGTH, sequence, empty))
        } else {
            match map_read_range(loader, p[0], le16(p[1], p[2]), p[3]) {
                Ok((start, end)) => Some(reply_frame(STATUS_OK, sequence, backing.subrange(start, end))),
                Err(code) => Some(reply_frame(code, sequence, empty)),
            }
        }
    } else if request.command == CMD_START_BPF {
        match start_verdict(loader, request.payload_len) {
            Ok(()) => None,
            Err(code) => Some(reply_frame(code, sequence, empty)),
        }
    } else if request.command == CMD_WRITE_BPF_MAP {
        match map_write_verdict(request, loader) {
            Ok(_) => Some(reply_frame(STATUS_OK, sequence, empty)),
            Err(code) => Some(reply_frame(code, sequence, empty)),
        }
    } else if request.command == CMD_QUERY_BPF_CRC {
        if request.payload_len != 0 {
            Some(reply_frame(STATUS_BAD_LENGTH, sequence, empty))
        } else {
            match query_result(loader) {
                Ok(crc) => Some(reply_frame(STATUS_OK, sequence, le32_bytes(crc))),
                Err(code) => Some(reply_frame(code, sequence, empty)),
            }
        }
    } else {
        dispatch_reply(request, status)
    }
}

/// How the loader changes on `request`: only an accepted Load BPF changes it,
/// and then only its pending operation.
pub open spec fn bpf_loader_after(request: Request, before: LoaderView, after: LoaderView) -> bool {
    if request.flags == 0 && request.command == CMD_LOAD_BPF && load_verdict(
        before,
        request_payload(request),
    ) is Ok {
        after == before.with_pending(after.pending) && (after.pending matches Some(op)
            && load_operation_of(op, request_payload(request)))
    } else {
        after == before
    }
}

/// The request a complete frame decodes to.
pub open spec fn decoded(frame: Seq<u8>) -> Request {
    choose|request: Request| carries(frame, request)
}

/// The request that `parse_packet` gives for a capture is the one its frame
/// decodes to. So the contracts of `dispatch_packet` and
/// `dispatch_packet_with_bpf`, stated over `decoded`, say that they answer a
/// capture exactly as `dispatch` and `dispatch_with_bpf` answer its parsed
/// request, and change nothing when it yields none.
pub proof fn law_parsed_request_is_decoded(packet: Seq<u8>, truncated: bool, request: Request)
    requires
        packet_frame(packet, truncated) matches Some(frame) && carries(frame, request),
    ensures
        request == decoded(packet_frame(packet, truncated).unwrap()),
{
    let frame = packet_frame(packet, truncated).unwrap();
    law_decoding_is_unique(frame, request, decoded(frame));
}

/// Read BPF map answers the bytes of the committed map at the
/// little-endian offset in payload bytes 1 and 2: a valid read of `n` bytes
/// of map `m` at offset `lo + 256 * hi` replies `STATUS_OK` with the backing
/// bytes from the map's start plus that offset.
pub proof fn law_read_map_reply(
    request: Request,
    status: Seq<u8>,
    loader: LoaderView,
    backing: Seq<u8>,
)
    requires
        loader.wf(),
        request.flags == 0,
        request.command == CMD_READ_BPF_MAP,
        request.payload_len == 4,
        loader.state is Committed,
        request.payload@[0] < loader.committed_map_count,
        1 <= request.payload@[3] <= MAX_PAYLOAD,
        request.payload@[1] + 256 * request.payload@[2] + request.payload@[3]
            <= loader.layouts[request.payload@[0] as int].len,
    ensures
        ({
            let layout = loader.layouts[request.payload@[0] as int];
            let start = layout.offset + request.payload@[1] + 256 * request.payload@[2];
            bpf_reply(request, status, loader, backing) == Some(
                reply_frame(
                    STATUS_OK,
                    request.sequence,
                    backing.subrange(start, start + request.payload@[3]),
                ),
            )
        }),
{
    let p = request.payload@;
    law_le16_value(p[1], p[2]);
}

/// Read BPF map refusals, in terms of the request fields: a payload that is
/// not four bytes or a length outside 1 to 16 answers `STATUS_BAD_LENGTH`;
/// otherwise no committed image answers `STATUS_NO_PROGRAM`, an unknown map
/// `STATUS_BAD_COMMAND`, and a range past the map's end `STATUS_BAD_LENGTH`.
pub proof fn law_read_map_refusals(
    request: Request,
    status: Seq<u8>,
    loader: LoaderView,
    backing: Seq<u8>,
)
    requires
        loader.wf(),
        request.flags == 0,
        request.command == CMD_READ_BPF_MAP,
    ensures
        ({
            let p = request.payload@;
            let reply = bpf_reply(request, status, loader, backing);
            let refused = |code: u8| Some(reply_frame(code, request.sequence, Seq::<u8>::empty()));
            &&& request.payload_len != 4 || p[3] == 0 || p[3] > MAX_PAYLOAD ==> reply == refused(
                STATUS_BAD_LENGTH,
            )
            &&& request.payload_len == 4 && 1 <= p[3] <= MAX_PAYLOAD && !(loader.state is Committed)
                ==> reply == refused(STATUS_NO_PROGRAM)
            &&& request.payload_len == 4 && 1 <= p[3] <= MAX_PAYLOAD && loader.state is Committed
                && p[0] >= loader.committed_map_count ==> reply == refused(STATUS_BAD_COMMAND)
            &&& request.payload_len == 4 && 1 <= p[3] <= MAX_PAYLOAD && loader.state is Committed
                && p[0] < loader.committed_map_count && p[1] + 256 * p[2] + p[3]
                > loader.layouts[p[0] as int].len ==> reply == refused(STATUS_BAD_LENGTH)
        }),
{
    let p = request.payload@;
    law_le16_value(p[1], p[2]);
}

/// Write BPF map refusals, in terms of the request fields: fewer than three
/// or more than 16 payload bytes, or a reserved location bit (13 to 15) set,
/// answer `STATUS_BAD_LENGTH`; otherwise no committed image answers
/// `STATUS_NO_PROGRAM`, an unknown map `STATUS_BAD_COMMAND`, and a range
/// past the map's end `STATUS_BAD_LENGTH`. A refused write leaves the
/// backing store as it was.
pub proof fn law_write_map_refusals(
    request: Request,
    status: Seq<u8>,
    loader: LoaderView,
    backing: Seq<u8>,
)
    requires
        loader.wf(),
        request.flags == 0,
        request.command == CMD_WRITE_BPF_MAP,
    ensures
        ({
            let p = request.payload@;
            let location = p[0] + 256 * p[1];
            let n = request.payload_len - 2;
            let well_formed = 3 <= request.payload_len <= MAX_PAYLOAD && location < 0x2000;
            let reply = bpf_reply(request, status, loader, backing);
            let refused = |code: u8| Some(reply_frame(code, request.sequence, Seq::<u8>::empty()));
            &&& !well_formed ==> reply == refused(STATUS_BAD_LENGTH)
            &&& well_formed && !(loader.state is Committed) ==> reply == refused(STATUS_NO_PROGRAM)
            &&& well_formed && loader.state is Committed && location / 1024
                >= loader.committed_map_count ==> reply == refused(STATUS_BAD_COMMAND)
            &&& well_formed && loader.state is Committed && location / 1024
                < loader.committed_map_count && location % 1024 + n > loader.layouts[location
                / 1024].len ==> reply == refused(STATUS_BAD_LENGTH)
            &&& reply != Some(reply_frame(STATUS_OK, request.sequence, Seq::<u8>::empty()))
                ==> bpf_backing_after(request, loader, backing) == backing
        }),
{
    let p = request.payload@;
    law_le16_value(p[0], p[1]);
}

/// Query BPF CRC with a committed image and nothing pending answers
/// `STATUS_OK` with the CRC's four bytes, least significant first.
pub proof fn law_query_reply(
    request: Request,
    status: Seq<u8>,
    loader: LoaderView,
    backing: Seq<u8>,
    crc: u32,
)
    requires
        request.flags == 0,
        request.command == CMD_QUERY_BPF_CRC,
        request.payload_len == 0,
        loader.pending is None,
        loader.state == LoaderState::Committed(crc),
    ensures
        bpf_reply(request, status, loader, backing) == Some(
            reply_frame(
                STATUS_OK,
                request.sequence,
                seq![(crc % 256) as u8, ((crc / 256) % 256) as u8, ((crc / 65536) % 256) as u8,
                (crc / 16777216) as u8],
            ),
        ),
{
    law_le32_bytes_value(crc);
    assert(le32_bytes(crc) =~= seq![(crc % 256) as u8, ((crc / 256) % 256) as u8, ((crc / 65536) % 256) as u8,
        (crc / 16777216) as u8]);
}

/// A bridge request is carried out exactly when it is well formed: zero
/// flags, I2C Write with one to 16 payload bytes starting with a seven-bit
/// address, or I2C Read of `[address, count]` with a seven-bit address and a
/// count of at most 16.
pub proof fn law_bridge_requests_accepted(request: Request)
    ensures
        i2c_request_verdict(request) is Ok <==> request.flags == 0 && request.payload_len >= 1
            && request.payload@[0] < 0x80 && ((request.command == CMD_I2C_WRITE
            && request.payload_len <= MAX_PAYLOAD) || (request.command == CMD_I2C_READ
            && request.payload_len == 2 && request.payload@[1] <= MAX_PAYLOAD)),
{
}

/// Write BPF map names the map in bits 10 to 12 of its little-endian
/// location and the offset in bits 0 to 9; only bits 13 to 15 are reserved.
/// A write of the replacement bytes that fits the named committed map
/// replies `STATUS_OK` and replaces exactly that range of the backing store.
pub proof fn law_write_map_reply(
    request: Request,
    status: Seq<u8>,
    loader: LoaderView,
    backing: Seq<u8>,
)
    requires
        loader.wf(),
        request.flags == 0,
        request.command == CMD_WRITE_BPF_MAP,
        3 <= request.payload_len <= MAX_PAYLOAD,
        request.payload@[0] + 256 * request.payload@[1] < 0x2000,
        loader.state is Committed,
        (request.payload@[0] + 256 * request.payload@[1]) / 1024 < loader.committed_map_count,
        (request.payload@[0] + 256 * request.payload@[1]) % 1024 + request.payload_len - 2
            <= loader.layouts[(request.payload@[0] + 256 * request.payload@[1]) / 1024].len,
    ensures
        ({
            let location = request.payload@[0] + 256 * request.payload@[1];
            let layout = loader.layouts[location / 1024];
            &&& bpf_reply(request, status, loader, backing) == Some(
                reply_frame(STATUS_OK, request.sequence, Seq::empty()),
            )
            &&& bpf_backing_after(request, loader, backing) == splice(
                backing,
                layout.offset + location % 1024,
                request.payload@.subrange(2, request.payload_len as int),
            )
        }),
{
    let p = request.payload@;
    law_le16_value(p[0], p[1]);
    assert(request_payload(request).skip(2) =~= p.subrange(2, request.payload_len as int));
}

fn response(status: u8, sequence: u8, payload: &[u8], output: &mut [u8; MAX_FRAME]) -> (r: PacketOutcome)
    ensures
        payload@.len() <= MAX_PAYLOAD ==> responded(
            r,
            old(output)@,
            final(output)@,
            reply_frame(status, sequence, payload@),
        ),
        payload@.len() > MAX_PAYLOAD ==> r == PacketOutcome::Response(HEADER_LEN)
            && final(output)@ == old(output)@,
{
    PacketOutcome::Response(
        match encode_response(status, sequence, 0, payload, output) {
            Ok(length) => length,
            Err(_) => HEADER_LEN,
        },
    )
}

/// Checks an I2C bridge request: zero flags, a known command, a payload
/// starting with a seven-bit address, and for reads exactly `[address,
/// count]` with `count` at most 16.
pub open spec fn i2c_request_verdict(request: Request) -> Result<(), u8> {
    let len = request.payload_len;
    if request.flags != 0 {
        Err(STATUS_BAD_FLAGS)
    } else if request.command != CMD_I2C_WRITE && request.command != CMD_I2C_READ {
        Err(STATUS_BAD_COMMAND)
    } else if len == 0 || len as int > MAX_PAYLOAD {
        Err(STATUS_BAD_LENGTH)
    } else if request.payload@[0] >= 0x80 {
        Err(STATUS_BAD_COMMAND)
    } else if request.command == CMD_I2C_READ && (len != 2 || request.payload@[1] as int
        > MAX_PAYLOAD) {
        Err(STATUS_BAD_LENGTH)
    } else {
        Ok(())
    }
}

pub fn validate_i2c_request(request: &Request) -> (r: Result<(), u8>)
    ensures
        r == i2c_request_verdict(*request),
{
    if request.flags != 0 {
        return Err(STATUS_BAD_FLAGS);
    }
    if request.command != CMD_I2C_WRITE && request.command != CMD_I2C_READ {
        return Err(STATUS_BAD_COMMAND);
    }
    let payload_len = request.payload_len as usize;
    if payload_len == 0 || payload_len > MAX_PAYLOAD {
        return Err(STATUS_BAD_LENGTH);
    }
    let address = request.payload[0];
    assert(address & 0x80 != 0 <==> address >= 0x80) by (bit_vector);
    if address & 0x80 != 0 {
        return Err(STATUS_BAD_COMMAND);
    }
    if request.command == CMD_I2C_READ && (payload_len != 2 || request.payload[1] as usize
        > MAX_PAYLOAD) {
        return Err(STATUS_BAD_LENGTH);
    }
    Ok(())
}

/// Dispatches one request without a loader: BPF actions are not implemented
/// here, Read Status pops the stored message, a valid Reset queues nothing.
pub fn dispatch(
    request: &Request,
    status_queue: &mut StatusQueue,
    output: &mut [u8; MAX_FRAME],
) -> (r: PacketOutcome)
    requires
        old(status_queue).wf(),
    ensures
        final(status_queue).wf(),
        final(status_queue)@ == if pops_status(*request) {
            Seq::<u8>::empty()
        } else {
            old(status_queue)@
        },
        match dispatch_reply(*request, old(status_queue)@) {
            None => r == PacketOutcome::Reset && final(output)@ == old(output)@,
            Some(frame) => responded(r, old(output)@, final(output)@, frame),
        },
{
    let empty: [u8; 0] = [];
    assert(empty@ =~= Seq::<u8>::empty());
    if request.flags != 0 {
        return response(STATUS_BAD_FLAGS, request.sequence, empty.as_slice(), output);
    }
    let command = request.command;
    if command == CMD_RESET {
        if request.payload_len == 0 {
            PacketOutcome::Reset
        } else {
            response(STATUS_BAD_LENGTH, request.sequence, empty.as_slice(), output)
        }
    } else if command == CMD_READ_STATUS {
        if request.payload_len == 0 {
            let message = status_queue.pop();
            response(STATUS_OK, request.sequence, message, output)
        } else {
            response(STATUS_BAD_LENGTH, request.sequence, empty.as_slice(), output)
        }
    } else if command == CMD_LOAD_BPF || command == CMD_START_BPF || command == CMD_READ_BPF_MAP
        || command == CMD_WRITE_BPF_MAP {
        response(
            if request.payload_len == 0 {
                STATUS_NOT_IMPLEMENTED
            } else {
                STATUS_BAD_LENGTH
            },
            request.sequence,
            empty.as_slice(),
            output,
        )
    } else {
        response(STATUS_BAD_COMMAND, request.sequence, empty.as_slice(), output)
    }
}

/// Dispatches one request with the image loader: Load BPF is accepted into
/// pending state, Read BPF map copies committed map bytes, Write BPF map
/// replaces them, Query BPF CRC reports the loader state, and every other
/// request goes to `dispatch`.
pub fn dispatch_with_bpf(
    request: &Request,
    status_queue: &mut StatusQueue,
    loader: &mut BpfLoader,
    map_backing: &mut [u8; BPF_MAX_MAP_BYTES],
    output: &mut [u8; MAX_FRAME],
) -> (r: PacketOutcome)
    requires
        old(status_queue).wf(),
        old(loader).wf(),
        request.flags == 0 && request.command == CMD_LOAD_BPF && old(loader)@.pending is None
            ==> request.payload_len as int <= MAX_PAYLOAD,
    ensures
        final(status_queue).wf(),
        final(loader).wf(),
        final(status_queue)@ == if pops_status(*request) {
            Seq::<u8>::empty()
        } else {
            old(status_queue)@
        },
        bpf_loader_after(*request, old(loader)@, final(loader)@),
        final(map_backing)@ == bpf_backing_after(*request, old(loader)@, old(map_backing)@),
        bpf_starts(*request, old(loader)@) ==> r == (PacketOutcome::Start {
            sequence: request.sequence,
        }) && final(output)@ == old(output)@,
        !bpf_starts(*request, old(loader)@) ==> match bpf_reply(
            *request,
            old(status_queue)@,
            old(loader)@,
            old(map_backing)@,
        ) {
            None => r == PacketOutcome::Reset && final(output)@ == old(output)@,
            Some(frame) => responded(r, old(output)@, final(output)@, frame),
        },
{
    let empty: [u8; 0] = [];
    assert(empty@ =~= Seq::<u8>::empty());
    if request.flags != 0 {
        return response(STATUS_BAD_FLAGS, request.sequence, empty.as_slice(), output);
    }
    let command = request.command;
    if command == CMD_LOAD_BPF {
        let status = match loader.accepts_load(request) {
            Ok(()) => STATUS_OK,
            Err(status) => status,
        };
        response(status, request.sequence, empty.as_slice(), output)
    } else if command == CMD_READ_BPF_MAP {
        if request.payload_len != 4 {
            return response(STATUS_BAD_LENGTH, request.sequence, empty.as_slice(), output);
        }
        let byte_length = request.payload[3];
        let byte_offset = read_le16(request.payload[1], request.payload[2]);
        match loader.read_map(request.payload[0], byte_offset, byte_length, map_backing) {
            Ok(bytes) => response(STATUS_OK, request.sequence, bytes, output),
            Err(status) => response(status, request.sequence, empty.as_slice(), output),
        }
    } else if command == CMD_START_BPF {
        match loader.start_check(request.payload_len) {
            Ok(()) => PacketOutcome::Start { sequence: request.sequence },
            Err(status) => response(status, request.sequence, empty.as_slice(), output),
        }
    } else if command == CMD_WRITE_BPF_MAP {
        let len = request.payload_len as usize;
        if len < 3 || len > MAX_PAYLOAD {
            return response(STATUS_BAD_LENGTH, request.sequence, empty.as_slice(), output);
        }
        let location = read_le16(request.payload[0], request.payload[1]);
        if location >= 0x2000 {
            return response(STATUS_BAD_LENGTH, request.sequence, empty.as_slice(), output);
        }
        let bytes = vstd::slice::slice_subrange(request.payload.as_slice(), 2, len);
        assert(bytes@ =~= request_payload(*request).skip(2));
        let status = match loader.write_map(
            (location / 1024) as u8,
            location % 1024,
            bytes,
            map_backing,
        ) {
            Ok(()) => STATUS_OK,
            Err(status) => status,
        };
        response(status, request.sequence, empty.as_slice(), output)
    } else if command == CMD_QUERY_BPF_CRC {
        if request.payload_len != 0 {
            return response(STATUS_BAD_LENGTH, request.sequence, empty.as_slice(), output);
        }
        match loader.query() {
            Ok(crc) => {
                let bytes = write_le32(crc);
                response(STATUS_OK, request.sequence, bytes.as_slice(), output)
            },
            Err(status) => response(status, request.sequence, empty.as_slice(), output),
        }
    } else {
        dispatch(request, status_queue, output)
    }
}

/// Parses one receive capture and dispatches its request without a loader;
/// a capture that yields no request gives `Empty` and changes nothing.
pub fn dispatch_packet(
    packet: &[u8],
    truncated: bool,
    status_queue: &mut StatusQueue,
    output: &mut [u8; MAX_FRAME],
) -> (r: PacketOutcome)
    requires
        old(status_queue).wf(),
    ensures
        final(status_queue).wf(),
        match packet_frame(packet@, truncated) {
            None => r == PacketOutcome::Empty && final(status_queue)@ == old(status_queue)@
                && final(output)@ == old(output)@,
            Some(frame) => {
                let request = decoded(frame);
                &&& final(status_queue)@ == if pops_status(request) {
                    Seq::<u8>::empty()
                } else {
                    old(status_queue)@
                }
                &&& match dispatch_reply(request, old(status_queue)@) {
                    None => r == PacketOutcome::Reset && final(output)@ == old(output)@,
                    Some(reply) => responded(r, old(output)@, final(output)@, reply),
                }
            },
        },
{
    match parse_packet(packet, truncated) {
        Some(request) => {
            proof {
                let frame = packet_frame(packet@, truncated).unwrap();
                law_decoding_is_unique(frame, request, decoded(frame));
            }
            dispatch(&request, status_queue, output)
        },
        None => PacketOutcome::Empty,
    }
}

/// Parses one receive capture and dispatches its request with the image
/// loader; a capture that yields no request gives `Empty` and changes nothing.
pub fn dispatch_packet_with_bpf(
    packet: &[u8],
    truncated: bool,
    status_queue: &mut StatusQueue,
    loader: &mut BpfLoader,
    map_backing: &mut [u8; BPF_MAX_MAP_BYTES],
    output: &mut [u8; MAX_FRAME],
) -> (r: PacketOutcome)
    requires
        old(status_queue).wf(),
        old(loader).wf(),
    ensures
        final(status_queue).wf(),
        final(loader).wf(),
        match packet_frame(packet@, truncated) {
            None => r == PacketOutcome::Empty && final(status_queue)@ == old(status_queue)@
                && final(loader)@ == old(loader)@ && final(map_backing)@ == old(map_backing)@
                && final(output)@ == old(output)@,
            Some(frame) => {
                let request = decoded(frame);
                &&& final(status_queue)@ == if pops_status(request) {
                    Seq::<u8>::empty()
                } else {
                    old(status_queue)@
                }
                &&& bpf_loader_after(request, old(loader)@, final(loader)@)
                &&& final(map_backing)@ == bpf_backing_after(
                    request,
                    old(loader)@,
                    old(map_backing)@,
                )
                &&& bpf_starts(request, old(loader)@) ==> r == (PacketOutcome::Start {
                    sequence: request.sequence,
                }) && final(output)@ == old(output)@
                &&& !bpf_starts(request, old(loader)@) ==> match bpf_reply(
                    request,
                    old(status_queue)@,
                    old(loader)@,
                    old(map_backing)@,
                ) {
                    None => r == PacketOutcome::Reset && final(output)@ == old(output)@,
                    Some(reply) => responded(r, old(output)@, final(output)@, reply),
                }
            },
        },
{
    match parse_packet(packet, truncated) {
        Some(request) => {
            proof {
                let frame = packet_frame(packet@, truncated).unwrap();
                law_decoding_is_unique(frame, request, decoded(frame));
            }
            dispatch_with_bpf(&request, status_queue, loader, map_backing, output)
        },
        None => PacketOutcome::Empty,
    }
}

/// Answers a valid Start BPF once the committed image has run: `returned` is
/// what the run returned, `None` for an interpreter failure. A run returning
/// zero enters the running state.
pub fn respond_start(
    sequence: u8,
    returned: Option<u64>,
    loader: &mut BpfLoader,
    output: &mut [u8; MAX_FRAME],
) -> (r: PacketOutcome)
    requires
        old(loader).wf(),
    ensures
        final(loader).wf(),
        ({
            let (status, after) = start_result(old(loader)@, returned);
            &&& final(loader)@ == after
            &&& responded(r, old(output)@, final(output)@, reply_frame(status, sequence, Seq::empty()))
        }),
{
    let empty: [u8; 0] = [];
    assert(empty@ =~= Seq::<u8>::empty());
    let status = loader.finish_start(returned);
    response(status, sequence, empty.as_slice(), output)
}

/// The I2C master transaction that a bridge request asks for.
#[derive(Clone, Copy, Debug, Eq, PartialEq)]
pub enum BridgeAction {
    /// The request was refused; a status-only response of this length is in
    /// the output buffer.
    Respond(usize),
    /// Write payload bytes `1..len` to the seven-bit `address`.
    Write { address: u8, len: usize },
    /// Read `count` bytes from the seven-bit `address`.
    Read { address: u8, count: usize },
}

/// `frame` was written at the start of the output buffer, which was `before`
/// and is now `after`, and `length` is its length.
pub open spec fn wrote_frame(length: usize, before: Seq<u8>, after: Seq<u8>, frame: Seq<u8>) -> bool {
    responded(PacketOutcome::Response(length), before, after, frame)
}

/// Validates a bridge request: a refused request gets its status-only
/// response, a valid one names the transaction to perform.
pub fn plan_i2c_request(request: &Request, output: &mut [u8; MAX_FRAME]) -> (r: BridgeAction)
    ensures
        match i2c_request_verdict(*request) {
            Err(status) => r matches BridgeAction::Respond(length) && wrote_frame(
                length,
                old(output)@,
                final(output)@,
                reply_frame(status, request.sequence, Seq::empty()),
            ),
            Ok(()) => final(output)@ == old(output)@ && if request.command == CMD_I2C_WRITE {
                r == BridgeAction::Write {
                    address: request.payload@[0],
                    len: request.payload_len as usize,
                }
            } else {
                r == BridgeAction::Read {
                    address: request.payload@[0],
                    count: request.payload@[1] as usize,
                }
            },
        },
{
    let empty: [u8; 0] = [];
    assert(empty@ =~= Seq::<u8>::empty());
    match validate_i2c_request(request) {
        Err(status) => {
            let length = match encode_response(status, request.sequence, 0, empty.as_slice(), output) {
                Ok(length) => length,
                Err(_) => HEADER_LEN,
            };
            BridgeAction::Respond(length)
        },
        Ok(()) => {
            if request.command == CMD_I2C_WRITE {
                BridgeAction::Write { address: request.payload[0], len: request.payload_len as usize }
            } else {
                BridgeAction::Read { address: request.payload[0], count: request.payload[1] as usize }
            }
        },
    }
}

/// Encodes the response to a performed bridge transaction: `STATUS_OK` with
/// the bytes read when it succeeded, and a status-only `STATUS_BAD_COMMAND`
/// when it failed, so that a failed read exposes no bytes.
pub fn encode_i2c_result(
    sequence: u8,
    succeeded: bool,
    read: &[u8],
    output: &mut [u8; MAX_FRAME],
) -> (r: usize)
    requires
        read@.len() <= MAX_PAYLOAD,
    ensures
        wrote_frame(
            r,
            old(output)@,
            final(output)@,
            if succeeded {
                reply_frame(STATUS_OK, sequence, read@)
            } else {
                reply_frame(STATUS_BAD_COMMAND, sequence, Seq::empty())
            },
        ),
{
    let empty: [u8; 0] = [];
    assert(empty@ =~= Seq::<u8>::empty());
    let (status, payload) = if succeeded {
        (STATUS_OK, read)
    } else {
        (STATUS_BAD_COMMAND, empty.as_slice())
    };
    match encode_response(status, sequence, 0, payload, output) {
        Ok(length) => length,
        Err(_) => HEADER_LEN,
    }
}

/// A message once read is gone: after a valid Read Status, the next valid
/// Read Status is answered `STATUS_OK` with an empty payload.
pub proof fn law_status_read_once(first: Request, second: Request, status: Seq<u8>)
    requires
        pops_status(first),
        pops_status(second),
    ensures
        dispatch_reply(first, status) == Some(reply_frame(STATUS_OK, first.sequence, status)),
        dispatch_reply(second, Seq::empty()) == Some(
            reply_frame(STATUS_OK, second.sequence, Seq::empty()),
        ),
{
}

} // verus!
