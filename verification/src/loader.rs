use vstd::prelude::*;

use crate::bytes::{le16, le32, le32_bytes, read_le16, read_le32, read_le32_at, write_le32};
use crate::crc::{crc32_finish, crc32_spec, crc32_update, crc_absorb, law_crc_absorb_concat};
use crate::frame::{Request, request_payload};
use crate::map_helpers::{BpfMapMetadata, splice};
use crate::{
    BPF_FLASH_OFFSET, BPF_FLASH_SIZE, BPF_HEADER_SIZE, BPF_MAP_DESCRIPTOR_SIZE, BPF_MAX_BYTECODE,
    BPF_MAX_MAPS, BPF_MAX_MAP_BYTES, MAX_PAYLOAD, STATUS_BAD_COMMAND, STATUS_BAD_CRC,
    STATUS_BAD_LENGTH, STATUS_BAD_STATE, STATUS_BUSY, STATUS_FLASH_ERROR, STATUS_NO_PROGRAM,
    STATUS_OK,
};

verus! {

/// One Load BPF operation, accepted by the I2C callback and carried out later
/// against flash.
#[derive(Clone, Copy, Debug, Eq, PartialEq)]
pub enum LoadOperation {
    Begin { bytecode_len: u16, map_count: u8, expected_crc: u32 },
    Data { offset: u16, bytes: [u8; 12], len: u8 },
    Finalize,
}

/// `[offset, offset + len)` lies within the reserved BPF image pages.
pub open spec fn in_image_pages(offset: int, len: int) -> bool {
    BPF_FLASH_OFFSET <= offset && offset + len <= BPF_FLASH_OFFSET + BPF_FLASH_SIZE
}

/// The bytes of `c` in `[from, to)` are all erased (`0xff`).
pub open spec fn erased(c: Seq<u8>, from: int, to: int) -> bool {
    forall|a: int| from <= a < to ==> #[trigger] c[a] == 0xff
}

/// `after` has the length of `before` and the same bytes outside `[from, to)`.
pub open spec fn unchanged_outside(before: Seq<u8>, after: Seq<u8>, from: int, to: int) -> bool {
    &&& after.len() == before.len()
    &&& forall|a: int|
        0 <= a < before.len() && !(from <= a < to) ==> #[trigger] after[a] == before[a]
}

/// Programming `data` at `at` turned every byte of the range that was erased
/// into the byte of `data` for it (bytes already programmed are not promised
/// anything: NOR flash cannot program a byte twice).
pub open spec fn programmed(before: Seq<u8>, after: Seq<u8>, at: int, data: Seq<u8>) -> bool {
    forall|i: int|
        0 <= i < data.len() && before[at + i] == 0xff ==> #[trigger] after[at + i] == data[i]
}

/// What `BpfFlash::contents` models a storage by: its bytes, by offset.
pub type FlashContents = Seq<u8>;

/// What `BpfFlash::failures` counts: the calls on a storage that failed.
pub type FailureCount = nat;

/// Storage that holds the BPF image pages. Implementations are the user's.
/// `contents` is the storage as NOR flash, indexed by flash offset: a read
/// changes nothing and, when it succeeds, delivers the bytes stored; a
/// program or erase touches only its own range, a successful program stores
/// its bytes into erased bytes, and a successful erase leaves its range all
/// ones. A failed call promises nothing of its own range, and is counted by
/// `failures`, which a successful call leaves as it was. The loader only
/// touches the reserved pages, programs two-byte-aligned even-length
/// fragments, and erases whole 4 KiB pages.
pub trait BpfFlash {
    /// The bytes the storage holds, indexed by flash offset.
    spec fn contents(&self) -> FlashContents;

    /// The number of calls on this storage that have failed so far.
    spec fn failures(&self) -> FailureCount;

    fn read(&mut self, offset: u32, bytes: &mut [u8]) -> (r: Result<(), ()>)
        requires
            in_image_pages(offset as int, old(bytes)@.len() as int),
        ensures
            final(self).failures() == old(self).failures() + if r is Ok { 0nat } else { 1nat },
            final(self).contents() == old(self).contents(),
            final(bytes)@.len() == old(bytes)@.len(),
            r is Ok ==> offset + old(bytes)@.len() <= old(self).contents().len() && final(bytes)@
                == old(self).contents().subrange(offset as int, offset + old(bytes)@.len()),
    ;

    fn write(&mut self, offset: u32, bytes: &[u8]) -> (r: Result<(), ()>)
        requires
            in_image_pages(offset as int, bytes@.len() as int),
            offset % 2 == 0,
            bytes@.len() % 2 == 0,
        ensures
            final(self).failures() == old(self).failures() + if r is Ok { 0nat } else { 1nat },
            unchanged_outside(
                old(self).contents(),
                final(self).contents(),
                offset as int,
                offset + bytes@.len(),
            ),
            r is Ok ==> offset + bytes@.len() <= old(self).contents().len() && programmed(
                old(self).contents(),
                final(self).contents(),
                offset as int,
                bytes@,
            ),
    ;

    fn erase(&mut self, from: u32, to: u32) -> (r: Result<(), ()>)
        requires
            in_image_pages(from as int, to - from),
            from < to,
            from % 4096 == 0,
            to % 4096 == 0,
        ensures
            final(self).failures() == old(self).failures() + if r is Ok { 0nat } else { 1nat },
            unchanged_outside(old(self).contents(), final(self).contents(), from as int, to as int),
            r is Ok ==> to <= old(self).contents().len() && erased(
                final(self).contents(),
                from as int,
                to as int,
            ),
    ;
}

/// Where the image loader stands.
#[derive(Clone, Copy, Debug, Eq, PartialEq)]
pub enum LoaderState {
    /// No valid image.
    Empty,
    /// A transfer has begun and image bytes are being received.
    Receiving,
    /// A validated image with this CRC is committed.
    Committed(u32),
    /// The last operation failed with this status.
    Failed(u8),
}

/// The place of one committed map in the backing store.
#[derive(Clone, Copy, Debug, Eq, PartialEq)]
pub struct MapLayout {
    pub offset: u16,
    pub len: u16,
    pub value_size: u16,
}

/// Fixed-capacity BPF image loader state. Flash operations are performed only
/// by `execute_pending`, allowing the I2C callback to remain bounded.
pub struct BpfLoader {
    state: LoaderState,
    pending: Option<LoadOperation>,
    bytecode_len: u16,
    map_count: u8,
    image_len: u16,
    next_offset: u16,
    expected_crc: u32,
    crc: u32,
    map_layouts: [MapLayout; BPF_MAX_MAPS],
    committed_map_count: u8,
    running: bool,
}

/// The loader's state as a mathematical value.
#[verifier::ext_equal]
pub ghost struct LoaderView {
    pub state: LoaderState,
    pub pending: Option<LoadOperation>,
    pub bytecode_len: u16,
    pub map_count: u8,
    pub image_len: u16,
    pub next_offset: u16,
    pub expected_crc: u32,
    /// The running CRC register over the image bytes received so far.
    pub crc: u32,
    pub layouts: Seq<MapLayout>,
    pub committed_map_count: u8,
    /// A successful Start BPF has run the committed image.
    pub running: bool,
}

impl View for BpfLoader {
    type V = LoaderView;

    closed spec fn view(&self) -> LoaderView {
        LoaderView {
            state: self.state,
            pending: self.pending,
            bytecode_len: self.bytecode_len,
            map_count: self.map_count,
            image_len: self.image_len,
            next_offset: self.next_offset,
            expected_crc: self.expected_crc,
            crc: self.crc,
            layouts: self.map_layouts@,
            committed_map_count: self.committed_map_count,
            running: self.running,
        }
    }
}

/// An unused layout slot.
pub open spec fn empty_layout() -> MapLayout {
    MapLayout { offset: 0, len: 0, value_size: 0 }
}

/// The layout table holding `layouts` first and unused slots after them.
pub open spec fn padded_layouts(layouts: Seq<MapLayout>) -> Seq<MapLayout> {
    Seq::new(
        BPF_MAX_MAPS as nat,
        |i: int|
            if i < layouts.len() {
                layouts[i]
            } else {
                empty_layout()
            },
    )
}

/// Number of image bytes (bytecode then descriptors) after the header.
pub open spec fn image_length(bytecode_len: u16, map_count: u8) -> int {
    bytecode_len + BPF_MAP_DESCRIPTOR_SIZE * map_count
}

/// The declared bounds that Begin and the stored header must respect.
pub open spec fn image_bounds_ok(bytecode_len: u16, map_count: u8) -> bool {
    &&& bytecode_len != 0
    &&& bytecode_len as int <= BPF_MAX_BYTECODE
    &&& bytecode_len % 8 == 0
    &&& map_count as int <= BPF_MAX_MAPS
    &&& image_length(bytecode_len, map_count) + BPF_HEADER_SIZE <= BPF_FLASH_SIZE
}

/// Flash offset of the first image byte, just after the header.
pub open spec fn image_base() -> int {
    BPF_FLASH_OFFSET + BPF_HEADER_SIZE
}

/// Flash offset of the first map descriptor of an image.
pub open spec fn descriptor_base(bytecode_len: u16) -> int {
    image_base() + bytecode_len
}

/// The map descriptors that flash `c` holds for an image with this bytecode
/// length and map count.
pub open spec fn descriptor_bytes(c: Seq<u8>, bytecode_len: u16, map_count: u8) -> Seq<u8> {
    if map_count == 0 {
        Seq::empty()
    } else {
        c.subrange(
            descriptor_base(bytecode_len),
            descriptor_base(bytecode_len) + BPF_MAP_DESCRIPTOR_SIZE * map_count,
        )
    }
}

impl LoaderView {
    pub open spec fn wf(self) -> bool {
        &&& self.layouts.len() == BPF_MAX_MAPS
        &&& self.committed_map_count as int <= BPF_MAX_MAPS
        &&& forall|i: int|
            0 <= i < self.committed_map_count ==> #[trigger] self.layouts[i].offset
                + self.layouts[i].len <= BPF_MAX_MAP_BYTES
        &&& self.bytecode_len as int <= BPF_MAX_BYTECODE
        &&& self.map_count as int <= BPF_MAX_MAPS
        &&& self.image_len == image_length(self.bytecode_len, self.map_count)
        &&& self.next_offset <= self.image_len
        &&& self.next_offset % 2 == 0
        &&& self.state is Receiving ==> image_bounds_ok(self.bytecode_len, self.map_count)
        &&& self.running ==> self.state is Committed && self.pending is None
        &&& match self.pending {
            None => true,
            Some(LoadOperation::Begin { bytecode_len, map_count, .. }) => image_bounds_ok(
                bytecode_len,
                map_count,
            ),
            Some(LoadOperation::Data { offset, len, .. }) => {
                &&& len <= 12
                &&& len % 2 == 0
                &&& offset == self.next_offset
                &&& offset + len <= self.image_len
            },
            Some(LoadOperation::Finalize) => self.next_offset == self.image_len,
        }
    }

    pub open spec fn with_pending(self, pending: Option<LoadOperation>) -> LoaderView {
        LoaderView { pending, ..self }
    }

    pub open spec fn failed(self, status: u8) -> LoaderView {
        LoaderView { state: LoaderState::Failed(status), ..self }
    }

    /// No committed map layouts, and no image running.
    pub open spec fn cleared(self) -> LoaderView {
        LoaderView {
            layouts: padded_layouts(Seq::empty()),
            committed_map_count: 0,
            running: false,
            ..self
        }
    }

    /// A committed image found in flash at startup: its declared bytecode
    /// length, map count and CRC, all of it present, with these layouts.
    pub open spec fn validated(
        self,
        bytecode_len: u16,
        map_count: u8,
        crc: u32,
        layouts: Seq<MapLayout>,
    ) -> LoaderView {
        LoaderView {
            state: LoaderState::Committed(crc),
            bytecode_len,
            map_count,
            image_len: image_length(bytecode_len, map_count) as u16,
            next_offset: image_length(bytecode_len, map_count) as u16,
            expected_crc: crc,
            crc: crc ^ 0xffff_ffffu32,
            layouts: padded_layouts(layouts),
            committed_map_count: layouts.len() as u8,
            ..self
        }
    }

    /// The committed image has run successfully.
    pub open spec fn started(self) -> LoaderView {
        LoaderView { running: true, ..self }
    }

    /// A transfer of the declared image has begun.
    pub open spec fn receiving(self, bytecode_len: u16, map_count: u8, expected_crc: u32) -> LoaderView {
        LoaderView {
            state: LoaderState::Receiving,
            bytecode_len,
            map_count,
            image_len: image_length(bytecode_len, map_count) as u16,
            next_offset: 0,
            expected_crc,
            crc: 0xffff_ffffu32,
            ..self
        }
    }

    /// `data` was received at the expected offset.
    pub open spec fn absorbed(self, data: Seq<u8>) -> LoaderView {
        LoaderView {
            crc: crc_absorb(self.crc, data),
            next_offset: (self.next_offset + data.len()) as u16,
            ..self
        }
    }

    /// The image of the current transfer is committed with these map layouts.
    pub open spec fn committed(self, layouts: Seq<MapLayout>) -> LoaderView {
        LoaderView {
            state: LoaderState::Committed(self.expected_crc),
            layouts: padded_layouts(layouts),
            committed_map_count: layouts.len() as u8,
            ..self
        }
    }
}

/// The loader before any operation.
pub open spec fn initial_loader() -> LoaderView {
    LoaderView {
        state: LoaderState::Empty,
        pending: None,
        bytecode_len: 0,
        map_count: 0,
        image_len: 0,
        next_offset: 0,
        expected_crc: 0,
        crc: 0xffff_ffffu32,
        layouts: padded_layouts(Seq::empty()),
        committed_map_count: 0,
        running: false,
    }
}

/// What `query` answers.
pub open spec fn query_result(v: LoaderView) -> Result<u32, u8> {
    if v.pending is Some {
        Err(STATUS_BUSY)
    } else {
        match v.state {
            LoaderState::Committed(crc) => Ok(crc),
            LoaderState::Failed(status) => Err(status),
            _ => Err(STATUS_NO_PROGRAM),
        }
    }
}

/// The byte range of the backing store that `read_map` returns, or its status.
pub open spec fn map_read_range(v: LoaderView, map_id: u8, byte_offset: u16, byte_length: u8) -> Result<
    (int, int),
    u8,
> {
    if byte_length == 0 || byte_length as int > MAX_PAYLOAD {
        Err(STATUS_BAD_LENGTH)
    } else if !(v.state is Committed) {
        Err(STATUS_NO_PROGRAM)
    } else if map_id as int >= BPF_MAX_MAPS || map_id >= v.committed_map_count {
        Err(STATUS_BAD_COMMAND)
    } else if byte_offset + byte_length > u16::MAX || byte_offset + byte_length
        > v.layouts[map_id as int].len {
        Err(STATUS_BAD_LENGTH)
    } else {
        let start = v.layouts[map_id as int].offset + byte_offset;
        if start + byte_length > BPF_MAX_MAP_BYTES {
            Err(STATUS_BAD_LENGTH)
        } else {
            Ok((start, start + byte_length))
        }
    }
}

/// The byte range of the backing store that a map write of `len` bytes
/// replaces, or its status: as for a read of that many bytes.
pub open spec fn map_write_range(v: LoaderView, map_id: u8, byte_offset: u16, len: int) -> Result<
    (int, int),
    u8,
> {
    if len == 0 || len > MAX_PAYLOAD {
        Err(STATUS_BAD_LENGTH)
    } else {
        map_read_range(v, map_id, byte_offset, len as u8)
    }
}

/// Whether Start BPF with a payload of `payload_len` bytes runs the committed
/// image, or the status refusing it: a nonempty payload, an operation still
/// pending against flash, an image already running, or no committed image.
pub open spec fn start_verdict(v: LoaderView, payload_len: u8) -> Result<(), u8> {
    if payload_len != 0 {
        Err(STATUS_BAD_LENGTH)
    } else if v.pending is Some {
        Err(STATUS_BUSY)
    } else if v.running {
        Err(STATUS_BAD_STATE)
    } else if !(v.state is Committed) {
        Err(STATUS_NO_PROGRAM)
    } else {
        Ok(())
    }
}

/// The status Start BPF answers once the image has run, with the loader it
/// leaves: a run that returned zero enters the running state and answers
/// `STATUS_OK`; a nonzero return or an interpreter failure (`None`) answers
/// `STATUS_BAD_COMMAND` and changes nothing.
pub open spec fn start_result(v: LoaderView, returned: Option<u64>) -> (u8, LoaderView) {
    match start_verdict(v, 0) {
        Err(status) => (status, v),
        Ok(()) => if returned == Some(0u64) {
            (STATUS_OK, v.started())
        } else {
            (STATUS_BAD_COMMAND, v)
        },
    }
}

/// Whether Load BPF with payload `p` is accepted, or the status refusing it.
pub open spec fn load_verdict(v: LoaderView, p: Seq<u8>) -> Result<(), u8> {
    if v.pending is Some {
        Err(STATUS_BUSY)
    } else if v.running {
        Err(STATUS_BAD_STATE)
    } else if p.len() == 0 {
        Err(STATUS_BAD_COMMAND)
    } else if p[0] == 0 && p.len() == 8 {
        if image_bounds_ok(le16(p[1], p[2]), p[3]) {
            Ok(())
        } else {
            Err(STATUS_BAD_LENGTH)
        }
    } else if p[0] == 1 && 5 <= p.len() <= 15 && (p.len() - 3) % 2 == 0 {
        if !(v.state is Receiving) || le16(p[1], p[2]) != v.next_offset {
            Err(STATUS_BAD_STATE)
        } else if le16(p[1], p[2]) + (p.len() - 3) > v.image_len {
            Err(STATUS_BAD_LENGTH)
        } else {
            Ok(())
        }
    } else if p[0] == 2 && p.len() == 1 {
        if !(v.state is Receiving) || v.next_offset != v.image_len {
            Err(STATUS_BAD_STATE)
        } else {
            Ok(())
        }
    } else if p[0] <= 2 {
        Err(STATUS_BAD_LENGTH)
    } else {
        Err(STATUS_BAD_COMMAND)
    }
}

/// `op` is the operation that an accepted payload `p` describes.
pub open spec fn load_operation_of(op: LoadOperation, p: Seq<u8>) -> bool {
    if p[0] == 0 {
        op == LoadOperation::Begin {
            bytecode_len: le16(p[1], p[2]),
            map_count: p[3],
            expected_crc: le32(p, 4),
        }
    } else if p[0] == 1 {
        op matches LoadOperation::Data { offset, bytes, len } && {
            &&& offset == le16(p[1], p[2])
            &&& len == p.len() - 3
            &&& bytes@.take(len as int) == p.skip(3)
            &&& forall|i: int| len <= i < 12 ==> bytes@[i] == 0
        }
    } else {
        op == LoadOperation::Finalize
    }
}

/// The header that Begin writes: magic `OBPF`, format version 1, map count,
/// little-endian bytecode length and expected CRC, then the commit marker and
/// reserved bytes still erased.
pub open spec fn begin_header(bytecode_len: u16, map_count: u8, expected_crc: u32) -> Seq<u8> {
    seq![0x4fu8, 0x42u8, 0x50u8, 0x46u8, 1u8, map_count, (bytecode_len & 0xffu16) as u8, (
    bytecode_len >> 8u16) as u8] + le32_bytes(expected_crc) + seq![0xffu8, 0xffu8, 0xffu8, 0xffu8]
}

/// `h` is the header of a committed image: magic, version, commit marker
/// programmed to zero, reserved bytes erased.
pub open spec fn header_committed(h: Seq<u8>) -> bool {
    &&& h.len() == BPF_HEADER_SIZE
    &&& h[0] == 0x4f && h[1] == 0x42 && h[2] == 0x50 && h[3] == 0x46
    &&& h[4] == 1
    &&& le16(h[12], h[13]) == 0
    &&& h[14] == 0xff && h[15] == 0xff
}

/// The backing layout that descriptor `d` gets when `total` backing bytes are
/// already taken: only four-byte-key array maps (type 1) with nonzero value
/// size and entry count that fit the 1,024-byte store are accepted.
pub open spec fn descriptor_layout(d: Seq<u8>, total: int) -> Option<MapLayout> {
    let map_type = le32(d, 0);
    let key_size = le32(d, 4);
    let value_size = le32(d, 8);
    let max_entries = le32(d, 12);
    let bytes = value_size as int * max_entries as int;
    if map_type != 1 || key_size != 4 || value_size == 0 || max_entries == 0 || total + bytes
        > BPF_MAX_MAP_BYTES {
        None
    } else {
        Some(MapLayout { offset: total as u16, len: bytes as u16, value_size: value_size as u16 })
    }
}

/// The layouts of the first `k` of the 16-byte descriptors in `d`, laid out
/// consecutively, with the number of backing bytes they take.
pub open spec fn descriptors_layouts(d: Seq<u8>, k: nat) -> Option<(Seq<MapLayout>, int)>
    decreases k,
{
    if k == 0 {
        Some((Seq::empty(), 0))
    } else {
        match descriptors_layouts(d, (k - 1) as nat) {
            None => None,
            Some((layouts, total)) => {
                let at = BPF_MAP_DESCRIPTOR_SIZE * (k - 1);
                if at + BPF_MAP_DESCRIPTOR_SIZE > d.len() {
                    None
                } else {
                    match descriptor_layout(d.subrange(at, at + BPF_MAP_DESCRIPTOR_SIZE), total) {
                        None => None,
                        Some(layout) => Some((layouts.push(layout), total + layout.len)),
                    }
                }
            },
        }
    }
}

/// The layouts of `map_count` descriptors, or `None` when one is refused.
pub open spec fn layouts_of(d: Seq<u8>, map_count: u8) -> Option<Seq<MapLayout>> {
    match descriptors_layouts(d, map_count as nat) {
        Some((layouts, _)) => Some(layouts),
        None => None,
    }
}

/// `d` holds `map_count` descriptors that are all accepted, with `layouts`.
pub open spec fn descriptors_give(d: Seq<u8>, map_count: u8, layouts: Seq<MapLayout>) -> bool {
    d.len() == BPF_MAP_DESCRIPTOR_SIZE * map_count && layouts_of(d, map_count) == Some(layouts)
}

/// The bytecode length, map count and CRC that a committed header declares
/// within the accepted bounds, or `None`.
pub open spec fn header_fields(h: Seq<u8>) -> Option<(u16, u8, u32)> {
    if header_committed(h) && image_bounds_ok(le16(h[6], h[7]), h[5]) {
        Some((le16(h[6], h[7]), h[5], le32(h, 8)))
    } else {
        None
    }
}

/// The committed image that a header, the image bytes and the descriptors
/// describe: a committed header within bounds, all image bytes, a CRC over
/// bytecode and descriptors that matches the header, and valid descriptors.
pub open spec fn stored_image(h: Seq<u8>, image: Seq<u8>, d: Seq<u8>) -> Option<(u32, Seq<MapLayout>)> {
    match header_fields(h) {
        None => None,
        Some((bytecode_len, map_count, crc)) => if image.len() == image_length(
            bytecode_len,
            map_count,
        ) && crc32_spec(image) == crc && d.len() == BPF_MAP_DESCRIPTOR_SIZE * map_count {
            match layouts_of(d, map_count) {
                Some(layouts) => Some((crc, layouts)),
                None => None,
            }
        } else {
            None
        },
    }
}

/// What Finalize may leave: a CRC mismatch fails with `STATUS_BAD_CRC`;
/// otherwise the image is committed with the layouts of the descriptors read,
/// or a refused descriptor gives `STATUS_BAD_STATE`, or a failed descriptor
/// read or commit-marker write gives `STATUS_FLASH_ERROR`.
pub open spec fn finalize_outcome(v: LoaderView, after: LoaderView) -> bool {
    let base = v.with_pending(None);
    if v.crc ^ 0xffff_ffffu32 != v.expected_crc {
        after == base.failed(STATUS_BAD_CRC)
    } else {
        ||| after == base.failed(STATUS_BAD_STATE)
        ||| after == base.failed(STATUS_FLASH_ERROR)
        ||| exists|d: Seq<u8>, layouts: Seq<MapLayout>|
            #[trigger] descriptors_give(d, v.map_count, layouts) && after == base.committed(layouts)
    }
}

/// What `execute_pending` may leave.
pub open spec fn execute_outcome(v: LoaderView, after: LoaderView) -> bool {
    match v.pending {
        None => after == v,
        Some(LoadOperation::Begin { bytecode_len, map_count, expected_crc }) => {
            let base = v.with_pending(None).cleared();
            after == base.failed(STATUS_FLASH_ERROR) || after == base.receiving(
                bytecode_len,
                map_count,
                expected_crc,
            )
        },
        Some(LoadOperation::Data { bytes, len, .. }) => {
            let base = v.with_pending(None);
            after == base.failed(STATUS_FLASH_ERROR) || after == base.absorbed(
                bytes@.take(len as int),
            )
        },
        Some(LoadOperation::Finalize) => finalize_outcome(v, after),
    }
}

/// Flash offset of the two-byte commit marker in the image header.
pub open spec fn marker_offset() -> int {
    BPF_FLASH_OFFSET + 12
}

/// Flash offset just past the 4 KiB pages that Begin erases: every page that
/// holds a byte of the header or of the declared image.
pub open spec fn erase_end(bytecode_len: u16, map_count: u8) -> int {
    BPF_FLASH_OFFSET + 4096 * ((BPF_HEADER_SIZE + image_length(bytecode_len, map_count) + 4095)
        / 4096)
}

/// Flash `after` as a successful Begin leaves `before`: the pages of the
/// image erased, the header written at their start, every other byte kept.
pub open spec fn begun_flash(
    before: Seq<u8>,
    after: Seq<u8>,
    bytecode_len: u16,
    map_count: u8,
    expected_crc: u32,
) -> bool {
    &&& erase_end(bytecode_len, map_count) <= before.len()
    &&& unchanged_outside(before, after, BPF_FLASH_OFFSET as int, erase_end(bytecode_len, map_count))
    &&& after.subrange(BPF_FLASH_OFFSET as int, image_base()) == begin_header(
        bytecode_len,
        map_count,
        expected_crc,
    )
    &&& erased(after, image_base(), erase_end(bytecode_len, map_count))
}

/// Flash `c` holds what the transfer `v` has written: the header of its
/// Begin, the image bytes received so far (whose CRC register `v` carries),
/// and the rest of the declared image still erased.
pub open spec fn image_flash(v: LoaderView, c: Seq<u8>) -> bool {
    &&& image_base() + v.image_len <= c.len()
    &&& c.subrange(BPF_FLASH_OFFSET as int, image_base()) == begin_header(
        v.bytecode_len,
        v.map_count,
        v.expected_crc,
    )
    &&& crc_absorb(0xffff_ffffu32, c.subrange(image_base(), image_base() + v.next_offset)) == v.crc
    &&& erased(c, image_base() + v.next_offset, image_base() + v.image_len)
}

/// What Finalize does to the loader `v` and to flash `before`, leaving `w`
/// and `after`, where `clean` tells that no flash call failed: a CRC mismatch
/// touches nothing; refused descriptors fail with `STATUS_BAD_STATE` and
/// touch nothing; valid descriptors lead to programming the commit marker to
/// zero, the only write, after which the image is committed with their
/// layouts. A failed call (a descriptor read or the marker write) leaves
/// `STATUS_FLASH_ERROR`.
pub open spec fn finalize_flash(
    v: LoaderView,
    w: LoaderView,
    before: Seq<u8>,
    after: Seq<u8>,
    clean: bool,
) -> bool {
    let base = v.with_pending(None);
    let d = descriptor_bytes(before, v.bytecode_len, v.map_count);
    let marker = marker_offset();
    if v.crc ^ 0xffff_ffffu32 != v.expected_crc {
        w == base.failed(STATUS_BAD_CRC) && after == before && clean
    } else {
        ||| {
            &&& w == base.failed(STATUS_BAD_STATE)
            &&& after == before
            &&& clean
            &&& image_base() + v.image_len <= before.len() ==> layouts_of(d, v.map_count) is None
        }
        ||| {
            &&& w == base.failed(STATUS_FLASH_ERROR)
            &&& !clean
            &&& unchanged_outside(before, after, marker, marker + 2)
        }
        ||| exists|layouts: Seq<MapLayout>|
            {
                &&& #[trigger] descriptors_give(d, v.map_count, layouts)
                &&& w == base.committed(layouts)
                &&& clean
                &&& marker + 2 <= before.len()
                &&& unchanged_outside(before, after, marker, marker + 2)
                &&& programmed(before, after, marker, seq![0u8, 0u8])
            }
    }
}

/// What `execute_pending` does to the loader `v` and to flash `before`,
/// leaving `w` and `after`, where `clean` tells that no flash call failed.
/// Nothing pending touches nothing. Begin erases the image pages and writes
/// the header; Data programs its bytes at the image offset it carries and
/// nowhere else; Finalize is `finalize_flash`. A failed call leaves
/// `STATUS_FLASH_ERROR` and has touched only the range it was given.
pub open spec fn execute_flash(
    v: LoaderView,
    w: LoaderView,
    before: Seq<u8>,
    after: Seq<u8>,
    clean: bool,
) -> bool {
    match v.pending {
        None => w == v && after == before && clean,
        Some(LoadOperation::Begin { bytecode_len, map_count, expected_crc }) => {
            let base = v.with_pending(None).cleared();
            ||| w == base.failed(STATUS_FLASH_ERROR) && !clean && unchanged_outside(
                before,
                after,
                BPF_FLASH_OFFSET as int,
                erase_end(bytecode_len, map_count),
            )
            ||| w == base.receiving(bytecode_len, map_count, expected_crc) && clean && begun_flash(
                before,
                after,
                bytecode_len,
                map_count,
                expected_crc,
            )
        },
        Some(LoadOperation::Data { offset, bytes, len }) => {
            let base = v.with_pending(None);
            let at = image_base() + offset;
            let data = bytes@.take(len as int);
            &&& unchanged_outside(before, after, at, at + len)
            &&& {
                ||| w == base.failed(STATUS_FLASH_ERROR) && !clean
                ||| w == base.absorbed(data) && clean && at + len <= before.len() && programmed(
                    before,
                    after,
                    at,
                    data,
                )
            }
        },
        Some(LoadOperation::Finalize) => finalize_flash(v, w, before, after, clean),
    }
}

/// The committed image that flash `c` holds, with its CRC and map layouts:
/// the header, image bytes and descriptors at their places form a valid
/// committed image (`stored_image`).
pub open spec fn flash_image(c: Seq<u8>) -> Option<(u32, Seq<MapLayout>)> {
    if c.len() < image_base() {
        None
    } else {
        let h = c.subrange(BPF_FLASH_OFFSET as int, image_base());
        match header_fields(h) {
            None => None,
            Some((bytecode_len, map_count, _)) => {
                let end = image_base() + image_length(bytecode_len, map_count);
                if c.len() < end {
                    None
                } else {
                    stored_image(
                        h,
                        c.subrange(image_base(), end),
                        descriptor_bytes(c, bytecode_len, map_count),
                    )
                }
            },
        }
    }
}

/// The bytecode length, map count and CRC that the header in flash `c`
/// declares, when it is a committed header within bounds.
pub open spec fn flash_header(c: Seq<u8>) -> Option<(u16, u8, u32)> {
    if c.len() < image_base() {
        None
    } else {
        header_fields(c.subrange(BPF_FLASH_OFFSET as int, image_base()))
    }
}

/// What `validate_committed` leaves of the loader `v` when it reads flash
/// `c`, where `clean` tells that no read failed. Nothing is left pending or
/// running. The image `c` holds is kept: its bytecode length, map count and
/// CRC, with the layouts of its descriptors. Without one the layouts are
/// cleared and there is no image. After a failed read it leaves
/// `STATUS_FLASH_ERROR`.
pub open spec fn validate_outcome(v: LoaderView, c: Seq<u8>, after: LoaderView, clean: bool) -> bool {
    let base = v.with_pending(None).cleared();
    if clean {
        match (flash_image(c), flash_header(c)) {
            (Some((crc, layouts)), Some((bytecode_len, map_count, _))) => after == base.validated(
                bytecode_len,
                map_count,
                crc,
                layouts,
            ),
            _ => after == LoaderView { state: LoaderState::Empty, ..base },
        }
    } else {
        after == base.failed(STATUS_FLASH_ERROR)
    }
}

fn image_len(bytecode_len: u16, map_count: u8) -> (r: Option<usize>)
    ensures
        r == Some(image_length(bytecode_len, map_count) as usize),
{
    match (map_count as usize).checked_mul(BPF_MAP_DESCRIPTOR_SIZE) {
        Some(descriptors) => (bytecode_len as usize).checked_add(descriptors),
        None => None,
    }
}

fn begin_header_bytes(bytecode_len: u16, map_count: u8, expected_crc: u32) -> (r: [u8; BPF_HEADER_SIZE])
    ensures
        r@ == begin_header(bytecode_len, map_count, expected_crc),
{
    let mut header = [0xffu8; BPF_HEADER_SIZE];
    header[0] = 0x4f;
    header[1] = 0x42;
    header[2] = 0x50;
    header[3] = 0x46;
    header[4] = 1;
    header[5] = map_count;
    header[6] = (bytecode_len & 0xff) as u8;
    header[7] = (bytecode_len >> 8) as u8;
    let crc = write_le32(expected_crc);
    header[8] = crc[0];
    header[9] = crc[1];
    header[10] = crc[2];
    header[11] = crc[3];
    assert(header@ =~= begin_header(bytecode_len, map_count, expected_crc));
    header
}

/// The layout of one map descriptor when `total` backing bytes are already
/// taken by the maps before it.
pub fn descriptor_map_layout(descriptor: &[u8; BPF_MAP_DESCRIPTOR_SIZE], total: u32) -> (r: Option<
    MapLayout,
>)
    ensures
        r == descriptor_layout(descriptor@, total as int),
{
    let map_type = read_le32_at(descriptor.as_slice(), 0);
    let key_size = read_le32_at(descriptor.as_slice(), 4);
    let value_size = read_le32_at(descriptor.as_slice(), 8);
    let max_entries = read_le32_at(descriptor.as_slice(), 12);
    let bytes = match value_size.checked_mul(max_entries) {
        Some(bytes) => bytes,
        None => return None,
    };
    let next_total = match total.checked_add(bytes) {
        Some(next_total) => next_total,
        None => return None,
    };
    if map_type != 1 || key_size != 4 || value_size == 0 || max_entries == 0 || next_total
        > BPF_MAX_MAP_BYTES as u32 {
        return None;
    }
    Some(MapLayout { offset: total as u16, len: bytes as u16, value_size: value_size as u16 })
}

/// The bytecode length, map count and expected CRC declared by a committed
/// image header within the accepted bounds.
pub fn parse_image_header(header: &[u8; BPF_HEADER_SIZE]) -> (r: Option<(u16, u8, u32)>)
    ensures
        r == header_fields(header@),
{
    let marker = read_le16(header[12], header[13]);
    if header[0] != 0x4f || header[1] != 0x42 || header[2] != 0x50 || header[3] != 0x46
        || header[4] != 1 || marker != 0 || header[14] != 0xff || header[15] != 0xff {
        return None;
    }
    let bytecode_len = read_le16(header[6], header[7]);
    let map_count = header[5];
    let image_len = match image_len(bytecode_len, map_count) {
        Some(image_len) => image_len,
        None => return None,
    };
    if bytecode_len == 0 || bytecode_len as usize > BPF_MAX_BYTECODE || bytecode_len % 8 != 0
        || map_count as usize > BPF_MAX_MAPS || image_len + BPF_HEADER_SIZE > BPF_FLASH_SIZE {
        return None;
    }
    Some((bytecode_len, map_count, read_le32_at(header.as_slice(), 8)))
}

/// Descriptors after a prefix of whole descriptors are read the same way.
proof fn lemma_descriptors_prefix(d: Seq<u8>, e: Seq<u8>, k: nat)
    requires
        d.len() >= BPF_MAP_DESCRIPTOR_SIZE * k,
    ensures
        descriptors_layouts(d + e, k) == descriptors_layouts(d, k),
    decreases k,
{
    if k > 0 {
        lemma_descriptors_prefix(d, e, (k - 1) as nat);
        let at = BPF_MAP_DESCRIPTOR_SIZE * (k - 1);
        assert((d + e).subrange(at, at + BPF_MAP_DESCRIPTOR_SIZE) =~= d.subrange(
            at,
            at + BPF_MAP_DESCRIPTOR_SIZE,
        ));
    }
}

/// Once a descriptor is refused, every longer run of descriptors is refused.
proof fn lemma_refusal_stays(d: Seq<u8>, i: nat, k: nat)
    requires
        descriptors_layouts(d, i) is None,
        i <= k,
    ensures
        descriptors_layouts(d, k) is None,
    decreases k,
{
    if k > i {
        lemma_refusal_stays(d, i, (k - 1) as nat);
    }
}

/// When descriptor `index` read from `c` is refused after the accepted ones
/// in `d`, the descriptors `c` holds are refused.
proof fn lemma_refused_descriptor(
    c: Seq<u8>,
    bytecode_len: u16,
    map_count: u8,
    d: Seq<u8>,
    descriptor: Seq<u8>,
    index: nat,
    total: int,
)
    requires
        index < map_count,
        descriptor.len() == BPF_MAP_DESCRIPTOR_SIZE,
        d.len() == BPF_MAP_DESCRIPTOR_SIZE * index,
        descriptors_layouts(d, index) matches Some((_, t)) && t == total,
        descriptor_layout(descriptor, total) is None,
        d + descriptor == c.subrange(
            descriptor_base(bytecode_len),
            descriptor_base(bytecode_len) + BPF_MAP_DESCRIPTOR_SIZE * (index + 1),
        ),
    ensures
        descriptor_base(bytecode_len) + BPF_MAP_DESCRIPTOR_SIZE * map_count <= c.len() ==> layouts_of(
            descriptor_bytes(c, bytecode_len, map_count),
            map_count,
        ) is None,
{
    let start = descriptor_base(bytecode_len);
    let next_d = d + descriptor;
    lemma_descriptors_prefix(d, descriptor, index);
    assert(next_d.subrange(
        BPF_MAP_DESCRIPTOR_SIZE * index,
        BPF_MAP_DESCRIPTOR_SIZE * index + BPF_MAP_DESCRIPTOR_SIZE,
    ) =~= descriptor);
    assert(descriptors_layouts(next_d, index + 1) is None);
    if start + BPF_MAP_DESCRIPTOR_SIZE * map_count <= c.len() {
        let full = descriptor_bytes(c, bytecode_len, map_count);
        let rest = c.subrange(
            start + BPF_MAP_DESCRIPTOR_SIZE * (index + 1),
            start + BPF_MAP_DESCRIPTOR_SIZE * map_count,
        );
        assert(full =~= next_d + rest);
        lemma_descriptors_prefix(next_d, rest, index + 1);
        lemma_refusal_stays(full, index + 1, map_count as nat);
    }
}

/// Reads and validates the `map_count` descriptors that follow the bytecode.
/// Flash is only read; a result is given only when every descriptor read
/// succeeded and every descriptor stored is accepted.
#[verifier::loop_isolation(false)]
#[verifier::spinoff_prover]
#[verifier::rlimit(60)]
fn map_layouts<F: BpfFlash>(flash: &mut F, bytecode_len: u16, map_count: u8) -> (r: Result<
    Option<([MapLayout; BPF_MAX_MAPS], u8)>,
    (),
>)
    requires
        map_count as int <= BPF_MAX_MAPS,
        bytecode_len as int <= BPF_MAX_BYTECODE,
    ensures
        final(flash).contents() == old(flash).contents(),
        final(flash).failures() == old(flash).failures() + if r is Err {
            1nat
        } else {
            0nat
        },
        r == Ok::<Option<([MapLayout; BPF_MAX_MAPS], u8)>, ()>(None) && descriptor_base(
            bytecode_len,
        ) + BPF_MAP_DESCRIPTOR_SIZE * map_count <= old(flash).contents().len() ==> layouts_of(
            descriptor_bytes(old(flash).contents(), bytecode_len, map_count),
            map_count,
        ) is None,
        r matches Ok(Some((layouts, count))) ==> {
            &&& count == map_count
            &&& layouts@ == padded_layouts(layouts@.take(count as int))
            &&& map_count > 0 ==> descriptor_base(bytecode_len) + BPF_MAP_DESCRIPTOR_SIZE
                * map_count <= old(flash).contents().len()
            &&& descriptors_give(
                descriptor_bytes(old(flash).contents(), bytecode_len, map_count),
                map_count,
                layouts@.take(count as int),
            )
        },
        map_count == 0 ==> (r matches Ok(Some((layouts, count))) && count == 0 && layouts@
            == padded_layouts(Seq::empty())),
{
    let ghost c = old(flash).contents();
    assert(flash.contents() == c);
    let ghost start = descriptor_base(bytecode_len);
    let mut total: u32 = 0;
    let mut layouts = [MapLayout { offset: 0, len: 0, value_size: 0 }; BPF_MAX_MAPS];
    let mut index: usize = 0;
    let ghost mut d = Seq::<u8>::empty();
    assert(layouts@ =~= padded_layouts(layouts@.take(0)));
    while index < map_count as usize
        invariant
            index <= map_count,
            map_count as int <= BPF_MAX_MAPS,
            bytecode_len as int <= BPF_MAX_BYTECODE,
            total as int <= BPF_MAX_MAP_BYTES,
            flash.contents() == c,
            flash.failures() == old(flash).failures(),
            start == descriptor_base(bytecode_len),
            index > 0 ==> start + BPF_MAP_DESCRIPTOR_SIZE * index <= c.len(),
            index > 0 ==> d == c.subrange(start, start + BPF_MAP_DESCRIPTOR_SIZE * index),
            d.len() == BPF_MAP_DESCRIPTOR_SIZE * index,
            descriptors_layouts(d, index as nat) == Some(
                (layouts@.take(index as int), total as int),
            ),
            layouts@ == padded_layouts(layouts@.take(index as int)),
        decreases map_count - index,
    {
        let mut descriptor = [0u8; BPF_MAP_DESCRIPTOR_SIZE];
        let offset = BPF_FLASH_OFFSET + BPF_HEADER_SIZE as u32 + bytecode_len as u32 + (index
            * BPF_MAP_DESCRIPTOR_SIZE) as u32;
        let read = flash.read(offset, &mut descriptor);
        assert(flash.contents() == c);
        if read.is_err() {
            return Err(());
        }
        assert(descriptor@ == c.subrange(offset as int, offset + BPF_MAP_DESCRIPTOR_SIZE));
        assert(d + descriptor@ =~= c.subrange(start, start + BPF_MAP_DESCRIPTOR_SIZE * (index + 1)));
        let layout = match descriptor_map_layout(&descriptor, total) {
            Some(layout) => layout,
            None => {
                proof {
                    lemma_refused_descriptor(
                        c,
                        bytecode_len,
                        map_count,
                        d,
                        descriptor@,
                        index as nat,
                        total as int,
                    );
                }
                return Ok(None);
            },
        };
        let ghost before = layouts@;
        let ghost next_d = d + descriptor@;
        proof {
            lemma_descriptors_prefix(d, descriptor@, index as nat);
            assert(next_d.subrange(
                BPF_MAP_DESCRIPTOR_SIZE * index,
                BPF_MAP_DESCRIPTOR_SIZE * index + BPF_MAP_DESCRIPTOR_SIZE,
            ) =~= descriptor@);
        }
        layouts[index] = layout;
        total = total + layout.len as u32;
        index += 1;
        proof {
            d = next_d;
            assert(layouts@.take(index as int) =~= before.take(index - 1).push(layout));
            assert(layouts@ =~= padded_layouts(layouts@.take(index as int)));
        }
    }
    proof {
        let taken = layouts@.take(map_count as int);
        assert(index == map_count as usize);
        assert(descriptors_layouts(d, map_count as nat) == Some((taken, total as int)));
        assert(layouts_of(d, map_count) == Some(taken));
        assert(descriptors_give(d, map_count, taken));
        assert(layouts@ == padded_layouts(taken));
        if map_count > 0 {
            assert(d == descriptor_bytes(c, bytecode_len, map_count));
        } else {
            assert(d =~= descriptor_bytes(c, bytecode_len, map_count));
        }
    }
    Ok(Some((layouts, map_count)))
}

/// Committed maps are laid out one after another from the start of the
/// backing store, in descriptor order, and together fit in its 1,024 bytes.
pub proof fn law_layouts_consecutive(d: Seq<u8>, k: nat)
    requires
        descriptors_layouts(d, k) is Some,
    ensures
        ({
            let (layouts, total) = descriptors_layouts(d, k).unwrap();
            &&& layouts.len() == k
            &&& 0 <= total <= BPF_MAX_MAP_BYTES
            &&& k == 0 ==> total == 0
            &&& k > 0 ==> total == layouts[k - 1].offset + layouts[k - 1].len
            &&& layouts.len() > 0 ==> layouts[0].offset == 0
            &&& forall|i: int|
                0 < i < k ==> #[trigger] layouts[i].offset == layouts[i - 1].offset + layouts[i
                    - 1].len
            &&& forall|i: int|
                0 <= i < k ==> #[trigger] layouts[i].offset + layouts[i].len <= total
        }),
    decreases k,
{
    if k > 0 {
        law_layouts_consecutive(d, (k - 1) as nat);
    }
}

/// Descriptor `d` is accepted with `layout`: a four-byte-key array map
/// (type 1) with nonzero value size and entry count, whose backing holds
/// every entry.
pub open spec fn descriptor_gives(d: Seq<u8>, layout: MapLayout) -> bool {
    &&& le32(d, 0) == 1
    &&& le32(d, 4) == 4
    &&& le32(d, 8) != 0
    &&& le32(d, 12) != 0
    &&& layout.len == le32(d, 8) as int * le32(d, 12) as int
    &&& layout.value_size == le32(d, 8)
}

/// Each committed map comes from its own descriptor, in order: descriptor
/// `i` is the `i`-th 16 bytes, and it is accepted with layout `i`.
pub proof fn law_layouts_follow_descriptors(d: Seq<u8>, k: nat)
    requires
        descriptors_layouts(d, k) is Some,
    ensures
        ({
            let (layouts, _) = descriptors_layouts(d, k).unwrap();
            forall|i: int|
                0 <= i < k ==> descriptor_gives(
                    d.subrange(BPF_MAP_DESCRIPTOR_SIZE * i, BPF_MAP_DESCRIPTOR_SIZE * i + 16),
                    #[trigger] layouts[i],
                )
        }),
    decreases k,
{
    if k > 0 {
        law_layouts_follow_descriptors(d, (k - 1) as nat);
        law_layouts_consecutive(d, (k - 1) as nat);
        let (prev, total) = descriptors_layouts(d, (k - 1) as nat).unwrap();
        let at = BPF_MAP_DESCRIPTOR_SIZE * (k - 1);
        let dk = d.subrange(at, at + BPF_MAP_DESCRIPTOR_SIZE);
        let v = le32(dk, 8);
        let e = le32(dk, 12);
        let bytes = v as int * e as int;
        assert(bytes >= 0 && (e >= 1 ==> v <= bytes)) by (nonlinear_arith)
            requires
                bytes == v as int * e as int,
                v >= 0,
                e >= 0,
        ;
        let (layouts, _) = descriptors_layouts(d, k).unwrap();
        assert forall|i: int| 0 <= i < k implies descriptor_gives(
            d.subrange(BPF_MAP_DESCRIPTOR_SIZE * i, BPF_MAP_DESCRIPTOR_SIZE * i + 16),
            #[trigger] layouts[i],
        ) by {
            if i < k - 1 {
                assert(layouts[i] == prev[i]);
            }
        }
    }
}

/// A descriptor is accepted exactly when it describes a four-byte-key array
/// map (type 1) with nonzero value size and entry count whose entries fit in
/// the backing store after the `total` bytes already taken; it is then laid
/// out at `total`, with room for every entry and its value size.
pub proof fn law_descriptor_acceptance(d: Seq<u8>, total: int)
    requires
        0 <= total <= BPF_MAX_MAP_BYTES,
    ensures
        ({
            let map_type = le32(d, 0);
            let key_size = le32(d, 4);
            let value_size = le32(d, 8);
            let max_entries = le32(d, 12);
            let bytes = value_size as int * max_entries as int;
            let valid = map_type == 1 && key_size == 4 && value_size != 0 && max_entries != 0
                && total + bytes <= BPF_MAX_MAP_BYTES;
            &&& valid ==> descriptor_layout(d, total) == Some(
                MapLayout {
                    offset: total as u16,
                    len: bytes as u16,
                    value_size: value_size as u16,
                },
            )
            &&& valid ==> bytes <= BPF_MAX_MAP_BYTES && value_size <= bytes
            &&& !valid ==> descriptor_layout(d, total) is None
        }),
{
    let value_size = le32(d, 8);
    let max_entries = le32(d, 12);
    let bytes = value_size as int * max_entries as int;
    assert(bytes >= 0 && (max_entries >= 1 ==> value_size <= bytes)) by (nonlinear_arith)
        requires
            bytes == value_size as int * max_entries as int,
            value_size >= 0,
            max_entries >= 0,
    ;
}

/// The bounds a declared image must respect: a nonzero bytecode length of at
/// most 7,680 bytes in whole eight-byte instructions, at most eight maps,
/// and header, bytecode and 16-byte descriptors within the 8 KiB region.
pub proof fn law_image_bounds(bytecode_len: u16, map_count: u8)
    ensures
        image_bounds_ok(bytecode_len, map_count) <==> (1 <= bytecode_len <= 7680 && bytecode_len
            % 8 == 0 && map_count <= 8 && 16 + bytecode_len + 16 * map_count <= 8192),
{
}

/// Once an image runs, no Load BPF request is accepted until reset; with no
/// operation pending each is answered `STATUS_BAD_STATE`.
pub proof fn law_running_refuses_loads(v: LoaderView, p: Seq<u8>)
    requires
        v.running,
        v.pending is None,
    ensures
        load_verdict(v, p) == Err::<(), u8>(STATUS_BAD_STATE),
{
}

/// Start BPF runs the committed image exactly when the request has no
/// payload, nothing is pending and no image is running; the run's zero
/// return answers `STATUS_OK` and enters the running state, any other
/// outcome answers `STATUS_BAD_COMMAND` and changes nothing. Without a
/// committed image Start answers `STATUS_NO_PROGRAM` and runs nothing.
pub proof fn law_start_runs_committed_image(v: LoaderView, returned: Option<u64>)
    ensures
        v.pending is None && !v.running && v.state is Committed ==> start_verdict(v, 0) == Ok::<
            (),
            u8,
        >(()),
        v.pending is None && !v.running && !(v.state is Committed) ==> start_verdict(v, 0)
            == Err::<(), u8>(STATUS_NO_PROGRAM),
        v.pending is None && !v.running && v.state is Committed ==> start_result(v, returned) == if returned == Some(0u64) {
            (STATUS_OK, LoaderView { running: true, ..v })
        } else {
            (STATUS_BAD_COMMAND, v)
        },
        v.running && v.pending is None ==> start_result(v, returned) == (STATUS_BAD_STATE, v),
        forall|payload_len: u8|
            payload_len != 0 ==> #[trigger] start_verdict(v, payload_len) == Err::<(), u8>(
                STATUS_BAD_LENGTH,
            ),
{
}

/// Malformed or untimely Load BPF requests are refused, whatever else holds:
/// an empty payload or unknown kind with `STATUS_BAD_COMMAND`; a Begin that
/// is not eight bytes or exceeds the bounds, a Data fragment that is not
/// three header bytes and an even two to twelve data bytes or runs past the
/// declared image, and a Finalize with a payload, with `STATUS_BAD_LENGTH`;
/// a Data fragment or Finalize outside a transfer, at another offset than
/// the next expected, or before every byte arrived, with `STATUS_BAD_STATE`.
pub proof fn law_malformed_loads_refused(v: LoaderView, p: Seq<u8>)
    requires
        v.pending is None,
        !v.running,
    ensures
        p.len() == 0 || p[0] > 2 ==> load_verdict(v, p) == Err::<(), u8>(STATUS_BAD_COMMAND),
        p.len() > 0 && p[0] == 0 && (p.len() != 8 || !image_bounds_ok(le16(p[1], p[2]), p[3]))
            ==> load_verdict(v, p) == Err::<(), u8>(STATUS_BAD_LENGTH),
        p.len() > 0 && p[0] == 1 && !(5 <= p.len() <= 15 && (p.len() - 3) % 2 == 0)
            ==> load_verdict(v, p) == Err::<(), u8>(STATUS_BAD_LENGTH),
        p.len() > 0 && p[0] == 1 && 5 <= p.len() <= 15 && (p.len() - 3) % 2 == 0 && (v.state
            != LoaderState::Receiving || le16(p[1], p[2]) != v.next_offset) ==> load_verdict(
            v,
            p,
        ) == Err::<(), u8>(STATUS_BAD_STATE),
        p.len() > 0 && p[0] == 1 && 5 <= p.len() <= 15 && (p.len() - 3) % 2 == 0 && v.state
            == LoaderState::Receiving && le16(p[1], p[2]) == v.next_offset && v.next_offset + (
        p.len() - 3) > v.image_len ==> load_verdict(v, p) == Err::<(), u8>(STATUS_BAD_LENGTH),
        p.len() > 1 && p[0] == 2 ==> load_verdict(v, p) == Err::<(), u8>(STATUS_BAD_LENGTH),
        p.len() == 1 && p[0] == 2 && (v.state != LoaderState::Receiving || v.next_offset
            != v.image_len) ==> load_verdict(v, p) == Err::<(), u8>(STATUS_BAD_STATE),
{
}

/// Well-formed Load BPF requests that nothing blocks are accepted, whatever
/// image is committed: with no operation pending and no image running, a
/// Begin within the bounds, a Data fragment of an even length at the next
/// expected offset that fits the declared image, and a Finalize after every
/// declared byte.
pub proof fn law_well_formed_loads_accepted(v: LoaderView, p: Seq<u8>)
    requires
        v.pending is None,
        !v.running,
        p.len() > 0,
    ensures
        p.len() == 8 && p[0] == 0 && image_bounds_ok(le16(p[1], p[2]), p[3]) ==> load_verdict(
            v,
            p,
        ) == Ok::<(), u8>(()),
        p[0] == 1 && 5 <= p.len() <= 15 && (p.len() - 3) % 2 == 0 && v.state
            == LoaderState::Receiving && le16(p[1], p[2]) == v.next_offset && v.next_offset
            + (p.len() - 3) <= v.image_len ==> load_verdict(v, p) == Ok::<(), u8>(()),
        p.len() == 1 && p[0] == 2 && v.state == LoaderState::Receiving && v.next_offset
            == v.image_len ==> load_verdict(v, p) == Ok::<(), u8>(()),
{
}

impl BpfLoader {
    pub open spec fn wf(&self) -> bool {
        self@.wf()
    }

    pub fn new() -> (r: Self)
        ensures
            r.wf(),
            r@ == initial_loader(),
    {
        let r = Self {
            state: LoaderState::Empty,
            pending: None,
            bytecode_len: 0,
            map_count: 0,
            image_len: 0,
            next_offset: 0,
            expected_crc: 0,
            crc: 0xffff_ffff,
            map_layouts: [MapLayout { offset: 0, len: 0, value_size: 0 }; BPF_MAX_MAPS],
            committed_map_count: 0,
            running: false,
        };
        assert(r@.layouts =~= padded_layouts(Seq::empty()));
        r
    }

    /// The committed CRC, or the status that stands in its place.
    pub fn query(&self) -> (r: Result<u32, u8>)
        ensures
            r == query_result(self@),
    {
        if self.pending.is_some() {
            return Err(STATUS_BUSY);
        }
        match self.state {
            LoaderState::Committed(crc) => Ok(crc),
            LoaderState::Failed(status) => Err(status),
            LoaderState::Empty | LoaderState::Receiving => Err(STATUS_NO_PROGRAM),
        }
    }

    /// Whether an accepted operation awaits `execute_pending`.
    pub fn has_pending(&self) -> (r: bool)
        ensures
            r == self@.pending is Some,
    {
        self.pending.is_some()
    }

    /// The backing-store range of `byte_length` bytes of a committed map,
    /// starting `byte_offset` bytes into the map, or the status refusing it.
    fn map_range(&self, map_id: u8, byte_offset: u16, byte_length: u8) -> (r: Result<
        (usize, usize),
        u8,
    >)
        requires
            self.wf(),
        ensures
            match map_read_range(self@, map_id, byte_offset, byte_length) {
                Ok((start, end)) => r == Ok::<(usize, usize), u8>((start as usize, end as usize))
                    && end <= BPF_MAX_MAP_BYTES,
                Err(status) => r == Err::<(usize, usize), u8>(status),
            },
    {
        if byte_length == 0 || byte_length as usize > MAX_PAYLOAD {
            return Err(STATUS_BAD_LENGTH);
        }
        if !matches!(self.state, LoaderState::Committed(_)) {
            return Err(STATUS_NO_PROGRAM);
        }
        if map_id as usize >= BPF_MAX_MAPS {
            return Err(STATUS_BAD_COMMAND);
        }
        let layout = self.map_layouts[map_id as usize];
        if map_id >= self.committed_map_count {
            return Err(STATUS_BAD_COMMAND);
        }
        let map_end = match byte_offset.checked_add(byte_length as u16) {
            Some(end) => end,
            None => return Err(STATUS_BAD_LENGTH),
        };
        if map_end > layout.len {
            return Err(STATUS_BAD_LENGTH);
        }
        let start = layout.offset as usize + byte_offset as usize;
        let end = start + byte_length as usize;
        if end > BPF_MAX_MAP_BYTES {
            return Err(STATUS_BAD_LENGTH);
        }
        Ok((start, end))
    }

    /// Returns `byte_length` raw bytes of a committed map's backing, starting
    /// `byte_offset` bytes into the map.
    pub fn read_map<'a>(
        &self,
        map_id: u8,
        byte_offset: u16,
        byte_length: u8,
        backing: &'a [u8; BPF_MAX_MAP_BYTES],
    ) -> (r: Result<&'a [u8], u8>)
        requires
            self.wf(),
        ensures
            match map_read_range(self@, map_id, byte_offset, byte_length) {
                Ok((start, end)) => r matches Ok(bytes) && bytes@ == backing@.subrange(start, end),
                Err(status) => r == Err::<&[u8], u8>(status),
            },
    {
        let (start, end) = self.map_range(map_id, byte_offset, byte_length)?;
        Ok(vstd::slice::slice_subrange(backing.as_slice(), start, end))
    }

    /// Replaces `bytes.len()` bytes of a committed map's backing, starting
    /// `byte_offset` bytes into the map; a refused write changes nothing.
    pub fn write_map(
        &self,
        map_id: u8,
        byte_offset: u16,
        bytes: &[u8],
        backing: &mut [u8; BPF_MAX_MAP_BYTES],
    ) -> (r: Result<(), u8>)
        requires
            self.wf(),
        ensures
            match map_write_range(self@, map_id, byte_offset, bytes@.len() as int) {
                Ok((start, _)) => r is Ok && final(backing)@ == splice(old(backing)@, start, bytes@),
                Err(status) => r == Err::<(), u8>(status) && final(backing)@ == old(backing)@,
            },
    {
        if bytes.len() == 0 || bytes.len() > MAX_PAYLOAD {
            return Err(STATUS_BAD_LENGTH);
        }
        let (start, end) = match self.map_range(map_id, byte_offset, bytes.len() as u8) {
            Ok(range) => range,
            Err(status) => return Err(status),
        };
        let mut i: usize = 0;
        while i < bytes.len()
            invariant
                end == start + bytes@.len(),
                end <= BPF_MAX_MAP_BYTES,
                i <= bytes@.len(),
                forall|j: int| 0 <= j < start ==> backing@[j] == old(backing)@[j],
                forall|j: int| end <= j < BPF_MAX_MAP_BYTES ==> backing@[j] == old(backing)@[j],
                forall|j: int| 0 <= j < i ==> backing@[start + j] == bytes@[j],
                forall|k: int| start + i <= k < end ==> backing@[k] == old(backing)@[k],
            decreases bytes@.len() - i,
        {
            backing[start + i] = bytes[i];
            i += 1;
        }
        assert(backing@ =~= splice(old(backing)@, start as int, bytes@));
        Ok(())
    }

    /// Whether Start BPF with this payload length runs the committed image,
    /// or the status refusing it.
    pub fn start_check(&self, payload_len: u8) -> (r: Result<(), u8>)
        ensures
            r == start_verdict(self@, payload_len),
    {
        if payload_len != 0 {
            Err(STATUS_BAD_LENGTH)
        } else if self.pending.is_some() {
            Err(STATUS_BUSY)
        } else if self.running {
            Err(STATUS_BAD_STATE)
        } else if !matches!(self.state, LoaderState::Committed(_)) {
            Err(STATUS_NO_PROGRAM)
        } else {
            Ok(())
        }
    }

    /// Records what running the committed image returned (`None` for an
    /// interpreter failure) and gives the status Start BPF answers.
    pub fn finish_start(&mut self, returned: Option<u64>) -> (r: u8)
        requires
            old(self).wf(),
        ensures
            final(self).wf(),
            (r, final(self)@) == start_result(old(self)@, returned),
    {
        match self.start_check(0) {
            Err(status) => status,
            Ok(()) => {
                if returned == Some(0u64) {
                    self.running = true;
                    STATUS_OK
                } else {
                    STATUS_BAD_COMMAND
                }
            },
        }
    }

    /// The bytecode length and map count of the committed image.
    pub fn committed_program(&self) -> (r: Option<(u16, u8)>)
        ensures
            r == if self@.state is Committed {
                Some((self@.bytecode_len, self@.committed_map_count))
            } else {
                None
            },
    {
        if matches!(self.state, LoaderState::Committed(_)) {
            Some((self.bytecode_len, self.committed_map_count))
        } else {
            None
        }
    }

    /// Where committed map `map_id` lies in the backing store, with its
    /// four-byte keys and value size.
    pub fn map_metadata(&self, map_id: u8) -> (r: Option<BpfMapMetadata>)
        requires
            self.wf(),
        ensures
            r == if self@.state is Committed && map_id < self@.committed_map_count {
                let layout = self@.layouts[map_id as int];
                Some(
                    BpfMapMetadata {
                        backing_offset: layout.offset,
                        backing_len: layout.len,
                        key_size: 4,
                        value_size: layout.value_size as u32,
                    },
                )
            } else {
                None
            },
    {
        if !matches!(self.state, LoaderState::Committed(_)) || map_id >= self.committed_map_count {
            return None;
        }
        let layout = self.map_layouts[map_id as usize];
        Some(
            BpfMapMetadata {
                backing_offset: layout.offset,
                backing_len: layout.len,
                key_size: 4,
                value_size: layout.value_size as u32,
            },
        )
    }

    /// Accepts at most one Load BPF operation into pending state; the flash
    /// work is left to `execute_pending`. Refusals change nothing.
    pub fn accepts_load(&mut self, request: &Request) -> (r: Result<(), u8>)
        requires
            old(self).wf(),
            old(self)@.pending is None ==> request.payload_len as int <= MAX_PAYLOAD,
        ensures
            final(self).wf(),
            r == load_verdict(old(self)@, request_payload(*request)),
            r is Err ==> final(self)@ == old(self)@,
            r is Ok ==> final(self)@ == old(self)@.with_pending(final(self)@.pending) && (final(self)@.pending matches Some(op) && load_operation_of(op, request_payload(*request))),
    {
        if self.pending.is_some() {
            return Err(STATUS_BUSY);
        }
        if self.running {
            return Err(STATUS_BAD_STATE);
        }
        let ghost p = request_payload(*request);
        let len = request.payload_len as usize;
        if len == 0 {
            return Err(STATUS_BAD_COMMAND);
        }
        let kind = request.payload[0];
        let operation = if kind == 0 && len == 8 {
            let bytecode_len = read_le16(request.payload[1], request.payload[2]);
            let map_count = request.payload[3];
            let expected_crc = read_le32(
                request.payload[4],
                request.payload[5],
                request.payload[6],
                request.payload[7],
            );
            proof {
                assert(seq![p[4], p[5], p[6], p[7]] =~= p.subrange(4, 8));
                assert(le32(seq![p[4], p[5], p[6], p[7]], 0) == le32(p, 4));
            }
            let image_len = bytecode_len as usize + map_count as usize * BPF_MAP_DESCRIPTOR_SIZE;
            if bytecode_len == 0 || bytecode_len as usize > BPF_MAX_BYTECODE || bytecode_len % 8
                != 0 || map_count as usize > BPF_MAX_MAPS || image_len + BPF_HEADER_SIZE
                > BPF_FLASH_SIZE {
                return Err(STATUS_BAD_LENGTH);
            }
            LoadOperation::Begin { bytecode_len, map_count, expected_crc }
        } else if kind == 1 && 5 <= len && len <= 15 && (len - 3) % 2 == 0 {
            if !matches!(self.state, LoaderState::Receiving) {
                return Err(STATUS_BAD_STATE);
            }
            let offset = read_le16(request.payload[1], request.payload[2]);
            if offset != self.next_offset {
                return Err(STATUS_BAD_STATE);
            }
            let data_len = len - 3;
            if offset as usize + data_len > self.image_len as usize {
                return Err(STATUS_BAD_LENGTH);
            }
            let mut bytes = [0u8; 12];
            let mut i: usize = 0;
            while i < data_len
                invariant
                    data_len <= 12,
                    len == data_len + 3,
                    len == request.payload_len as usize,
                    len <= MAX_PAYLOAD,
                    p == request_payload(*request),
                    p.len() == len,
                    i <= data_len,
                    forall|j: int| 0 <= j < i ==> bytes@[j] == p[3 + j],
                    forall|j: int| i <= j < 12 ==> bytes@[j] == 0,
                decreases data_len - i,
            {
                assert(p[3 + i as int] == request.payload@[3 + i as int]);
                bytes[i] = request.payload[3 + i];
                i += 1;
            }
            assert(bytes@.take(data_len as int) =~= p.skip(3));
            LoadOperation::Data { offset, bytes, len: data_len as u8 }
        } else if kind == 2 && len == 1 {
            if !matches!(self.state, LoaderState::Receiving) {
                return Err(STATUS_BAD_STATE);
            }
            if self.next_offset != self.image_len {
                return Err(STATUS_BAD_STATE);
            }
            LoadOperation::Finalize
        } else if kind <= 2 {
            return Err(STATUS_BAD_LENGTH);
        } else {
            return Err(STATUS_BAD_COMMAND);
        };
        self.pending = Some(operation);
        Ok(())
    }

    fn clear_map_layouts(&mut self)
        requires
            old(self).wf(),
        ensures
            final(self).wf(),
            final(self)@ == old(self)@.cleared(),
    {
        self.map_layouts = [MapLayout { offset: 0, len: 0, value_size: 0 }; BPF_MAX_MAPS];
        self.committed_map_count = 0;
        self.running = false;
        assert(self@ =~= old(self)@.cleared());
    }

    /// Carries out the accepted operation, if any, against flash.
    pub fn execute_pending<F: BpfFlash>(&mut self, flash: &mut F)
        requires
            old(self).wf(),
        ensures
            final(self).wf(),
            execute_outcome(old(self)@, final(self)@),
            execute_flash(
                old(self)@,
                final(self)@,
                old(flash).contents(),
                final(flash).contents(),
                final(flash).failures() == old(flash).failures(),
            ),
            final(flash).failures() >= old(flash).failures(),
    {
        let ghost v = self@;
        let operation = match self.pending {
            Some(operation) => operation,
            None => return,
        };
        self.pending = None;
        match operation {
            LoadOperation::Begin { bytecode_len, map_count, expected_crc } => {
                self.begin(flash, bytecode_len, map_count, expected_crc)
            },
            LoadOperation::Data { offset, bytes, len } => {
                let ghost c = flash.contents();
                let data = vstd::slice::slice_subrange(bytes.as_slice(), 0, len as usize);
                assert(data@ =~= bytes@.take(len as int));
                let at = BPF_FLASH_OFFSET + BPF_HEADER_SIZE as u32 + offset as u32;
                if flash.write(at, data).is_err() {
                    self.state = LoaderState::Failed(STATUS_FLASH_ERROR);
                    return;
                }
                self.crc = crc32_update(self.crc, data);
                self.next_offset += len as u16;
                assert(self@ =~= v.with_pending(None).absorbed(bytes@.take(len as int)));
            },
            LoadOperation::Finalize => {
                self.finalize(flash);
                assert(v.with_pending(None) == old(self)@.with_pending(None));
            },
        }
    }

    fn begin<F: BpfFlash>(
        &mut self,
        flash: &mut F,
        bytecode_len: u16,
        map_count: u8,
        expected_crc: u32,
    )
        requires
            old(self).wf(),
            old(self)@.pending is None,
            image_bounds_ok(bytecode_len, map_count),
        ensures
            final(self).wf(),
            final(flash).failures() >= old(flash).failures(),
            ({
                let base = old(self)@.cleared();
                let clean = final(flash).failures() == old(flash).failures();
                let (before, after) = (old(flash).contents(), final(flash).contents());
                ||| final(self)@ == base.failed(STATUS_FLASH_ERROR) && !clean && unchanged_outside(
                    before,
                    after,
                    BPF_FLASH_OFFSET as int,
                    erase_end(bytecode_len, map_count),
                )
                ||| final(self)@ == base.receiving(bytecode_len, map_count, expected_crc) && clean
                    && begun_flash(before, after, bytecode_len, map_count, expected_crc)
            }),
    {
        let ghost c0 = flash.contents();
        self.clear_map_layouts();
        let image_len = match image_len(bytecode_len, map_count) {
            Some(image_len) => image_len,
            None => {
                self.state = LoaderState::Failed(STATUS_FLASH_ERROR);
                return;
            },
        };
        let pages = (BPF_HEADER_SIZE + image_len + 4095) / 4096;
        let end = BPF_FLASH_OFFSET + (pages * 4096) as u32;
        assert(end == erase_end(bytecode_len, map_count));
        assert(end >= image_base());
        if flash.erase(BPF_FLASH_OFFSET, end).is_err() {
            self.state = LoaderState::Failed(STATUS_FLASH_ERROR);
            return;
        }
        let ghost c1 = flash.contents();
        let header = begin_header_bytes(bytecode_len, map_count, expected_crc);
        if flash.write(BPF_FLASH_OFFSET, header.as_slice()).is_err() {
            self.state = LoaderState::Failed(STATUS_FLASH_ERROR);
            return;
        }
        proof {
            let c2 = flash.contents();
            assert forall|i: int| 0 <= i < BPF_HEADER_SIZE implies c2[BPF_FLASH_OFFSET + i]
                == header@[i] by {
                assert(c1[BPF_FLASH_OFFSET + i] == 0xff);
            }
            assert(c2.subrange(BPF_FLASH_OFFSET as int, image_base()) =~= begin_header(
                bytecode_len,
                map_count,
                expected_crc,
            ));
        }
        self.state = LoaderState::Receiving;
        self.bytecode_len = bytecode_len;
        self.map_count = map_count;
        self.image_len = image_len as u16;
        self.next_offset = 0;
        self.expected_crc = expected_crc;
        self.crc = 0xffff_ffff;
        assert(self@ =~= old(self)@.cleared().receiving(bytecode_len, map_count, expected_crc));
    }

    fn finalize<F: BpfFlash>(&mut self, flash: &mut F)
        requires
            old(self).wf(),
            old(self)@.pending is None,
            !old(self)@.running,
            old(self)@.next_offset == old(self)@.image_len,
        ensures
            final(self).wf(),
            finalize_outcome(old(self)@, final(self)@),
            finalize_flash(
                old(self)@,
                final(self)@,
                old(flash).contents(),
                final(flash).contents(),
                final(flash).failures() == old(flash).failures(),
            ),
            final(flash).failures() >= old(flash).failures(),
    {
        let ghost c = flash.contents();
        if crc32_finish(self.crc) != self.expected_crc {
            self.state = LoaderState::Failed(STATUS_BAD_CRC);
            return;
        }
        let (map_layouts, committed_map_count) = match map_layouts(
            flash,
            self.bytecode_len,
            self.map_count,
        ) {
            Ok(Some(found)) => found,
            Ok(None) => {
                self.state = LoaderState::Failed(STATUS_BAD_STATE);
                return;
            },
            Err(()) => {
                self.state = LoaderState::Failed(STATUS_FLASH_ERROR);
                return;
            },
        };
        let ghost layouts = map_layouts@.take(committed_map_count as int);
        let marker: [u8; 2] = [0, 0];
        assert(marker@ =~= seq![0u8, 0u8]);
        if flash.write(BPF_FLASH_OFFSET + 12, marker.as_slice()).is_err() {
            self.state = LoaderState::Failed(STATUS_FLASH_ERROR);
            return;
        }
        proof {
            let d = descriptor_bytes(c, self.bytecode_len, self.map_count);
            law_layouts_consecutive(d, self.map_count as nat);
            assert(descriptors_give(d, self@.map_count, layouts));
        }
        self.state = LoaderState::Committed(self.expected_crc);
        self.map_layouts = map_layouts;
        self.committed_map_count = committed_map_count;
        assert(self@ == old(self)@.with_pending(None).committed(layouts));
    }

    /// Checks the image stored in flash at startup and keeps it only if it
    /// is a valid committed image. Flash is only read.
    #[verifier::loop_isolation(false)]
    #[verifier::spinoff_prover]
    #[verifier::rlimit(40)]
    pub fn validate_committed<F: BpfFlash>(&mut self, flash: &mut F)
        requires
            old(self).wf(),
        ensures
            final(self).wf(),
            final(flash).contents() == old(flash).contents(),
            final(flash).failures() >= old(flash).failures(),
            validate_outcome(
                old(self)@,
                old(flash).contents(),
                final(self)@,
                final(flash).failures() == old(flash).failures(),
            ),
    {
        let ghost c = flash.contents();
        self.pending = None;
        self.clear_map_layouts();
        let mut header = [0u8; BPF_HEADER_SIZE];
        if flash.read(BPF_FLASH_OFFSET, &mut header).is_err() {
            self.state = LoaderState::Failed(STATUS_FLASH_ERROR);
            return;
        }
        let (bytecode_len, map_count, expected_crc) = match parse_image_header(&header) {
            Some(fields) => fields,
            None => {
                self.state = LoaderState::Empty;
                return;
            },
        };
        let image_len = bytecode_len as usize + map_count as usize * BPF_MAP_DESCRIPTOR_SIZE;
        let mut crc: u32 = 0xffff_ffff;
        let mut offset: usize = 0;
        let ghost mut image = Seq::<u8>::empty();
        while offset < image_len
            invariant
                image_len == image_length(bytecode_len, map_count),
                image_len + BPF_HEADER_SIZE <= BPF_FLASH_SIZE,
                image_len % 8 == 0,
                offset % 8 == 0,
                offset <= image_len,
                image.len() == offset,
                offset > 0 ==> image_base() + offset <= c.len() && image == c.subrange(
                    image_base(),
                    image_base() + offset,
                ),
                crc == crc_absorb(0xffff_ffffu32, image),
                flash.contents() == c,
                flash.failures() == old(flash).failures(),
                self.wf(),
                self@ == old(self)@.with_pending(None).cleared(),
            decreases image_len - offset,
        {
            let ghost before = image;
            let at = BPF_FLASH_OFFSET + BPF_HEADER_SIZE as u32 + offset as u32;
            if image_len - offset >= 16 {
                let mut chunk = [0u8; 16];
                if flash.read(at, &mut chunk).is_err() {
                    self.state = LoaderState::Failed(STATUS_FLASH_ERROR);
                    return;
                }
                crc = crc32_update(crc, chunk.as_slice());
                offset += 16;
                proof {
                    law_crc_absorb_concat(0xffff_ffffu32, before, chunk@);
                    image = before + chunk@;
                    assert(image =~= c.subrange(image_base(), image_base() + offset));
                }
            } else {
                let mut chunk = [0u8; 8];
                if flash.read(at, &mut chunk).is_err() {
                    self.state = LoaderState::Failed(STATUS_FLASH_ERROR);
                    return;
                }
                crc = crc32_update(crc, chunk.as_slice());
                offset += 8;
                proof {
                    law_crc_absorb_concat(0xffff_ffffu32, before, chunk@);
                    image = before + chunk@;
                    assert(image =~= c.subrange(image_base(), image_base() + offset));
                }
            }
        }
        let (map_layouts, committed_map_count) = match map_layouts(flash, bytecode_len, map_count) {
            Ok(Some(found)) => found,
            Ok(None) => {
                self.state = LoaderState::Empty;
                return;
            },
            Err(()) => {
                self.state = LoaderState::Failed(STATUS_FLASH_ERROR);
                return;
            },
        };
        if crc32_finish(crc) != expected_crc {
            self.state = LoaderState::Empty;
            return;
        }
        proof {
            let layouts = map_layouts@.take(committed_map_count as int);
            let d = descriptor_bytes(c, bytecode_len, map_count);
            law_layouts_consecutive(d, map_count as nat);
            assert(stored_image(header@, image, d) == Some((expected_crc, layouts)));
            assert(flash_image(c) == Some((expected_crc, layouts)));
            assert(flash_header(c) == Some((bytecode_len, map_count, expected_crc)));
            assert(crc == expected_crc ^ 0xffff_ffffu32) by (bit_vector)
                requires
                    crc ^ 0xffff_ffffu32 == expected_crc,
            ;
        }
        self.state = LoaderState::Committed(expected_crc);
        self.bytecode_len = bytecode_len;
        self.map_count = map_count;
        self.image_len = image_len as u16;
        self.next_offset = image_len as u16;
        self.expected_crc = expected_crc;
        self.crc = crc;
        self.map_layouts = map_layouts;
        self.committed_map_count = committed_map_count;
        assert(self@ == old(self)@.with_pending(None).cleared().validated(
            bytecode_len,
            map_count,
            expected_crc,
            map_layouts@.take(committed_map_count as int),
        ));
    }
}

impl Default for BpfLoader {
    fn default() -> (r: Self)
        ensures
            r.wf(),
            r@ == initial_loader(),
    {
        Self::new()
    }
}

/// While an operation is pending, every Load BPF request is answered
/// `STATUS_BUSY` and the CRC query too.
pub proof fn law_busy_while_pending(v: LoaderView, payload: Seq<u8>)
    requires
        v.pending is Some,
    ensures
        load_verdict(v, payload) == Err::<(), u8>(STATUS_BUSY),
        query_result(v) == Err::<u32, u8>(STATUS_BUSY),
{
}

/// A failure is kept until the next Begin: the query reports it, and the only
/// Load BPF operation accepted after it is a Begin.
pub proof fn law_failure_kept_until_begin(v: LoaderView, status: u8, payload: Seq<u8>)
    requires
        v.state == LoaderState::Failed(status),
        v.pending is None,
    ensures
        query_result(v) == Err::<u32, u8>(status),
        load_verdict(v, payload) is Ok ==> payload[0] == 0,
{
}

/// An image is committed by `execute_pending` only when Finalize follows the
/// whole declared image, the CRC of the bytes received matches the expected
/// CRC, and every stored descriptor is valid.
pub proof fn law_commit_requires_complete_image(v: LoaderView, after: LoaderView)
    requires
        v.wf(),
        !(v.state is Committed),
        execute_outcome(v, after),
        after.state is Committed,
    ensures
        v.pending == Some(LoadOperation::Finalize),
        v.next_offset == v.image_len,
        v.crc ^ 0xffff_ffffu32 == v.expected_crc,
        after.state == LoaderState::Committed(v.expected_crc),
        exists|d: Seq<u8>| #[trigger] descriptors_give(d, v.map_count, after.layouts.take(after.committed_map_count as int)),
{
    let base = v.with_pending(None);
    let (d, layouts) = choose|d: Seq<u8>, layouts: Seq<MapLayout>|
        #[trigger] descriptors_give(d, v.map_count, layouts) && after == base.committed(layouts);
    law_layouts_consecutive(d, v.map_count as nat);
    assert(after.layouts.take(after.committed_map_count as int) =~= layouts);
    assert(descriptors_give(d, v.map_count, after.layouts.take(after.committed_map_count as int)));
}

/// The header written by Begin keeps its commit marker erased; once the
/// marker is programmed to zero it is a committed header that declares the
/// same bytecode length, map count and CRC.
pub proof fn law_committed_header_describes_image(
    bytecode_len: u16,
    map_count: u8,
    expected_crc: u32,
)
    ensures
        ({
            let written = begin_header(bytecode_len, map_count, expected_crc);
            let committed = written.update(12, 0).update(13, 0);
            &&& written.len() == BPF_HEADER_SIZE
            &&& written[12] == 0xff && written[13] == 0xff
            &&& !header_committed(written)
            &&& header_committed(committed)
            &&& le16(committed[6], committed[7]) == bytecode_len
            &&& committed[5] == map_count
            &&& le32(committed, 8) == expected_crc
        }),
{
    let written = begin_header(bytecode_len, map_count, expected_crc);
    let committed = written.update(12, 0).update(13, 0);
    let lo = (bytecode_len & 0xffu16) as u8;
    let hi = (bytecode_len >> 8u16) as u8;
    assert(committed[6] == lo && committed[7] == hi);
    assert(((lo as u16) | ((hi as u16) << 8u16)) == bytecode_len) by (bit_vector)
        requires
            lo == (bytecode_len & 0xffu16) as u8,
            hi == (bytecode_len >> 8u16) as u8,
    ;
    assert(le16(0xff, 0xff) == 0xffff) by (bit_vector);
    assert(le16(0, 0) == 0) by (bit_vector);
    crate::bytes::law_le32_round_trip(expected_crc);
    assert(committed.subrange(8, 12) =~= le32_bytes(expected_crc));
    assert(le32(committed, 8) == le32(le32_bytes(expected_crc), 0));
}

/// The header Begin wrote, with its commit marker programmed, followed by
/// image bytes whose CRC matched and whose descriptors were accepted, is a
/// stored committed image with that CRC and those layouts.
proof fn lemma_written_image_is_stored(
    bytecode_len: u16,
    map_count: u8,
    expected_crc: u32,
    image: Seq<u8>,
    layouts: Seq<MapLayout>,
)
    requires
        image_bounds_ok(bytecode_len, map_count),
        image.len() == image_length(bytecode_len, map_count),
        crc32_spec(image) == expected_crc,
        descriptors_give(image.skip(bytecode_len as int), map_count, layouts),
    ensures
        stored_image(
            begin_header(bytecode_len, map_count, expected_crc).update(12, 0).update(13, 0),
            image,
            image.skip(bytecode_len as int),
        ) == Some((expected_crc, layouts)),
{
    law_committed_header_describes_image(bytecode_len, map_count, expected_crc);
}

/// What a transfer commits survives a reset: when Finalize commits an image
/// into flash that holds what the transfer wrote, the flash it leaves holds
/// that committed image with the same bytecode length, map count, CRC and
/// map layouts, so validation at the next startup keeps all of them unless a
/// read fails.
pub proof fn law_committed_image_survives_reset(
    v: LoaderView,
    w: LoaderView,
    before: Seq<u8>,
    after: Seq<u8>,
    clean: bool,
)
    requires
        v.wf(),
        v.state is Receiving,
        v.pending == Some(LoadOperation::Finalize),
        image_flash(v, before),
        execute_flash(v, w, before, after, clean),
        w.state is Committed,
    ensures
        flash_image(after) == Some((v.expected_crc, w.layouts.take(w.committed_map_count as int))),
        flash_header(after) == Some((v.bytecode_len, v.map_count, v.expected_crc)),
        forall|u: LoaderView, x: LoaderView|
            #[trigger] validate_outcome(u, after, x, true) ==> {
                &&& x.state == w.state
                &&& x.bytecode_len == w.bytecode_len
                &&& x.map_count == w.map_count
                &&& x.image_len == w.image_len
                &&& x.layouts == w.layouts
                &&& x.committed_map_count == w.committed_map_count
            },
{
    let base = v.with_pending(None);
    let d = descriptor_bytes(before, v.bytecode_len, v.map_count);
    let marker = marker_offset();
    let layouts = choose|layouts: Seq<MapLayout>|
        {
            &&& #[trigger] descriptors_give(d, v.map_count, layouts)
            &&& w == base.committed(layouts)
            &&& clean
            &&& marker + 2 <= before.len()
            &&& unchanged_outside(before, after, marker, marker + 2)
            &&& programmed(before, after, marker, seq![0u8, 0u8])
        };
    law_layouts_consecutive(d, v.map_count as nat);
    let header = begin_header(v.bytecode_len, v.map_count, v.expected_crc);
    let end = image_base() + v.image_len;
    let image = before.subrange(image_base(), end);
    assert(before[marker] == header[12]);
    assert(before[marker + 1] == header[13]);
    assert(after[marker + 0] == 0);
    assert(after[marker + 1] == 0);
    assert(after.subrange(BPF_FLASH_OFFSET as int, image_base()) =~= header.update(12, 0).update(
        13,
        0,
    ));
    assert(after.subrange(image_base(), end) =~= image);
    if v.map_count > 0 {
        assert(descriptor_bytes(after, v.bytecode_len, v.map_count) =~= d);
        assert(image.skip(v.bytecode_len as int) =~= d);
    } else {
        assert(image.skip(v.bytecode_len as int) =~= d);
    }
    lemma_written_image_is_stored(v.bytecode_len, v.map_count, v.expected_crc, image, layouts);
    assert(w.layouts.take(w.committed_map_count as int) =~= layouts);
}

/// The flash write discipline of a transfer: Begin erases the pages of the
/// image once and writes the header at their start; each Data fragment then
/// programs only still-erased bytes, at the next image offset in ascending,
/// two-byte-aligned order, and touches no other byte. So after every
/// successful step flash holds exactly what the transfer has received.
pub proof fn law_flash_write_discipline(
    v: LoaderView,
    w: LoaderView,
    before: Seq<u8>,
    after: Seq<u8>,
)
    requires
        v.wf(),
        execute_flash(v, w, before, after, true),
        v.pending matches Some(op) && (op is Begin || (op is Data && image_flash(v, before))),
    ensures
        image_flash(w, after),
        v.pending matches Some(LoadOperation::Begin { bytecode_len, map_count, .. }) ==> {
            &&& erase_end(bytecode_len, map_count) >= image_base() + image_length(
                bytecode_len,
                map_count,
            )
            &&& unchanged_outside(
                before,
                after,
                BPF_FLASH_OFFSET as int,
                erase_end(bytecode_len, map_count),
            )
        },
        v.pending matches Some(LoadOperation::Data { offset, len, .. }) ==> {
            &&& offset == v.next_offset
            &&& (image_base() + offset) % 2 == 0
            &&& erased(before, image_base() + offset, image_base() + offset + len)
            &&& unchanged_outside(before, after, image_base() + offset, image_base() + offset + len)
        },
{
    match v.pending {
        Some(LoadOperation::Begin { bytecode_len, map_count, expected_crc }) => {
            let il = image_length(bytecode_len, map_count);
            let pages = (BPF_HEADER_SIZE + il + 4095) / 4096;
            assert(4096 * pages >= BPF_HEADER_SIZE + il);
            assert(after.subrange(image_base(), image_base()) =~= Seq::<u8>::empty());
        },
        Some(LoadOperation::Data { offset, bytes, len }) => {
            let at = image_base() + offset;
            let data = bytes@.take(len as int);
            let old_part = before.subrange(image_base(), image_base() + v.next_offset);
            assert(after.subrange(BPF_FLASH_OFFSET as int, image_base()) =~= before.subrange(
                BPF_FLASH_OFFSET as int,
                image_base(),
            ));
            assert forall|i: int| 0 <= i < len implies #[trigger] after[at + i] == data[i] by {
                assert(before[at + i] == 0xff);
            }
            let joined = old_part + data;
            assert forall|j: int| 0 <= j < v.next_offset + len implies after[image_base() + j]
                == joined[j] by {
                if j < v.next_offset {
                    assert(after[image_base() + j] == before[image_base() + j]);
                } else {
                    assert(after[at + (j - v.next_offset)] == data[j - v.next_offset]);
                }
            }
            assert(after.subrange(image_base(), image_base() + v.next_offset + len) =~= joined);
            law_crc_absorb_concat(0xffff_ffffu32, old_part, data);
        },
        _ => {},
    }
}

/// A Begin carried out with no failed flash call erases exactly the pages
/// the declared image needs and writes its header at their start (commit
/// marker still erased); the loader drops earlier map layouts, reports no
/// program, and expects the image from offset zero.
pub proof fn law_begin_starts_transfer(
    v: LoaderView,
    w: LoaderView,
    before: Seq<u8>,
    after: Seq<u8>,
    bytecode_len: u16,
    map_count: u8,
    expected_crc: u32,
)
    requires
        v.wf(),
        v.pending == Some(LoadOperation::Begin { bytecode_len, map_count, expected_crc }),
        execute_flash(v, w, before, after, true),
    ensures
        begun_flash(before, after, bytecode_len, map_count, expected_crc),
        after.subrange(marker_offset(), marker_offset() + 2) == seq![0xffu8, 0xffu8],
        w.state == LoaderState::Receiving,
        w.pending is None,
        w.committed_map_count == 0,
        w.next_offset == 0,
        w.image_len == image_length(bytecode_len, map_count),
        query_result(w) == Err::<u32, u8>(STATUS_NO_PROGRAM),
        image_flash(w, after),
{
    law_flash_write_discipline(v, w, before, after);
    let header = begin_header(bytecode_len, map_count, expected_crc);
    assert(after.subrange(marker_offset(), marker_offset() + 2) =~= header.subrange(12, 14));
}

/// A Finalize carried out with no failed flash call, on flash that holds what
/// the transfer wrote: a CRC mismatch answers `STATUS_BAD_CRC`, refused
/// descriptors `STATUS_BAD_STATE`, and both leave flash as it was; otherwise
/// the commit marker, and nothing else, is programmed to zero and the query
/// reports the expected CRC. With a failed call the query reports
/// `STATUS_FLASH_ERROR` and at most the marker has changed.
pub proof fn law_finalize_commits_valid_image(
    v: LoaderView,
    w: LoaderView,
    before: Seq<u8>,
    after: Seq<u8>,
    clean: bool,
)
    requires
        v.wf(),
        v.pending == Some(LoadOperation::Finalize),
        image_flash(v, before),
        execute_flash(v, w, before, after, clean),
    ensures
        !clean ==> query_result(w) == Err::<u32, u8>(STATUS_FLASH_ERROR) && unchanged_outside(
            before,
            after,
            marker_offset(),
            marker_offset() + 2,
        ),
        clean ==> {
            let valid = layouts_of(descriptor_bytes(before, v.bytecode_len, v.map_count), v.map_count)
                is Some;
            &&& crc32_spec(before.subrange(image_base(), image_base() + v.image_len))
                != v.expected_crc ==> query_result(w) == Err::<u32, u8>(STATUS_BAD_CRC)
                && after == before
            &&& crc32_spec(before.subrange(image_base(), image_base() + v.image_len))
                == v.expected_crc && !valid ==> query_result(w) == Err::<u32, u8>(
                STATUS_BAD_STATE,
            ) && after == before
            &&& crc32_spec(before.subrange(image_base(), image_base() + v.image_len))
                == v.expected_crc && valid ==> {
                &&& query_result(w) == Ok::<u32, u8>(v.expected_crc)
                &&& unchanged_outside(before, after, marker_offset(), marker_offset() + 2)
                &&& after.subrange(marker_offset(), marker_offset() + 2) == seq![0u8, 0u8]
            }
        },
{
    let header = begin_header(v.bytecode_len, v.map_count, v.expected_crc);
    let marker = marker_offset();
    assert(before[marker] == header[12]);
    assert(before[marker + 1] == header[13]);
    if clean && w.state is Committed {
        assert(after[marker + 0] == 0);
        assert(after[marker + 1] == 0);
        assert(after.subrange(marker, marker + 2) =~= seq![0u8, 0u8]);
    }
}

} // verus!

