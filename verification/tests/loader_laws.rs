use optibridge_protocol::{
    FailureCount, FlashContents,
    BPF_FLASH_OFFSET, BPF_MAX_MAP_BYTES, BpfFlash, BpfLoader, CMD_LOAD_BPF, CMD_QUERY_BPF_CRC,
    CMD_WRITE_BPF_MAP, STATUS_BAD_CRC, STATUS_BAD_FLAGS, dispatch_with_bpf, CMD_START_BPF,
    respond_start, BpfMapMetadata,
    MAGIC, MAX_FRAME, MapLayout, PacketOutcome, Request, STATUS_BAD_COMMAND, STATUS_BAD_LENGTH,
    STATUS_BAD_STATE, STATUS_BUSY, STATUS_FLASH_ERROR, STATUS_NO_PROGRAM, STATUS_OK, StatusQueue,
    descriptor_map_layout, crc32_iso_hdlc, dispatch_packet_with_bpf, parse_image_header,
};

struct TestFlash {
    bytes: [u8; 32768],
    fail_read: bool,
    fail_write: bool,
    reads_left: usize,
}

impl TestFlash {
    fn new() -> Self {
        Self { bytes: [0xff; 32768], fail_read: false, fail_write: false, reads_left: usize::MAX }
    }
}

impl BpfFlash for TestFlash {
    // The storage model is used only in proofs; it is never called.
    fn contents(&self) -> FlashContents {
        unreachable!()
    }

    fn failures(&self) -> FailureCount {
        unreachable!()
    }

    fn read(&mut self, offset: u32, bytes: &mut [u8]) -> Result<(), ()> {
        if self.fail_read || self.reads_left == 0 {
            return Err(());
        }
        self.reads_left -= 1;
        let offset = offset as usize;
        bytes.copy_from_slice(&self.bytes[offset..offset + bytes.len()]);
        Ok(())
    }

    fn write(&mut self, offset: u32, bytes: &[u8]) -> Result<(), ()> {
        if self.fail_write {
            return Err(());
        }
        let offset = offset as usize;
        for (target, source) in self.bytes[offset..offset + bytes.len()].iter_mut().zip(bytes) {
            *target &= *source;
        }
        Ok(())
    }

    fn erase(&mut self, from: u32, to: u32) -> Result<(), ()> {
        self.bytes[from as usize..to as usize].fill(0xff);
        Ok(())
    }
}

fn load(payload: &[u8]) -> Request {
    let mut request = Request::empty();
    request.command = CMD_LOAD_BPF;
    request.payload_len = payload.len() as u8;
    request.payload[..payload.len()].copy_from_slice(payload);
    request
}

fn descriptor(map_type: u32, key: u32, value: u32, entries: u32) -> [u8; 16] {
    let mut bytes = [0; 16];
    bytes[..4].copy_from_slice(&map_type.to_le_bytes());
    bytes[4..8].copy_from_slice(&key.to_le_bytes());
    bytes[8..12].copy_from_slice(&value.to_le_bytes());
    bytes[12..].copy_from_slice(&entries.to_le_bytes());
    bytes
}

fn load_image(loader: &mut BpfLoader, flash: &mut TestFlash, bytecode_len: u16, image: &[u8]) {
    let map_count = ((image.len() - bytecode_len as usize) / 16) as u8;
    let crc = crc32_iso_hdlc(image);
    let mut begin = [0; 8];
    begin[1..3].copy_from_slice(&bytecode_len.to_le_bytes());
    begin[3] = map_count;
    begin[4..].copy_from_slice(&crc.to_le_bytes());
    assert_eq!(loader.accepts_load(&load(&begin)), Ok(()));
    loader.execute_pending(flash);
    for (index, data) in image.chunks(12).enumerate() {
        let mut payload = [0; 15];
        payload[0] = 1;
        payload[1..3].copy_from_slice(&((index * 12) as u16).to_le_bytes());
        payload[3..3 + data.len()].copy_from_slice(data);
        assert_eq!(loader.accepts_load(&load(&payload[..3 + data.len()])), Ok(()));
        loader.execute_pending(flash);
    }
    assert_eq!(loader.accepts_load(&load(&[2])), Ok(()));
    loader.execute_pending(flash);
}

#[test]
fn fragmented_image_commits_with_the_crc_of_the_whole() {
    let mut image = [0u8; 40];
    for (index, byte) in image[..8].iter_mut().enumerate() {
        *byte = index as u8 * 3;
    }
    image[8..24].copy_from_slice(&descriptor(1, 4, 4, 2));
    image[24..].copy_from_slice(&descriptor(1, 4, 8, 1));
    let mut loader = BpfLoader::new();
    let mut flash = TestFlash::new();
    load_image(&mut loader, &mut flash, 8, &image);
    assert_eq!(loader.query(), Ok(crc32_iso_hdlc(&image)));
    let header: [u8; 16] = flash.bytes[0x6000..0x6010].try_into().unwrap();
    assert_eq!(parse_image_header(&header), Some((8, 2, crc32_iso_hdlc(&image))));
    assert_eq!(&flash.bytes[0x6010..0x6010 + 40], &image);
}

#[test]
fn committed_maps_are_consecutive_in_the_backing_store() {
    let mut image = [0u8; 40];
    image[8..24].copy_from_slice(&descriptor(1, 4, 4, 2));
    image[24..].copy_from_slice(&descriptor(1, 4, 8, 1));
    let mut loader = BpfLoader::new();
    let mut flash = TestFlash::new();
    load_image(&mut loader, &mut flash, 8, &image);
    let mut backing = [0; BPF_MAX_MAP_BYTES];
    for (index, byte) in backing.iter_mut().enumerate() {
        *byte = index as u8;
    }
    assert_eq!(loader.read_map(0, 0, 8, &backing), Ok(&backing[0..8]));
    assert_eq!(loader.read_map(1, 0, 8, &backing), Ok(&backing[8..16]));
    assert_eq!(loader.read_map(1, 1, 8, &backing), Err(STATUS_BAD_LENGTH));
    assert_eq!(loader.read_map(2, 0, 1, &backing), Err(STATUS_BAD_COMMAND));
    assert_eq!(loader.read_map(8, 0, 1, &backing), Err(STATUS_BAD_COMMAND));
}

#[test]
fn busy_loader_refuses_loads_and_queries() {
    let mut loader = BpfLoader::default();
    let begin = [0, 8, 0, 0, 0, 0, 0, 0];
    assert!(!loader.has_pending());
    assert_eq!(loader.accepts_load(&load(&begin)), Ok(()));
    assert!(loader.has_pending());
    assert_eq!(loader.query(), Err(STATUS_BUSY));
    assert_eq!(loader.accepts_load(&load(&[2])), Err(STATUS_BUSY));
    assert_eq!(loader.accepts_load(&load(&[9])), Err(STATUS_BUSY));
    let mut flash = TestFlash::new();
    loader.execute_pending(&mut flash);
    assert!(!loader.has_pending());
    assert_eq!(loader.query(), Err(STATUS_NO_PROGRAM));
}

#[test]
fn flash_failure_is_kept_until_the_next_begin() {
    let mut loader = BpfLoader::new();
    let mut flash = TestFlash::new();
    let begin = [0, 8, 0, 0, 0, 0, 0, 0];
    assert_eq!(loader.accepts_load(&load(&begin)), Ok(()));
    loader.execute_pending(&mut flash);
    flash.fail_write = true;
    assert_eq!(loader.accepts_load(&load(&[1, 0, 0, 1, 2])), Ok(()));
    loader.execute_pending(&mut flash);
    assert_eq!(loader.query(), Err(STATUS_FLASH_ERROR));
    assert_eq!(loader.accepts_load(&load(&[1, 2, 0, 1, 2])), Err(STATUS_BAD_STATE));
    assert_eq!(loader.accepts_load(&load(&[2])), Err(STATUS_BAD_STATE));
    assert_eq!(loader.query(), Err(STATUS_FLASH_ERROR));
    flash.fail_write = false;
    assert_eq!(loader.accepts_load(&load(&begin)), Ok(()));
    loader.execute_pending(&mut flash);
    assert_eq!(loader.query(), Err(STATUS_NO_PROGRAM));
}

#[test]
fn load_payload_shapes_are_validated() {
    let mut loader = BpfLoader::new();
    assert_eq!(loader.accepts_load(&load(&[])), Err(STATUS_BAD_COMMAND));
    assert_eq!(loader.accepts_load(&load(&[3])), Err(STATUS_BAD_COMMAND));
    assert_eq!(loader.accepts_load(&load(&[0, 8, 0])), Err(STATUS_BAD_LENGTH));
    assert_eq!(loader.accepts_load(&load(&[1, 0, 0, 1])), Err(STATUS_BAD_LENGTH));
    assert_eq!(loader.accepts_load(&load(&[1, 0, 0, 1, 2, 3])), Err(STATUS_BAD_LENGTH));
    assert_eq!(loader.accepts_load(&load(&[2, 0])), Err(STATUS_BAD_LENGTH));
    assert_eq!(loader.accepts_load(&load(&[0, 0, 0, 0, 0, 0, 0, 0])), Err(STATUS_BAD_LENGTH));
    assert_eq!(loader.accepts_load(&load(&[0, 0x08, 0x1e, 0, 0, 0, 0, 0])), Err(STATUS_BAD_LENGTH));
    assert_eq!(loader.accepts_load(&load(&[0, 8, 0, 9, 0, 0, 0, 0])), Err(STATUS_BAD_LENGTH));
    assert_eq!(loader.accepts_load(&load(&[0, 0x00, 0x1e, 8, 0, 0, 0, 0])), Ok(()));
}

#[test]
fn data_past_the_declared_image_is_refused() {
    let mut loader = BpfLoader::new();
    let mut flash = TestFlash::new();
    assert_eq!(loader.accepts_load(&load(&[0, 8, 0, 0, 0, 0, 0, 0])), Ok(()));
    loader.execute_pending(&mut flash);
    assert_eq!(
        loader.accepts_load(&load(&[1, 0, 0, 1, 2, 3, 4, 5, 6, 7, 8, 9, 10])),
        Err(STATUS_BAD_LENGTH)
    );
    assert_eq!(loader.accepts_load(&load(&[1, 0, 0, 1, 2, 3, 4, 5, 6, 7, 8])), Ok(()));
}

#[test]
fn validation_rejects_erased_corrupt_and_unreadable_images() {
    let mut image = [0u8; 24];
    image[8..].copy_from_slice(&descriptor(1, 4, 4, 1));
    let mut loader = BpfLoader::new();
    let mut flash = TestFlash::new();
    let mut fresh = BpfLoader::new();
    fresh.validate_committed(&mut flash);
    assert_eq!(fresh.query(), Err(STATUS_NO_PROGRAM));
    load_image(&mut loader, &mut flash, 8, &image);
    let crc = crc32_iso_hdlc(&image);
    assert_eq!(loader.query(), Ok(crc));

    let mut rebooted = BpfLoader::new();
    rebooted.validate_committed(&mut flash);
    assert_eq!(rebooted.query(), Ok(crc));

    flash.fail_read = true;
    let mut unreadable = BpfLoader::new();
    unreadable.validate_committed(&mut flash);
    assert_eq!(unreadable.query(), Err(STATUS_FLASH_ERROR));
    flash.fail_read = false;

    flash.bytes[0x6010] ^= 1;
    let mut corrupt = BpfLoader::new();
    corrupt.validate_committed(&mut flash);
    assert_eq!(corrupt.query(), Err(STATUS_NO_PROGRAM));
}

#[test]
fn header_and_descriptor_validation() {
    let mut header = [0xff; 16];
    header[..4].copy_from_slice(b"OBPF");
    header[4] = 1;
    header[5] = 1;
    header[6..8].copy_from_slice(&16u16.to_le_bytes());
    header[8..12].copy_from_slice(&0x1234_5678u32.to_le_bytes());
    assert_eq!(parse_image_header(&header), None);
    header[12] = 0;
    header[13] = 0;
    assert_eq!(parse_image_header(&header), Some((16, 1, 0x1234_5678)));
    header[6] = 12;
    assert_eq!(parse_image_header(&header), None);

    assert_eq!(
        descriptor_map_layout(&descriptor(1, 4, 4, 2), 16),
        Some(MapLayout { offset: 16, len: 8, value_size: 4 })
    );
    assert_eq!(descriptor_map_layout(&descriptor(2, 4, 4, 2), 0), None);
    assert_eq!(descriptor_map_layout(&descriptor(1, 8, 4, 2), 0), None);
    assert_eq!(descriptor_map_layout(&descriptor(1, 4, 0, 2), 0), None);
    assert_eq!(descriptor_map_layout(&descriptor(1, 4, 4, 0), 0), None);
    assert_eq!(descriptor_map_layout(&descriptor(1, 4, 512, 2), 1), None);
    assert_eq!(descriptor_map_layout(&descriptor(1, 4, 512, 2), 0), Some(MapLayout { offset: 0, len: 1024, value_size: 512 }));
    assert_eq!(descriptor_map_layout(&descriptor(1, 4, u32::MAX, 2), 0), None);
}

#[test]
fn query_response_carries_crc_little_endian() {
    let mut image = [0u8; 8];
    image[0] = 0x95;
    let mut loader = BpfLoader::new();
    let mut flash = TestFlash::new();
    load_image(&mut loader, &mut flash, 8, &image);
    let crc = crc32_iso_hdlc(&image);
    let mut status_queue = StatusQueue::ready();
    let mut backing = [0; BPF_MAX_MAP_BYTES];
    let mut output = [0; MAX_FRAME];
    let outcome = dispatch_packet_with_bpf(
        &[MAGIC, CMD_QUERY_BPF_CRC, 0, 5, 0],
        false,
        &mut status_queue,
        &mut loader,
        &mut backing,
        &mut output,
    );
    assert_eq!(outcome, PacketOutcome::Response(9));
    let bytes = crc.to_le_bytes();
    assert_eq!(&output[..9], &[MAGIC, STATUS_OK, 4, 5, 0, bytes[0], bytes[1], bytes[2], bytes[3]]);
    assert_eq!(BPF_FLASH_OFFSET, 0x6000);
}

fn write_map_request(location: u16, bytes: &[u8]) -> Request {
    let mut request = Request::empty();
    request.command = CMD_WRITE_BPF_MAP;
    request.sequence = 1;
    request.payload_len = (2 + bytes.len()) as u8;
    request.payload[..2].copy_from_slice(&location.to_le_bytes());
    request.payload[2..2 + bytes.len()].copy_from_slice(bytes);
    request
}

fn write_map(loader: &mut BpfLoader, backing: &mut [u8; BPF_MAX_MAP_BYTES], request: &Request) -> [u8; 5] {
    let mut status_queue = StatusQueue::ready();
    let mut output = [0; MAX_FRAME];
    let outcome = dispatch_with_bpf(request, &mut status_queue, loader, backing, &mut output);
    assert_eq!(outcome, PacketOutcome::Response(5));
    output[..5].try_into().unwrap()
}

#[test]
fn write_map_without_image_answers_no_program() {
    let mut loader = BpfLoader::new();
    let mut backing = [0; BPF_MAX_MAP_BYTES];
    let reply = write_map(&mut loader, &mut backing, &write_map_request(0, &[0x2a]));
    assert_eq!(reply, [MAGIC, STATUS_NO_PROGRAM, 0, 1, 0]);
    assert_eq!(backing, [0; BPF_MAX_MAP_BYTES]);
}

#[test]
fn write_map_replaces_exactly_the_selected_range() {
    let mut image = [0u8; 40];
    image[8..24].copy_from_slice(&descriptor(1, 4, 4, 2));
    image[24..].copy_from_slice(&descriptor(1, 4, 8, 1));
    let mut loader = BpfLoader::new();
    let mut flash = TestFlash::new();
    load_image(&mut loader, &mut flash, 8, &image);
    let mut backing = [0; BPF_MAX_MAP_BYTES];
    // map 1 (bits 10..12), offset 2: backing bytes 10 and 11
    let reply = write_map(&mut loader, &mut backing, &write_map_request((1 << 10) | 2, &[7, 9]));
    assert_eq!(reply, [MAGIC, STATUS_OK, 0, 1, 0]);
    let mut expected = [0; BPF_MAX_MAP_BYTES];
    expected[10] = 7;
    expected[11] = 9;
    assert_eq!(backing, expected);
    assert_eq!(loader.read_map(1, 2, 2, &backing), Ok(&[7u8, 9][..]));
}

#[test]
fn write_map_refusals_leave_backing_unchanged() {
    let mut image = [0u8; 40];
    image[8..24].copy_from_slice(&descriptor(1, 4, 4, 2));
    image[24..].copy_from_slice(&descriptor(1, 4, 8, 1));
    let mut loader = BpfLoader::new();
    let mut flash = TestFlash::new();
    load_image(&mut loader, &mut flash, 8, &image);
    let mut backing = [0; BPF_MAX_MAP_BYTES];
    // no replacement byte
    let short = write_map_request(0, &[]);
    assert_eq!(write_map(&mut loader, &mut backing, &short), [MAGIC, STATUS_BAD_LENGTH, 0, 1, 0]);
    // reserved location bits
    let reserved = write_map_request(0x2000, &[1]);
    assert_eq!(write_map(&mut loader, &mut backing, &reserved), [MAGIC, STATUS_BAD_LENGTH, 0, 1, 0]);
    // map 2 does not exist
    let unknown = write_map_request(2 << 10, &[1]);
    assert_eq!(write_map(&mut loader, &mut backing, &unknown), [MAGIC, STATUS_BAD_COMMAND, 0, 1, 0]);
    // past the end of map 0 (8 bytes)
    let outside = write_map_request(7, &[1, 2]);
    assert_eq!(write_map(&mut loader, &mut backing, &outside), [MAGIC, STATUS_BAD_LENGTH, 0, 1, 0]);
    let mut flagged = write_map_request(0, &[1]);
    flagged.flags = 1;
    assert_eq!(write_map(&mut loader, &mut backing, &flagged), [MAGIC, STATUS_BAD_FLAGS, 0, 1, 0]);
    assert_eq!(backing, [0; BPF_MAX_MAP_BYTES]);
}

#[test]
fn begin_erases_the_image_pages_and_writes_the_header() {
    let mut loader = BpfLoader::new();
    let mut flash = TestFlash::new();
    flash.bytes[0x6000..0x8000].fill(0);
    flash.bytes[0x5fff] = 0x11;
    assert_eq!(loader.accepts_load(&load(&[0, 8, 0, 0, 4, 3, 2, 1])), Ok(()));
    loader.execute_pending(&mut flash);
    assert_eq!(
        &flash.bytes[0x6000..0x6010],
        &[0x4f, 0x42, 0x50, 0x46, 1, 0, 8, 0, 4, 3, 2, 1, 0xff, 0xff, 0xff, 0xff]
    );
    // one page holds the header and the eight bytecode bytes
    assert!(flash.bytes[0x6010..0x7000].iter().all(|byte| *byte == 0xff));
    assert!(flash.bytes[0x7000..0x8000].iter().all(|byte| *byte == 0));
    assert_eq!(flash.bytes[0x5fff], 0x11);
}

#[test]
fn data_is_programmed_after_the_header_at_its_offset() {
    let mut loader = BpfLoader::new();
    let mut flash = TestFlash::new();
    assert_eq!(loader.accepts_load(&load(&[0, 16, 0, 0, 0, 0, 0, 0])), Ok(()));
    loader.execute_pending(&mut flash);
    assert_eq!(loader.accepts_load(&load(&[1, 0, 0, 1, 2, 3, 4])), Ok(()));
    loader.execute_pending(&mut flash);
    assert_eq!(loader.accepts_load(&load(&[1, 4, 0, 5, 6])), Ok(()));
    loader.execute_pending(&mut flash);
    assert_eq!(&flash.bytes[0x6010..0x6016], &[1, 2, 3, 4, 5, 6]);
    assert!(flash.bytes[0x6016..0x6020].iter().all(|byte| *byte == 0xff));
    assert_eq!(&flash.bytes[0x6000..0x6004], &[0x4f, 0x42, 0x50, 0x46]);
}

#[test]
fn crc_mismatch_leaves_the_commit_marker_erased() {
    let mut loader = BpfLoader::new();
    let mut flash = TestFlash::new();
    assert_eq!(loader.accepts_load(&load(&[0, 8, 0, 0, 0, 0, 0, 0])), Ok(()));
    loader.execute_pending(&mut flash);
    assert_eq!(loader.accepts_load(&load(&[1, 0, 0, 0, 0, 0, 0, 0, 0, 0, 0])), Ok(()));
    loader.execute_pending(&mut flash);
    assert_eq!(loader.accepts_load(&load(&[2])), Ok(()));
    loader.execute_pending(&mut flash);
    assert_eq!(loader.query(), Err(STATUS_BAD_CRC));
    assert_eq!(&flash.bytes[0x600c..0x600e], &[0xff, 0xff]);
    let mut revalidated = BpfLoader::new();
    revalidated.validate_committed(&mut flash);
    assert_eq!(revalidated.query(), Err(STATUS_NO_PROGRAM));
}

#[test]
fn committed_image_survives_a_reset() {
    let mut image = [0u8; 24];
    image[0] = 0x95;
    image[8..24].copy_from_slice(&descriptor(1, 4, 4, 2));
    let mut loader = BpfLoader::new();
    let mut flash = TestFlash::new();
    load_image(&mut loader, &mut flash, 8, &image);
    let crc = crc32_iso_hdlc(&image);
    assert_eq!(loader.query(), Ok(crc));
    assert_eq!(&flash.bytes[0x600c..0x600e], &[0, 0]);
    let before = flash.bytes;
    let mut restarted = BpfLoader::new();
    restarted.validate_committed(&mut flash);
    assert_eq!(restarted.query(), Ok(crc));
    assert_eq!(flash.bytes, before);
    let backing = [5u8; BPF_MAX_MAP_BYTES];
    assert_eq!(restarted.read_map(0, 0, 8, &backing), Ok(&backing[0..8]));
}

fn start(loader: &mut BpfLoader, payload_len: u8) -> PacketOutcome {
    let mut request = Request::empty();
    request.command = CMD_START_BPF;
    request.sequence = 6;
    request.payload_len = payload_len;
    let mut status_queue = StatusQueue::ready();
    let mut backing = [0; BPF_MAX_MAP_BYTES];
    let mut output = [0; MAX_FRAME];
    let outcome = dispatch_with_bpf(&request, &mut status_queue, loader, &mut backing, &mut output);
    if let PacketOutcome::Response(length) = outcome {
        assert_eq!(length, 5);
        assert_eq!(&output[..3], &[MAGIC, output[1], 0]);
        return PacketOutcome::Response(output[1] as usize);
    }
    outcome
}

fn committed_loader() -> (BpfLoader, u32) {
    let mut image = [0u8; 24];
    image[0] = 0x95;
    image[8..24].copy_from_slice(&descriptor(1, 4, 4, 2));
    let mut loader = BpfLoader::new();
    let mut flash = TestFlash::new();
    load_image(&mut loader, &mut flash, 8, &image);
    (loader, crc32_iso_hdlc(&image))
}

#[test]
fn start_without_image_answers_no_program() {
    let mut loader = BpfLoader::new();
    assert_eq!(start(&mut loader, 0), PacketOutcome::Response(STATUS_NO_PROGRAM as usize));
    assert_eq!(start(&mut loader, 1), PacketOutcome::Response(STATUS_BAD_LENGTH as usize));
}

#[test]
fn successful_start_runs_once_then_refuses_start_and_load() {
    let (mut loader, crc) = committed_loader();
    assert_eq!(loader.committed_program(), Some((8, 1)));
    assert_eq!(
        loader.map_metadata(0),
        Some(BpfMapMetadata { backing_offset: 0, backing_len: 8, key_size: 4, value_size: 4 })
    );
    assert_eq!(loader.map_metadata(1), None);
    assert_eq!(start(&mut loader, 0), PacketOutcome::Start { sequence: 6 });
    let mut output = [0; MAX_FRAME];
    assert_eq!(respond_start(6, Some(0), &mut loader, &mut output), PacketOutcome::Response(5));
    assert_eq!(&output[..5], &[MAGIC, STATUS_OK, 0, 6, 0]);
    assert_eq!(start(&mut loader, 0), PacketOutcome::Response(STATUS_BAD_STATE as usize));
    assert_eq!(loader.accepts_load(&load(&[0, 8, 0, 0, 0, 0, 0, 0])), Err(STATUS_BAD_STATE));
    assert_eq!(loader.query(), Ok(crc));
}

#[test]
fn failed_start_answers_bad_command_and_does_not_run() {
    let (mut loader, _) = committed_loader();
    let mut output = [0; MAX_FRAME];
    assert_eq!(start(&mut loader, 0), PacketOutcome::Start { sequence: 6 });
    assert_eq!(respond_start(6, Some(1), &mut loader, &mut output), PacketOutcome::Response(5));
    assert_eq!(&output[..5], &[MAGIC, STATUS_BAD_COMMAND, 0, 6, 0]);
    assert_eq!(respond_start(6, None, &mut loader, &mut output), PacketOutcome::Response(5));
    assert_eq!(&output[..5], &[MAGIC, STATUS_BAD_COMMAND, 0, 6, 0]);
    assert_eq!(start(&mut loader, 0), PacketOutcome::Start { sequence: 6 });
}

#[test]
fn validation_keeps_the_program_length_of_the_committed_image() {
    let mut image = [0u8; 40];
    image[0] = 0x95;
    image[24..].copy_from_slice(&descriptor(1, 4, 4, 2));
    let mut loader = BpfLoader::new();
    let mut flash = TestFlash::new();
    load_image(&mut loader, &mut flash, 24, &image);
    assert_eq!(loader.committed_program(), Some((24, 1)));
    let mut restarted = BpfLoader::new();
    restarted.validate_committed(&mut flash);
    assert_eq!(restarted.query(), Ok(crc32_iso_hdlc(&image)));
    assert_eq!(restarted.committed_program(), Some((24, 1)));
    assert_eq!(
        restarted.map_metadata(0),
        Some(BpfMapMetadata { backing_offset: 0, backing_len: 8, key_size: 4, value_size: 4 })
    );
}

#[test]
fn failed_descriptor_reads_are_flash_errors() {
    let mut image = [0u8; 24];
    image[0] = 0x95;
    image[8..].copy_from_slice(&descriptor(1, 4, 4, 2));
    let mut loader = BpfLoader::new();
    let mut flash = TestFlash::new();
    load_image(&mut loader, &mut flash, 8, &image);
    // header, two image chunks, then the descriptor read fails
    flash.reads_left = 3;
    let mut restarted = BpfLoader::new();
    restarted.validate_committed(&mut flash);
    assert_eq!(restarted.query(), Err(STATUS_FLASH_ERROR));
    assert_eq!(restarted.committed_program(), None);

    flash.reads_left = usize::MAX;
    let mut fresh = BpfLoader::new();
    let mut other = TestFlash::new();
    let crc = crc32_iso_hdlc(&image);
    let mut begin = [0u8; 8];
    begin[1] = 8;
    begin[3] = 1;
    begin[4..].copy_from_slice(&crc.to_le_bytes());
    assert_eq!(fresh.accepts_load(&load(&begin)), Ok(()));
    fresh.execute_pending(&mut other);
    for (index, data) in image.chunks(12).enumerate() {
        let mut payload = [0; 15];
        payload[0] = 1;
        payload[1..3].copy_from_slice(&((index * 12) as u16).to_le_bytes());
        payload[3..3 + data.len()].copy_from_slice(data);
        assert_eq!(fresh.accepts_load(&load(&payload[..3 + data.len()])), Ok(()));
        fresh.execute_pending(&mut other);
    }
    other.reads_left = 0;
    assert_eq!(fresh.accepts_load(&load(&[2])), Ok(()));
    fresh.execute_pending(&mut other);
    assert_eq!(fresh.query(), Err(STATUS_FLASH_ERROR));
    assert_eq!(&other.bytes[0x600c..0x600e], &[0xff, 0xff]);
}
