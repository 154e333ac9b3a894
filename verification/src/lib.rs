//! Shared frame protocol, BPF image loader and array-map helpers of the
//! OptiBridge I2C-to-optical bridge.
//!
//! - `frame`: request parsing, response encoding and receive captures.
//! - `status`: the single-entry status queue.
//! - `loader`: staging a BPF image into reserved flash and validating it.
//! - `dispatch`: answering requests, with and without the loader, and the
//!   decisions of the USB-to-I2C bridge.
//! - `map_helpers`: array-map entry access used by the BPF helpers.
//! - `size`: the flash-size check of the firmware images.
//! - `crc` and `bytes`: CRC-32/ISO-HDLC and little-endian fields.

use vstd::prelude::*;

mod bytes;
mod crc;
mod dispatch;
mod frame;
mod loader;
mod map_helpers;
mod size;
mod status;

pub use bytes::{law_le16_value, law_le32_bytes_value, law_le32_round_trip, le16, le32, le32_bytes};
pub use crc::{
    crc32_iso_hdlc, crc32_spec, crc_absorb, crc_byte, crc_shift, crc_shifts,
    byte_contribution, law_crc_absorb_concat, law_crc_byte_is_table_step, law_crc_check_values,
};
pub use dispatch::{
    BridgeAction, PacketOutcome, bpf_backing_after, bpf_loader_after, bpf_reply, bpf_starts,
    decoded, dispatch, dispatch_packet, dispatch_packet_with_bpf, dispatch_reply,
    dispatch_with_bpf, encode_i2c_result, i2c_request_verdict, law_parsed_request_is_decoded,
    law_bridge_requests_accepted, law_query_reply, law_read_map_refusals, law_read_map_reply,
    law_write_map_refusals, law_write_map_reply,
    law_status_read_once,
    map_write_request, map_write_verdict, plan_i2c_request, pops_status, reply_frame,
    respond_start, responded, validate_i2c_request, wrote_frame,
};
pub use frame::{
    ParseError, ParseStep, Parser, Request, carries, concat_frames, encode_response, frame_bytes,
    is_frame, is_partial_frame, law_capture_is_frames, law_decoding_is_unique,
    law_empty_parser_waits_for_magic, law_frame_fields_round_trip, law_frame_pushes_complete,
    law_last_frame_wins, law_oversized_frames_refused, law_partial_frames_stay_bounded, law_single_frame_parses, packet_frame,
    parse_packet, parse_step, request_payload, scan,
};
pub use loader::{
    BpfFlash, BpfLoader, FailureCount, FlashContents, LoadOperation, LoaderState, LoaderView,
    MapLayout, begin_header, begun_flash, descriptor_base, descriptor_bytes, descriptor_gives,
    descriptor_layout, descriptor_map_layout, descriptors_give, descriptors_layouts, empty_layout,
    erase_end, erased, execute_flash, execute_outcome, finalize_flash, finalize_outcome,
    flash_header, flash_image, header_committed, header_fields, image_base, image_bounds_ok,
    image_flash, image_length, in_image_pages, initial_loader, law_begin_starts_transfer,
    law_busy_while_pending, law_commit_requires_complete_image,
    law_committed_header_describes_image, law_committed_image_survives_reset,
    law_descriptor_acceptance, law_image_bounds, law_running_refuses_loads,
    law_malformed_loads_refused, law_start_runs_committed_image, law_well_formed_loads_accepted,
    law_failure_kept_until_begin, law_finalize_commits_valid_image, law_flash_write_discipline,
    law_layouts_consecutive, law_layouts_follow_descriptors, layouts_of, load_operation_of,
    load_verdict, map_read_range, map_write_range, marker_offset, parse_image_header, programmed,
    query_result, start_result, start_verdict, stored_image, unchanged_outside, validate_outcome,
};
pub use map_helpers::{
    BpfMapMetadata, HELPER_ERROR, entry_range, law_lookup_after_update,
    law_update_leaves_other_entries, lookup, splice, store_range, update, value_range,
};
pub use size::{
    FirmwareImage, all_digits, check_image_size, decimal, digits_value, flash_limit, law_image_limits,
    image_flash_limit, is_space, law_decimal_round_trip, law_size_report_fields, to_decimal, next_line_feed, next_with, parse_decimal, row_fields,
    size_fields, size_report, size_row,
};
pub use status::{StatusQueue, ready_message};

verus! {

/// First byte of every request and response frame.
pub const MAGIC: u8 = 0xa5;
/// Bytes before the payload: magic, command or status, length, sequence, flags.
pub const HEADER_LEN: usize = 5;
/// Largest payload a frame may carry.
pub const MAX_PAYLOAD: usize = 16;
/// Largest frame: header plus the largest payload.
pub const MAX_FRAME: usize = HEADER_LEN + MAX_PAYLOAD;

pub const CMD_RESET: u8 = 0x01;
pub const CMD_LOAD_BPF: u8 = 0x02;
pub const CMD_START_BPF: u8 = 0x03;
pub const CMD_READ_BPF_MAP: u8 = 0x04;
pub const CMD_WRITE_BPF_MAP: u8 = 0x05;
pub const CMD_READ_STATUS: u8 = 0x06;
pub const CMD_QUERY_BPF_CRC: u8 = 0x07;
pub const CMD_I2C_WRITE: u8 = 0x10;
pub const CMD_I2C_READ: u8 = 0x11;

pub const STATUS_OK: u8 = 0x00;
pub const STATUS_BAD_COMMAND: u8 = 0x01;
pub const STATUS_BAD_LENGTH: u8 = 0x02;
pub const STATUS_BAD_FLAGS: u8 = 0x03;
pub const STATUS_NOT_IMPLEMENTED: u8 = 0x04;
pub const STATUS_BUSY: u8 = 0x05;
pub const STATUS_BAD_STATE: u8 = 0x06;
pub const STATUS_BAD_CRC: u8 = 0x07;
pub const STATUS_FLASH_ERROR: u8 = 0x08;
pub const STATUS_NO_PROGRAM: u8 = 0x09;

/// Flash offset of the reserved BPF image pages.
pub const BPF_FLASH_OFFSET: u32 = 0x6000;
/// Size of the reserved BPF image region (two 4 KiB pages).
pub const BPF_FLASH_SIZE: usize = 8192;
/// Size of the image header that precedes bytecode and map descriptors.
pub const BPF_HEADER_SIZE: usize = 16;
/// Largest bytecode accepted (960 instructions).
pub const BPF_MAX_BYTECODE: usize = 7680;
/// Largest number of map descriptors in an image.
pub const BPF_MAX_MAPS: usize = 8;
/// Size of one little-endian map descriptor.
pub const BPF_MAP_DESCRIPTOR_SIZE: usize = 16;
/// Size of the volatile map backing store.
pub const BPF_MAX_MAP_BYTES: usize = 1024;

} // verus!
