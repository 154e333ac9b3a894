# optibridge-protocol

The shared, allocation-free protocol library of OptiBridge, a programmable
I2C-to-optical bridge, written and proved with Verus.

- `src/frame.rs`: the binary frame (magic, command or status, payload length,
  sequence, flags, payload), the incremental parser, response encoding and
  packet-scoped parsing of I2C receive captures.
- `src/status.rs`: the single-entry status queue, initially `ready`.
- `src/loader.rs`: the BPF image loader that stages an image into the two
  reserved flash pages through the user's `BpfFlash`, validates it and keeps
  the committed map layouts. `BpfFlash` carries a model of the storage (its
  bytes as NOR flash, and a count of failed calls), so the loader's contracts
  say exactly what it erases, programs and reads, and what it decides when no
  call failed.
- `src/dispatch.rs`: answering requests with and without the loader (Load,
  Start, Read and Write BPF map, Query BPF CRC), and the request decisions of
  the USB-to-I2C bridge image. A valid Start BPF is handed to the caller,
  which runs the image and answers with `respond_start`.
- `src/map_helpers.rs`: array-map entry lookup and update.
- `src/size.rs`: the flash-size check of the two firmware images (24 KiB for
  OptiBridge, which keeps 8 KiB for the BPF image, and 32 KiB for the
  bridge), reading text and data from an `llvm-size` report.
- `src/crc.rs`, `src/bytes.rs`: CRC-32/ISO-HDLC and little-endian fields.

Each public function states its result in `ensures`; the `law_*` proof
functions state properties that span calls (frames parse back to what was
encoded, only the last frame of a capture is dispatched, a committed image
survives a reset, updated map entries read back, and so on).

`app/` holds the two firmware images around the library: the OptiBridge I2C
slave (`main.rs`) and the USB CDC to I2C bridge (`bridge.rs`, the entry point
when built with `--cfg bridge_image`). They need the generated CH32V203G6U6
HAL and the `sonde-bpf` interpreter. `app/size_report.rs` is the host-side
size step that runs `llvm-size` and applies the library's check; it is built
only with `--cfg size_report`.
