use esp_loader::checksum::{hexify, md5_final, verify_digest};
use esp_loader::comm::{slip_receive_packet, build_request, execute, Command, compute_checksum};
use esp_loader::error::EspLoaderError;
use esp_loader::flash::{
    esp_loader_change_baudrate, esp_loader_flash_finish, esp_loader_flash_start,
    esp_loader_flash_verify, esp_loader_flash_write,
};
use esp_loader::loader::{
    detect_chip, esp_loader_connect, esp_loader_read_register, esp_loader_reset_target,
    flash_size_for_id, flash_size_for_jedec_id, spi_set_data_lengths_2, timeout_per_mb,
    ConnectArgs, DATE_REG_1, DATE_REG_2,
};
use esp_loader::port::{
    loader_port_debug_print,
    loader_port_delay_ms, loader_port_enter_bootloader, loader_port_remaining_time,
    loader_port_serial_read, loader_port_serial_write, loader_port_start_timer, Port,
};
use esp_loader::slip::slip_encode;

fn frame(raw: &[u8]) -> Vec<u8> {
    slip_encode(raw)
}

/// A reply frame to `op` carrying `value`, with status `status`.
fn reply(op: u8, value: u32, status: u8) -> Vec<u8> {
    let mut raw = vec![1u8, op, 2, 0];
    raw.extend_from_slice(&value.to_le_bytes());
    raw.push(status);
    raw.push(0);
    frame(&raw)
}

fn ok(op: u8) -> Vec<u8> {
    reply(op, 0, 0)
}

fn md5_reply(hex: &[u8]) -> Vec<u8> {
    let mut raw = vec![1u8, 0x13, 34, 0, 0, 0, 0, 0];
    raw.extend_from_slice(hex);
    raw.push(0);
    raw.push(0);
    frame(&raw)
}

fn port_with(frames: &[Vec<u8>]) -> Port {
    let mut rx = Vec::new();
    for f in frames {
        rx.extend_from_slice(f);
    }
    Port::new(rx)
}

fn round_trip(payload: &[u8]) {
    let mut port = Port::new(slip_encode(payload));
    let decoded = slip_receive_packet(&mut port, payload.len()).unwrap();
    assert_eq!(decoded, payload.to_vec());
    assert_eq!(port.rx_pos, port.rx.len());
}

#[test]
fn round_trip_plain_bytes() {
    round_trip(&[1, 2, 3, 4, 5]);
}

#[test]
fn round_trip_some_special_bytes() {
    round_trip(&[0x01, 0xC0, 0x02, 0xDB, 0x03, 0xDC, 0xDD]);
}

#[test]
fn round_trip_only_special_bytes() {
    round_trip(&[0xC0, 0xDB, 0xDB, 0xC0, 0xC0]);
}

#[test]
fn encode_escapes_exactly() {
    assert_eq!(slip_encode(&[0xC0, 0x11, 0xDB]), vec![0xC0, 0xDB, 0xDC, 0x11, 0xDB, 0xDD, 0xC0]);
    assert_eq!(slip_encode(&[]), vec![0xC0, 0xC0]);
}

fn decode_with_leading(n: usize) -> Result<Vec<u8>, EspLoaderError> {
    let payload = [0x10u8, 0xC0, 0x20];
    let mut rx = vec![0xC0u8; n - 1];
    rx.extend_from_slice(&slip_encode(&payload));
    let mut port = Port::new(rx);
    slip_receive_packet(&mut port, payload.len())
}

#[test]
fn leading_delimiters_are_skipped() {
    let one = decode_with_leading(1);
    assert_eq!(one, Ok(vec![0x10, 0xC0, 0x20]));
    assert_eq!(decode_with_leading(2), one);
    assert_eq!(decode_with_leading(3), one);
    assert_eq!(decode_with_leading(7), one);
}

#[test]
fn malformed_escape_is_invalid_response() {
    for b in [0x00u8, 0x01, 0xC0, 0xDB, 0xDE, 0xFF] {
        let mut port = Port::new(vec![0xC0, 0x05, 0xDB, b, 0x06, 0xC0]);
        assert_eq!(slip_receive_packet(&mut port, 3), Err(EspLoaderError::InvalidResponse));
    }
}

#[test]
fn missing_trailing_delimiter() {
    let mut port = Port::new(vec![0xC0, 0x05, 0x06, 0x07]);
    assert_eq!(slip_receive_packet(&mut port, 2), Err(EspLoaderError::InvalidResponse));
    let mut port = Port::new(vec![0xC0, 0x05, 0x06]);
    assert_eq!(slip_receive_packet(&mut port, 2), Err(EspLoaderError::Timeout));
}

#[test]
fn timeout_formula_values() {
    assert_eq!(timeout_per_mb(0, 3000), 3000);
    assert_eq!(timeout_per_mb(1024 * 1024 - 1, 3000), 3000);
    assert_eq!(timeout_per_mb(2 * 1024 * 1024, 3000), 6000);
    assert_eq!(timeout_per_mb(16 * 1024 * 1024, 800), 12800);
    assert_eq!(timeout_per_mb(u32::MAX, u32::MAX), u32::MAX);
}

#[test]
fn timeout_formula_is_monotone_with_floor() {
    let sizes = [0u32, 1, 1 << 20, (1 << 20) + 5, 3 << 20, 100 << 20, u32::MAX];
    for rate in [0u32, 1, 800, 3000, u32::MAX] {
        let mut last = 0;
        for s in sizes {
            let t = timeout_per_mb(s, rate);
            assert!(t >= 3000);
            assert!(t >= last);
            last = t;
        }
    }
}

#[test]
fn sync_on_silent_link_times_out_after_all_trials() {
    let mut port = Port::new(Vec::new());
    let args = ConnectArgs { sync_timeout: 50, trials: 3 };
    assert_eq!(esp_loader_connect(&mut port, &args), Err(EspLoaderError::Timeout));
    assert!(port.in_bootloader);
    let sync = frame(&build_request(&Command::Sync));
    // One delay after each of the first two attempts, none after the third.
    assert_eq!(port.delays, vec![(sync.len(), 100), (2 * sync.len(), 100)]);
    assert_eq!(port.tx.len(), 3 * sync.len());
    assert_eq!(port.tx, [sync.clone(), sync.clone(), sync].concat());
    assert_eq!(port.timer_ms, 50);
}

#[test]
fn connect_succeeds_after_a_timeout() {
    // A garbled reply is InvalidResponse: no retry.
    let mut port = port_with(&[reply(0x09, 0, 0)]);
    let args = ConnectArgs { sync_timeout: 50, trials: 3 };
    assert_eq!(esp_loader_connect(&mut port, &args), Err(EspLoaderError::InvalidResponse));
    assert!(port.delays.is_empty());

    let mut port = port_with(&[
        ok(0x08),
        reply(0x0A, DATE_REG_1, 0),
        reply(0x0A, DATE_REG_2, 0),
        ok(0x0D),
    ]);
    assert_eq!(esp_loader_connect(&mut port, &args), Ok(()));
    assert_eq!(port.rx_pos, port.rx.len());
    let expected = [
        frame(&build_request(&Command::Sync)),
        frame(&build_request(&Command::ReadReg { address: 0x1111 })),
        frame(&build_request(&Command::ReadReg { address: 0x2222 })),
        frame(&build_request(&Command::SpiAttach { config: 0 })),
    ]
    .concat();
    assert_eq!(port.tx, expected);

    // A wrong identity stops before attach.
    let mut port = port_with(&[ok(0x08), reply(0x0A, 0x1, 0), reply(0x0A, DATE_REG_2, 0), ok(0x0D)]);
    assert_eq!(esp_loader_connect(&mut port, &args), Err(EspLoaderError::InvalidTarget));
    let attach = frame(&build_request(&Command::SpiAttach { config: 0 }));
    assert!(!port.tx.ends_with(&attach));
}

#[test]
fn wrong_identity_is_invalid_target() {
    let mut port = port_with(&[reply(0x0A, DATE_REG_1, 0), reply(0x0A, 0x1234, 0)]);
    assert_eq!(detect_chip(&mut port), Err(EspLoaderError::InvalidTarget));
    let mut port = port_with(&[reply(0x0A, DATE_REG_1, 0), reply(0x0A, DATE_REG_2, 0)]);
    assert_eq!(detect_chip(&mut port), Ok(()));
}

#[test]
fn flash_size_table() {
    assert_eq!(flash_size_for_id(0x12), Ok(256 * 1024));
    assert_eq!(flash_size_for_id(0x14), Ok(1024 * 1024));
    assert_eq!(flash_size_for_id(0x18), Ok(16 * 1024 * 1024));
    assert_eq!(flash_size_for_id(0x11), Err(EspLoaderError::UnsupportedChip));
    assert_eq!(flash_size_for_id(0x19), Err(EspLoaderError::UnsupportedChip));
    assert_eq!(flash_size_for_jedec_id(0x0016_40EF), Ok(4 * 1024 * 1024));
}

#[test]
fn read_register_value_and_failure_status() {
    let mut port = port_with(&[reply(0x0A, 0xA1B2_C3D4, 0), reply(0x0A, 7, 1)]);
    assert_eq!(esp_loader_read_register(&mut port, 0x40), Ok(0xA1B2_C3D4));
    assert_eq!(port.timer_ms, 3000);
    assert_eq!(esp_loader_read_register(&mut port, 0x40), Err(EspLoaderError::Fail));
}

#[test]
fn request_bytes() {
    let req = build_request(&Command::ReadReg { address: 0x6000_0200 });
    assert_eq!(req, vec![0x00, 0x0A, 4, 0, 0, 0, 0, 0, 0x00, 0x02, 0x00, 0x60]);
    let data = vec![0x01u8, 0x02, 0x04];
    assert_eq!(compute_checksum(&data), 0xEF ^ 0x07);
    let req = build_request(&Command::FlashData { sequence: 5, data: data.clone() });
    assert_eq!(&req[0..8], &[0x00, 0x03, 19, 0, 0xE8, 0, 0, 0]);
    assert_eq!(&req[8..24], &[3, 0, 0, 0, 5, 0, 0, 0, 0, 0, 0, 0, 0, 0, 0, 0]);
    assert_eq!(&req[24..], &data[..]);
}

#[test]
fn execute_rejects_other_opcode() {
    let mut port = port_with(&[ok(0x02)]);
    assert_eq!(execute(&mut port, &Command::Sync).map(|_| ()), Err(EspLoaderError::InvalidResponse));
}

#[test]
fn set_data_lengths_register_value() {
    let mut port = port_with(&[ok(0x09)]);
    assert_eq!(spi_set_data_lengths_2(&mut port, 8, 24), Ok(()));
    let expected = frame(&build_request(&Command::WriteReg {
        address: 0x6000_0220,
        value: (23 << 8) | (7 << 17),
        mask: 0xFFFF_FFFF,
        delay_us: 0,
    }));
    assert_eq!(port.tx, expected);
}

/// Replies for a flash-size probe that reads `jedec` from the data register.
fn probe_replies(jedec: u32) -> Vec<Vec<u8>> {
    let mut v = vec![reply(0x0A, 0, 0), reply(0x0A, 0, 0), ok(0x09)];
    for _ in 0..4 {
        v.push(ok(0x09));
    }
    v.push(reply(0x0A, 0, 0));
    v.push(reply(0x0A, jedec, 0));
    v.push(ok(0x09));
    v.push(ok(0x09));
    v
}

#[test]
fn image_larger_than_flash() {
    let mut port = port_with(&probe_replies(0x0012_0000));
    assert!(matches!(
        esp_loader_flash_start(&mut port, 0, 0x50000, 0x400),
        Err(EspLoaderError::ImageSize)
    ));
    // Only the probe was sent: ends with the second restore write.
    let restore = frame(&build_request(&Command::WriteReg {
        address: 0x6000_0224,
        value: 0,
        mask: 0xFFFF_FFFF,
        delay_us: 0,
    }));
    assert!(port.tx.ends_with(&restore));
    let mut replies = probe_replies(0x0012_0000);
    replies.push(ok(0x0B));
    replies.push(ok(0x02));
    let mut port = port_with(&replies);
    let s = esp_loader_flash_start(&mut port, 0, 0x40000, 0x400).unwrap();
    assert_eq!(s.blocks_to_write, 0x100);
    assert!(port.debug.is_empty());
    let params = frame(&build_request(&Command::SpiSetParams { total_size: 0x40000 }));
    let begin = frame(&build_request(&Command::FlashBegin {
        erase_size: 0x40000,
        packet_count: 0x100,
        packet_size: 0x400,
        offset: 0,
    }));
    assert!(port.tx.ends_with(&[params, begin].concat()));
    assert_eq!(port.rx_pos, port.rx.len());
}

#[test]
fn failed_padding_request_stops_the_write() {
    let mut port = port_with(&[reply(0x0A, 0, 1), ok(0x02), ok(0x03), reply(0x03, 0, 1), ok(0x03)]);
    let mut s = esp_loader_flash_start(&mut port, 0, 40, 64).unwrap();
    let before = port.tx.len();
    assert_eq!(esp_loader_flash_write(&mut port, &mut s, &[7u8; 20]), Err(EspLoaderError::Fail));
    assert_eq!(s.checksum_input.len(), 20 + 32);
    assert_eq!(s.sequence, 1);
    let data = frame(&build_request(&Command::FlashData { sequence: 0, data: vec![7u8; 20] }));
    let pad1 = frame(&build_request(&Command::FlashData { sequence: 1, data: vec![0xFF; 32] }));
    assert_eq!(port.tx[before..].to_vec(), [data, pad1].concat());
}

#[test]
fn short_block_is_padded() {
    // Size detection fails at once; the session goes on without it.
    let mut port = port_with(&[reply(0x0A, 0, 1), ok(0x02), ok(0x03), ok(0x03), ok(0x03)]);
    let mut s = esp_loader_flash_start(&mut port, 0x1000, 40, 64).unwrap();
    let before = port.tx.len();
    assert_eq!(esp_loader_flash_write(&mut port, &mut s, &[7u8; 20]), Ok(()));
    assert_eq!(s.checksum_input.len(), 64);
    assert_eq!(&s.checksum_input[20..], &[0xFFu8; 44][..]);
    assert_eq!(s.sequence, 3);
    let data = frame(&build_request(&Command::FlashData { sequence: 0, data: vec![7u8; 20] }));
    let pad1 = frame(&build_request(&Command::FlashData { sequence: 1, data: vec![0xFF; 32] }));
    let pad2 = frame(&build_request(&Command::FlashData { sequence: 2, data: vec![0xFF; 12] }));
    assert_eq!(port.tx[before..].to_vec(), [data, pad1, pad2].concat());
}

#[test]
fn full_block_has_no_padding() {
    let mut port = port_with(&[reply(0x0A, 0, 1), ok(0x02), ok(0x03)]);
    let mut s = esp_loader_flash_start(&mut port, 0, 16, 16).unwrap();
    let before = port.tx.len();
    assert_eq!(esp_loader_flash_write(&mut port, &mut s, &[1u8; 16]), Ok(()));
    assert_eq!(s.checksum_input, vec![1u8; 16]);
    assert_eq!(s.sequence, 1);
    let data = frame(&build_request(&Command::FlashData { sequence: 0, data: vec![1u8; 16] }));
    assert_eq!(port.tx[before..].to_vec(), data);
}

fn flash_ten_bytes(device_hex: Option<Vec<u8>>) -> Result<(), EspLoaderError> {
    let image = [1u8, 2, 3, 4, 5, 6, 7, 8, 9, 10];
    let mut checksummed = image.to_vec();
    checksummed.extend_from_slice(&[0xFF; 6]);
    let hex = device_hex.unwrap_or_else(|| format!("{:x}", md5::compute(&checksummed)).into_bytes());
    let mut port = port_with(&[
        reply(0x0A, 0, 1),
        ok(0x02),
        ok(0x03),
        ok(0x03),
        ok(0x04),
        md5_reply(&hex),
    ]);
    let mut s = esp_loader_flash_start(&mut port, 0, 10, 16).unwrap();
    assert_eq!(s.blocks_to_write, 1);
    assert_eq!(s.erase_size, 16);
    assert_eq!(port.timer_ms, 3000);
    assert_eq!(esp_loader_flash_write(&mut port, &mut s, &image), Ok(()));
    assert_eq!(s.checksum_input, checksummed);
    assert_eq!(esp_loader_flash_finish(&mut port, true), Ok(()));
    let end = frame(&build_request(&Command::FlashEnd { stay_in_bootloader: false }));
    assert!(port.tx.ends_with(&end));
    esp_loader_flash_verify(&mut port, &s)
}

#[test]
fn end_to_end_flash_and_verify() {
    assert_eq!(flash_ten_bytes(None), Ok(()));
}

#[test]
fn end_to_end_checksum_mismatch() {
    assert_eq!(flash_ten_bytes(Some(vec![b'0'; 32])), Err(EspLoaderError::ChecksumMismatch));
}

#[test]
fn checksum_mismatch_logs_both_texts() {
    let mut data = vec![1u8; 16];
    data.truncate(16);
    let mut port = port_with(&[reply(0x0A, 0, 1), ok(0x02), ok(0x03), md5_reply(&[b'0'; 32])]);
    let mut s = esp_loader_flash_start(&mut port, 0, 16, 16).unwrap();
    assert_eq!(port.debug.len(), 1);
    assert_eq!(esp_loader_flash_write(&mut port, &mut s, &data), Ok(()));
    assert_eq!(esp_loader_flash_verify(&mut port, &s), Err(EspLoaderError::ChecksumMismatch));
    assert_eq!(port.debug.len(), 5);
    assert_eq!(port.debug[2], vec![b'0'; 32]);
    let computed = format!("{:x}", md5::compute(&data)).into_bytes();
    assert_eq!(port.debug[4], computed);
}

#[test]
fn digest_hex_text() {
    let empty = md5_final(&Vec::new());
    assert_eq!(hexify(&empty), b"d41d8cd98f00b204e9800998ecf8427e".to_vec());
    let abc = md5_final(&b"abc".to_vec());
    assert_eq!(hexify(&abc), b"900150983cd24fb0d6963f7d28e17f72".to_vec());
    let raw = [0x00u8, 0x0F, 0xF0, 0xAB, 0, 0, 0, 0, 0, 0, 0, 0, 0, 0, 0, 0x9C];
    let hex = hexify(&raw);
    assert_eq!(&hex[0..8], b"000ff0ab");
    assert_eq!(&hex[30..], b"9c");
    assert_eq!(verify_digest(&hex, &raw), Ok(()));
    assert_eq!(verify_digest(&hex[1..], &raw), Err(EspLoaderError::ChecksumMismatch));
}

#[test]
fn baudrate_and_reset() {
    let mut port = port_with(&[ok(0x0F)]);
    assert_eq!(esp_loader_change_baudrate(&mut port, 921600), Ok(()));
    let expected = frame(&build_request(&Command::ChangeBaudrate { baud: 921600 }));
    assert_eq!(port.tx, expected);
    esp_loader_reset_target(&mut port);
    assert!(port.reset_requested);
}

#[test]
fn port_primitives() {
    let mut port = Port::new(vec![1, 2, 3]);
    loader_port_start_timer(&mut port, 250);
    assert_eq!(loader_port_remaining_time(&port), 250);
    let mut buf = vec![0u8; 2];
    assert_eq!(loader_port_serial_read(&mut port, &mut buf, 250), Ok(()));
    assert_eq!(buf, vec![1, 2]);
    let mut buf = vec![0u8; 2];
    assert_eq!(loader_port_serial_read(&mut port, &mut buf, 250), Err(EspLoaderError::Timeout));
    assert_eq!(port.rx_pos, 3);
    assert_eq!(loader_port_serial_write(&mut port, &[9, 8], 250), Ok(()));
    assert_eq!(port.tx, vec![9, 8]);
    loader_port_delay_ms(&mut port, 100);
    loader_port_enter_bootloader(&mut port);
    assert_eq!(port.delays, vec![(2, 100)]);
    assert!(port.in_bootloader);
    loader_port_debug_print(&mut port, b"hello");
    assert_eq!(port.debug, vec![b"hello".to_vec()]);
}

#[test]
fn error_codes() {
    assert_eq!(EspLoaderError::Fail.code(), 0);
    assert_eq!(EspLoaderError::InvalidResponse.code(), 6);
}

#[test]
fn unknown_flash_size_does_not_stop_flash_start() {
    for jedec in [0x0011_0000u32, 0x0019_0000] {
        let mut replies = probe_replies(jedec);
        replies.push(ok(0x02));
        let mut port = port_with(&replies);
        let s = esp_loader_flash_start(&mut port, 0, 0x50000, 0x400).unwrap();
        assert_eq!(s.erase_size, 0x50000);
        assert_eq!(port.rx_pos, port.rx.len());
    }
}
