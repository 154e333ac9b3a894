use optibridge_protocol::{
    BridgeAction, CMD_I2C_READ, CMD_I2C_WRITE, CMD_QUERY_BPF_CRC, CMD_READ_STATUS, HEADER_LEN,
    MAGIC, MAX_FRAME, MAX_PAYLOAD, PacketOutcome, ParseError, Parser, Request, STATUS_BAD_COMMAND,
    STATUS_BAD_FLAGS, STATUS_BAD_LENGTH, STATUS_OK, StatusQueue, dispatch_packet,
    encode_i2c_result, encode_response, parse_packet, plan_i2c_request,
};

#[test]
fn encoded_frame_parses_back_to_its_fields() {
    let mut output = [0xee; MAX_FRAME];
    let length = encode_response(0x33, 0x44, 0x55, &[9, 8, 7], &mut output).unwrap();
    assert_eq!(length, HEADER_LEN + 3);
    assert_eq!(&output[..length], &[MAGIC, 0x33, 3, 0x44, 0x55, 9, 8, 7]);
    assert!(output[length..].iter().all(|byte| *byte == 0xee));
    let request = parse_packet(&output[..length], false).unwrap();
    assert_eq!(request.command, 0x33);
    assert_eq!(request.sequence, 0x44);
    assert_eq!(request.flags, 0x55);
    assert_eq!(request.payload_len, 3);
    assert_eq!(request.payload, [9, 8, 7, 0, 0, 0, 0, 0, 0, 0, 0, 0, 0, 0, 0, 0]);
}

#[test]
fn encode_response_refuses_oversized_payload_and_keeps_output() {
    let mut output = [0x11; MAX_FRAME];
    let payload = [0; MAX_PAYLOAD + 1];
    assert_eq!(
        encode_response(STATUS_OK, 1, 0, &payload, &mut output),
        Err(ParseError::BadLength)
    );
    assert_eq!(output, [0x11; MAX_FRAME]);
}

#[test]
fn maximum_payload_frame_round_trips() {
    let mut output = [0; MAX_FRAME];
    let payload = [0x5a; MAX_PAYLOAD];
    let length = encode_response(CMD_READ_STATUS, 2, 0, &payload, &mut output).unwrap();
    assert_eq!(length, MAX_FRAME);
    let request = parse_packet(&output, false).unwrap();
    assert_eq!(request.payload, payload);
    assert_eq!(request.payload_len as usize, MAX_PAYLOAD);
}

#[test]
fn last_of_three_frames_is_the_capture_frame() {
    let packet = [
        MAGIC, 0x10, 0, 1, 0, MAGIC, 0x11, 1, 2, 0, 7, MAGIC, 0x12, 2, 3, 0, 8, 9,
    ];
    let request = parse_packet(&packet, false).unwrap();
    assert_eq!(request.command, 0x12);
    assert_eq!(request.sequence, 3);
    assert_eq!(request.payload_len, 2);
    assert_eq!(&request.payload[..2], &[8, 9]);
    assert_eq!(parse_packet(&packet, true), None);
}

#[test]
fn capture_with_refused_byte_yields_nothing() {
    assert_eq!(parse_packet(&[], false), None);
    assert_eq!(parse_packet(&[0x00], false), None);
    assert_eq!(parse_packet(&[MAGIC, 6, 0, 1, 0, 0x00], false), None);
}

#[test]
fn parser_reset_drops_partial_frame() {
    let mut parser = Parser::default();
    assert_eq!(parser.push(MAGIC), Ok(None));
    assert_eq!(parser.push(6), Ok(None));
    parser.reset();
    assert_eq!(parser.push(6), Err(ParseError::BadMagic));
    for byte in [MAGIC, 6, 0, 4] {
        assert_eq!(parser.push(byte), Ok(None));
    }
    let request = parser.push(0).unwrap().unwrap();
    assert_eq!(request.sequence, 4);
}

#[test]
fn empty_capture_keeps_status_and_output() {
    let mut status_queue = StatusQueue::ready();
    let mut output = [0x77; MAX_FRAME];
    assert_eq!(
        dispatch_packet(&[MAGIC, CMD_READ_STATUS, 0], false, &mut status_queue, &mut output),
        PacketOutcome::Empty
    );
    assert_eq!(output, [0x77; MAX_FRAME]);
    let length = match dispatch_packet(
        &[MAGIC, CMD_READ_STATUS, 0, 1, 0],
        false,
        &mut status_queue,
        &mut output,
    ) {
        PacketOutcome::Response(length) => length,
        _ => panic!("expected response"),
    };
    assert_eq!(&output[..length], &[MAGIC, STATUS_OK, 5, 1, 0, b'r', b'e', b'a', b'd', b'y']);
}

#[test]
fn unknown_command_answers_bad_command_with_sequence() {
    let mut status_queue = StatusQueue::ready();
    let mut output = [0; MAX_FRAME];
    let outcome = dispatch_packet(&[MAGIC, 0x42, 0, 0x99, 0], false, &mut status_queue, &mut output);
    assert_eq!(outcome, PacketOutcome::Response(5));
    assert_eq!(&output[..5], &[MAGIC, STATUS_BAD_COMMAND, 0, 0x99, 0]);
    let outcome = dispatch_packet(
        &[MAGIC, CMD_QUERY_BPF_CRC, 0, 3, 0],
        false,
        &mut status_queue,
        &mut output,
    );
    assert_eq!(outcome, PacketOutcome::Response(5));
    assert_eq!(&output[..5], &[MAGIC, STATUS_BAD_COMMAND, 0, 3, 0]);
}

fn bridge_request(command: u8, flags: u8, payload: &[u8]) -> Request {
    let mut request = Request::empty();
    request.command = command;
    request.sequence = 6;
    request.flags = flags;
    request.payload_len = payload.len() as u8;
    request.payload[..payload.len()].copy_from_slice(payload);
    request
}

#[test]
fn bridge_plans_write_and_read_transactions() {
    let mut output = [0x99; MAX_FRAME];
    assert_eq!(
        plan_i2c_request(&bridge_request(CMD_I2C_WRITE, 0, &[0x44, 0xfd]), &mut output),
        BridgeAction::Write { address: 0x44, len: 2 }
    );
    assert_eq!(
        plan_i2c_request(&bridge_request(CMD_I2C_WRITE, 0, &[0x44]), &mut output),
        BridgeAction::Write { address: 0x44, len: 1 }
    );
    assert_eq!(
        plan_i2c_request(&bridge_request(CMD_I2C_READ, 0, &[0x42, 10]), &mut output),
        BridgeAction::Read { address: 0x42, count: 10 }
    );
    assert_eq!(output, [0x99; MAX_FRAME]);
}

#[test]
fn bridge_refusals_answer_status_only() {
    let mut output = [0; MAX_FRAME];
    for (request, status) in [
        (bridge_request(CMD_I2C_WRITE, 1, &[0x44]), STATUS_BAD_FLAGS),
        (bridge_request(0x12, 0, &[0x44]), STATUS_BAD_COMMAND),
        (bridge_request(CMD_I2C_WRITE, 0, &[]), STATUS_BAD_LENGTH),
        (bridge_request(CMD_I2C_WRITE, 0, &[0x80]), STATUS_BAD_COMMAND),
        (bridge_request(CMD_I2C_READ, 0, &[0x44]), STATUS_BAD_LENGTH),
        (bridge_request(CMD_I2C_READ, 0, &[0x44, 17]), STATUS_BAD_LENGTH),
    ] {
        assert_eq!(plan_i2c_request(&request, &mut output), BridgeAction::Respond(5));
        assert_eq!(&output[..5], &[MAGIC, status, 0, 6, 0]);
    }
}

#[test]
fn bridge_results_expose_bytes_only_on_success() {
    let mut output = [0; MAX_FRAME];
    let length = encode_i2c_result(2, true, &[1, 2, 3, 4, 5, 6], &mut output);
    assert_eq!(&output[..length], &[MAGIC, STATUS_OK, 6, 2, 0, 1, 2, 3, 4, 5, 6]);
    let length = encode_i2c_result(2, false, &[1, 2, 3, 4, 5, 6], &mut output);
    assert_eq!(&output[..length], &[MAGIC, STATUS_BAD_COMMAND, 0, 2, 0]);
    let length = encode_i2c_result(1, true, &[], &mut output);
    assert_eq!(&output[..length], &[MAGIC, STATUS_OK, 0, 1, 0]);
}

#[test]
fn encoded_frame_pushed_byte_by_byte_gives_back_its_request() {
    let mut output = [0; MAX_FRAME];
    let length = encode_response(0x21, 0x07, 0x02, &[4, 5, 6, 7], &mut output).unwrap();
    let mut parser = Parser::new();
    for byte in &output[..length - 1] {
        assert_eq!(parser.push(*byte), Ok(None));
    }
    let request = parser.push(output[length - 1]).unwrap().unwrap();
    assert_eq!(request.command, 0x21);
    assert_eq!(request.sequence, 0x07);
    assert_eq!(request.flags, 0x02);
    assert_eq!(request.payload_len, 4);
    assert_eq!(&request.payload[..4], &[4, 5, 6, 7]);
    assert!(request.payload[4..].iter().all(|byte| *byte == 0));
    assert_eq!(parser.push(0x00), Err(ParseError::BadMagic));
}

#[test]
fn reset_parser_refuses_all_but_magic() {
    let mut parser = Parser::new();
    assert_eq!(parser.push(MAGIC), Ok(None));
    assert_eq!(parser.push(CMD_READ_STATUS), Ok(None));
    parser.reset();
    assert_eq!(parser.push(0x42), Err(ParseError::BadMagic));
    assert_eq!(parser.push(MAGIC), Ok(None));
}

#[test]
fn bytes_after_the_last_frame_make_the_capture_invalid() {
    let frame = [MAGIC, CMD_READ_STATUS, 0, 1, 0];
    let mut packet = [0u8; 11];
    packet[..5].copy_from_slice(&frame);
    packet[5..10].copy_from_slice(&frame);
    packet[10] = MAGIC;
    assert_eq!(parse_packet(&packet[..10], false).map(|r| r.sequence), Some(1));
    assert!(parse_packet(&packet, false).is_none());
    assert!(parse_packet(&packet[..10], true).is_none());
}
