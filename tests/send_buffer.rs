use opcua_transport::chunk::MessageChunk;
use opcua_transport::frames::{AcknowledgeMessage, ErrorMessage};
use opcua_transport::send_buffer::SendBuffer;
use opcua_transport::status::StatusCode;

fn get_buffer() -> SendBuffer {
    SendBuffer::new(8196, 81960, 5, true)
}

fn chunk(len: usize, fill: u8) -> MessageChunk {
    MessageChunk { data: vec![fill; len] }
}

/// Stands in for the secure channel with no security: the secured bytes are
/// the chunk's bytes.
fn encode_and_secure(buffer: &mut SendBuffer) {
    if let Some(c) = buffer.encode_next_chunk().unwrap() {
        buffer.set_encoded_chunk(c.data);
    }
}

/// Stands in for a sink that accepts at most `capacity` bytes per write.
fn drain_into(buffer: &mut SendBuffer, sink: &mut Vec<u8>, capacity: usize) -> usize {
    let data = buffer.pending_data();
    let n = data.len().min(capacity);
    sink.extend_from_slice(&data[..n]);
    buffer.consume(n);
    n
}

#[test]
fn test_buffer_simple() {
    let mut buffer = get_buffer();
    let request_id = buffer.write(1, Ok(vec![chunk(120, 7)])).unwrap();
    assert_eq!(request_id, 1);

    assert!(buffer.should_encode_chunks());
    assert_eq!(buffer.queued_payloads(), 1);
    encode_and_secure(&mut buffer);
    assert!(buffer.can_read());

    let mut sink = Vec::new();
    drain_into(&mut buffer, &mut sink, usize::MAX);
    assert!(sink.len() > 50);
    assert!(!buffer.can_read());
}

#[test]
fn test_buffer_chunking() {
    let mut buffer = get_buffer();
    let chunks = vec![chunk(8196, 1), chunk(8196, 2), chunk(3000, 3)];
    let request_id = buffer.write(1, Ok(chunks)).unwrap();
    assert_eq!(request_id, 1);
    assert_eq!(buffer.queued_payloads(), 3);

    let mut sink = Vec::new();
    for _ in 0..3 {
        assert!(buffer.should_encode_chunks());
        encode_and_secure(&mut buffer);
        assert!(!buffer.should_encode_chunks());
        assert!(buffer.can_read());
        drain_into(&mut buffer, &mut sink, usize::MAX);
    }
    assert!(!buffer.should_encode_chunks());
    assert!(!buffer.can_read());
    assert!(sink.len() > 8196 * 2 && sink.len() < 8196 * 3);
    // FIFO order of the chunks
    assert_eq!(sink[0], 1);
    assert_eq!(sink[8196], 2);
    assert_eq!(sink[8196 * 2], 3);
}

#[test]
fn test_buffer_too_large_message() {
    let mut buffer = get_buffer();
    let err = buffer.write(1, Err(StatusCode::BadRequestTooLarge)).unwrap_err();
    assert_eq!(err, StatusCode::BadRequestTooLarge);
    assert_eq!(buffer.queued_payloads(), 0);
}

#[test]
fn test_buffer_too_many_chunks() {
    let mut buffer = get_buffer();
    let before = buffer.sequence_numbers().current();
    let chunks: Vec<MessageChunk> = (0..12).map(|i| chunk(8196, i as u8)).collect();
    let err = buffer.write(1, Ok(chunks)).unwrap_err();
    assert_eq!(err, StatusCode::BadCommunicationError);
    assert_eq!(buffer.queued_payloads(), 0);
    assert_eq!(buffer.sequence_numbers().current(), before);
}

#[test]
fn test_buffer_read_partial() {
    let mut buffer = get_buffer();
    let chunks = vec![chunk(8196, 1), chunk(8196, 2), chunk(3000, 3)];
    let request_id = buffer.write(1, Ok(chunks)).unwrap();
    assert_eq!(request_id, 1);
    assert_eq!(buffer.queued_payloads(), 3);

    // A sink exactly half the chunk size.
    let mut sink = Vec::new();
    for _ in 0..2 {
        assert!(buffer.should_encode_chunks());
        encode_and_secure(&mut buffer);
        assert!(!buffer.should_encode_chunks());
        assert!(buffer.can_read());

        assert_eq!(drain_into(&mut buffer, &mut sink, 4098), 4098);
        assert!(buffer.can_read());
        assert_eq!(drain_into(&mut buffer, &mut sink, 4098), 4098);
        assert!(!buffer.can_read());
    }
    assert!(buffer.should_encode_chunks());
    encode_and_secure(&mut buffer);
    assert!(buffer.can_read());
    assert!(drain_into(&mut buffer, &mut sink, 4098) < 4098);

    assert!(!buffer.should_encode_chunks());
    assert!(!buffer.can_read());
    assert_eq!(sink.len(), 8196 * 2 + 3000);
}

#[test]
fn buffer_abandoned_write_resumes_stream() {
    let mut buffer = get_buffer();
    let data: Vec<u8> = (0..100u8).collect();
    buffer.write(1, Ok(vec![MessageChunk { data: data.clone() }])).unwrap();
    encode_and_secure(&mut buffer);
    let mut sink = Vec::new();
    assert_eq!(drain_into(&mut buffer, &mut sink, 30), 30);
    // A write that is abandoned before the sink answers changes nothing.
    let seen = buffer.pending_data().to_vec();
    assert_eq!(seen, data[30..].to_vec());
    assert_eq!(buffer.pending_data(), &data[30..]);
    drain_into(&mut buffer, &mut sink, 0);
    drain_into(&mut buffer, &mut sink, 1000);
    assert_eq!(sink, data);
    assert!(!buffer.can_read());
}

#[test]
fn buffer_write_advances_sequence_numbers() {
    let mut buffer = get_buffer();
    assert_eq!(buffer.sequence_numbers().current(), 1);
    buffer.write(5, Ok(vec![chunk(10, 0), chunk(10, 0), chunk(10, 0)])).unwrap();
    assert_eq!(buffer.sequence_numbers().current(), 4);
    buffer.set_sequence_number_legacy(false);
    assert_eq!(buffer.sequence_numbers().current(), 4);
    assert!(!buffer.sequence_numbers().is_legacy());
}

#[test]
fn buffer_unlimited_chunk_count() {
    let mut buffer = SendBuffer::new(8196, 0, 0, false);
    let chunks: Vec<MessageChunk> = (0..20).map(|_| chunk(1, 0)).collect();
    assert_eq!(buffer.write(9, Ok(chunks)), Ok(9));
    assert_eq!(buffer.queued_payloads(), 20);
}

#[test]
fn buffer_ack_and_error_frames() {
    let mut buffer = get_buffer();
    buffer.write(1, Ok(vec![chunk(10, 0)])).unwrap();
    let ack = AcknowledgeMessage {
        protocol_version: 0,
        receive_buffer_size: 1,
        send_buffer_size: 2,
        max_message_size: 3,
        max_chunk_count: 4,
    };
    buffer.write_ack(ack);
    assert_eq!(buffer.queued_payloads(), 2);
    // An error clears what was queued.
    buffer.write_error(ErrorMessage { error: StatusCode::BadTimeout, reason: "x".to_string() });
    assert_eq!(buffer.queued_payloads(), 1);
    assert!(buffer.encode_next_chunk().unwrap().is_none());
    assert!(buffer.can_read());
    assert_eq!(&buffer.pending_data()[0..4], b"ERRF");
    assert_eq!(buffer.pending_data().len(), 17);
    // Encoding while draining is refused.
    buffer.write_ack(ack);
    assert_eq!(buffer.encode_next_chunk().unwrap_err(), StatusCode::BadInvalidState);
    assert_eq!(buffer.queued_payloads(), 1);
    buffer.consume(17);
    assert!(buffer.encode_next_chunk().unwrap().is_none());
    assert_eq!(buffer.pending_data(), ack.encode().as_slice());
}

#[test]
fn buffer_encode_with_empty_queue_does_nothing() {
    let mut buffer = get_buffer();
    assert!(!buffer.should_encode_chunks());
    assert!(buffer.encode_next_chunk().unwrap().is_none());
    assert!(!buffer.can_read());
    assert!(buffer.pending_data().is_empty());
    buffer.consume(0);
    assert!(!buffer.can_read());
}

#[test]
fn buffer_request_ids_start_after_thousand() {
    let mut buffer = get_buffer();
    assert_eq!(buffer.last_request_id(), 1000);
    assert_eq!(buffer.next_request_id(), 1001);
    assert_eq!(buffer.next_request_id(), 1002);
}

#[test]
fn buffer_revise_only_lowers() {
    let mut buffer = get_buffer();
    buffer.revise(100_000, 1_000_000, 50);
    assert_eq!(buffer.send_buffer_size, 8196);
    assert_eq!(buffer.max_message_size, 81960);
    assert_eq!(buffer.max_chunk_count, 5);
    buffer.revise(4096, 0, 0);
    assert_eq!(buffer.send_buffer_size, 4096);
    assert_eq!(buffer.max_message_size, 81960);
    assert_eq!(buffer.max_chunk_count, 5);
    buffer.revise(4096, 1000, 2);
    assert_eq!(buffer.max_message_size, 1000);
    assert_eq!(buffer.max_chunk_count, 2);
    // 0 means no limit: nothing is lowered to it.
    buffer.revise(0, 0, 0);
    assert_eq!(buffer.send_buffer_size, 4096);
    assert_eq!(buffer.max_message_size, 1000);
    assert_eq!(buffer.max_chunk_count, 2);
}
