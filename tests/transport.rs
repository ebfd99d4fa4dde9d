use opcua_transport::chunk::{ChunkInfo, MessageChunkWithChunkInfo, MessageIsFinalType};
use opcua_transport::frames::{AcknowledgeMessage, ErrorMessage};
use opcua_transport::merge::merge_chunks;
use opcua_transport::send_buffer::SendBuffer;
use opcua_transport::status::StatusCode;
use opcua_transport::transport::{Delivery, Message, TransportState};

fn inbound(request_id: u32, sequence_number: u32, is_final: MessageIsFinalType, byte: u8) -> MessageChunkWithChunkInfo {
    MessageChunkWithChunkInfo {
        header: ChunkInfo { request_id, sequence_number, is_final, body_length: 1 },
        data_with_header: vec![byte],
    }
}

fn data_of(chunks: &[opcua_transport::chunk::MessageChunk]) -> Vec<u8> {
    chunks.iter().map(|c| c.data[0]).collect()
}

#[test]
fn merge_single_chunk_passes_through() {
    let merged = merge_chunks(vec![inbound(1, 77, MessageIsFinalType::Final, 9)]).unwrap();
    assert_eq!(data_of(&merged), vec![9]);
}

#[test]
fn merge_sorts_by_sequence_number() {
    let merged = merge_chunks(vec![
        inbound(1, 12, MessageIsFinalType::Final, 3),
        inbound(1, 10, MessageIsFinalType::Intermediate, 1),
        inbound(1, 11, MessageIsFinalType::Intermediate, 2),
    ])
    .unwrap();
    assert_eq!(data_of(&merged), vec![1, 2, 3]);
}

#[test]
fn merge_drops_duplicates() {
    let merged = merge_chunks(vec![
        inbound(1, 5, MessageIsFinalType::Intermediate, 1),
        inbound(1, 6, MessageIsFinalType::Intermediate, 2),
        inbound(1, 5, MessageIsFinalType::Intermediate, 1),
        inbound(1, 7, MessageIsFinalType::Final, 3),
        inbound(1, 6, MessageIsFinalType::Intermediate, 2),
    ])
    .unwrap();
    assert_eq!(data_of(&merged), vec![1, 2, 3]);
}

#[test]
fn merge_stops_at_a_gap() {
    let merged = merge_chunks(vec![
        inbound(1, 1, MessageIsFinalType::Intermediate, 1),
        inbound(1, 2, MessageIsFinalType::Intermediate, 2),
        inbound(1, 4, MessageIsFinalType::Final, 4),
    ])
    .unwrap();
    assert_eq!(data_of(&merged), vec![1, 2]);
}

#[test]
fn merge_at_the_top_of_the_range() {
    let merged = merge_chunks(vec![
        inbound(1, u32::MAX, MessageIsFinalType::Final, 2),
        inbound(1, u32::MAX - 1, MessageIsFinalType::Intermediate, 1),
        inbound(1, u32::MAX, MessageIsFinalType::Final, 2),
    ])
    .unwrap();
    assert_eq!(data_of(&merged), vec![1, 2]);
}

fn state_with_request(deadline: u64) -> (TransportState, SendBuffer, u32) {
    let mut state = TransportState::new(3, 8196, false);
    let mut buffer = SendBuffer::new(8196, 0, 0, false);
    let id = state.register_outgoing_message(&mut buffer, true, deadline);
    (state, buffer, id)
}

#[test]
fn transport_registers_requests() {
    let (mut state, mut buffer, id) = state_with_request(100);
    assert_eq!(id, 1001);
    assert!(state.is_pending(1001));
    let id2 = state.register_outgoing_message(&mut buffer, false, 100);
    assert_eq!(id2, 1002);
    assert!(!state.is_pending(1002));
    assert_eq!(state.pending_count(), 1);
}

#[test]
fn transport_reassembles_a_response() {
    let (mut state, _buffer, id) = state_with_request(100);
    let r = state
        .handle_incoming_message(Message::Chunk(inbound(id, 2, MessageIsFinalType::Intermediate, 2)))
        .unwrap();
    assert!(r.is_none());
    let r = state
        .handle_incoming_message(Message::Chunk(inbound(id, 1, MessageIsFinalType::Intermediate, 1)))
        .unwrap();
    assert!(r.is_none());
    let r = state
        .handle_incoming_message(Message::Chunk(inbound(id, 3, MessageIsFinalType::Final, 3)))
        .unwrap();
    match r {
        Some(Delivery::Complete(rid, chunks)) => {
            assert_eq!(rid, id);
            assert_eq!(data_of(&chunks), vec![1, 2, 3]);
        }
        other => panic!("unexpected {:?}", other),
    }
    assert!(!state.is_pending(id));
    // A late chunk of the finished request is dropped.
    let r = state
        .handle_incoming_message(Message::Chunk(inbound(id, 4, MessageIsFinalType::Final, 4)))
        .unwrap();
    assert!(r.is_none());
}

#[test]
fn transport_drops_chunks_of_unknown_requests() {
    let (mut state, _buffer, _id) = state_with_request(100);
    let r = state
        .handle_incoming_message(Message::Chunk(inbound(5, 1, MessageIsFinalType::Final, 1)))
        .unwrap();
    assert!(r.is_none());
    assert_eq!(state.pending_count(), 1);
}

#[test]
fn transport_fails_request_over_chunk_limit() {
    let (mut state, _buffer, id) = state_with_request(100);
    for s in 0..3 {
        let r = state
            .handle_incoming_message(Message::Chunk(inbound(id, s, MessageIsFinalType::Intermediate, 0)))
            .unwrap();
        assert!(r.is_none());
    }
    let r = state
        .handle_incoming_message(Message::Chunk(inbound(id, 3, MessageIsFinalType::Intermediate, 0)))
        .unwrap();
    match r {
        Some(Delivery::Failed(rid, status)) => {
            assert_eq!(rid, id);
            assert_eq!(status, StatusCode::BadEncodingLimitsExceeded);
        }
        other => panic!("unexpected {:?}", other),
    }
    assert!(!state.is_pending(id));
    let r = state
        .handle_incoming_message(Message::Chunk(inbound(id, 4, MessageIsFinalType::Final, 0)))
        .unwrap();
    assert!(r.is_none());
}

#[test]
fn transport_final_error_chunk_fails_request() {
    let (mut state, _buffer, id) = state_with_request(100);
    let r = state
        .handle_incoming_message(Message::Chunk(inbound(id, 1, MessageIsFinalType::FinalError, 0)))
        .unwrap();
    match r {
        Some(Delivery::Failed(rid, status)) => {
            assert_eq!(rid, id);
            assert_eq!(status, StatusCode::BadCommunicationError);
        }
        other => panic!("unexpected {:?}", other),
    }
    assert_eq!(state.pending_count(), 0);
}

#[test]
fn transport_framing_frames() {
    let (mut state, _buffer, _id) = state_with_request(100);
    let ack = AcknowledgeMessage {
        protocol_version: 0,
        receive_buffer_size: 0,
        send_buffer_size: 0,
        max_message_size: 0,
        max_chunk_count: 0,
    };
    assert_eq!(
        state.handle_incoming_message(Message::Acknowledge(ack)).unwrap_err(),
        StatusCode::BadUnexpectedError
    );
    assert_eq!(state.handle_incoming_message(Message::Hello).unwrap_err(), StatusCode::BadUnexpectedError);
    let e = ErrorMessage { error: StatusCode::BadTimeout, reason: String::new() };
    assert_eq!(state.handle_incoming_message(Message::Error(e)).unwrap_err(), StatusCode::BadTimeout);
    let e = ErrorMessage { error: StatusCode::Good, reason: String::new() };
    assert!(state.handle_incoming_message(Message::Error(e)).unwrap().is_none());
    assert_eq!(state.pending_count(), 1);
}

#[test]
fn transport_times_out_requests() {
    let mut state = TransportState::new(0, 8196, false);
    let mut buffer = SendBuffer::new(8196, 0, 0, false);
    let a = state.register_outgoing_message(&mut buffer, true, 50);
    let b = state.register_outgoing_message(&mut buffer, true, 200);
    let c = state.register_outgoing_message(&mut buffer, true, 100);
    let d = state.register_outgoing_message(&mut buffer, true, 150);
    let (next, expired) = state.next_timeout(100);
    assert_eq!(expired, vec![a, c]);
    assert_eq!(next, Some(150));
    assert!(state.is_pending(b) && state.is_pending(d));
    let (next, expired) = state.next_timeout(10);
    assert!(expired.is_empty());
    assert_eq!(next, Some(150));
    let (next, expired) = state.next_timeout(1000);
    assert_eq!(expired, vec![b, d]);
    assert_eq!(next, None);
}

#[test]
fn transport_send_failure() {
    let (mut state, _buffer, id) = state_with_request(100);
    match state.message_send_failed(id, StatusCode::BadCommunicationError) {
        Some(Delivery::Failed(rid, status)) => {
            assert_eq!(rid, id);
            assert_eq!(status, StatusCode::BadCommunicationError);
        }
        other => panic!("unexpected {:?}", other),
    }
    assert!(state.message_send_failed(id, StatusCode::BadCommunicationError).is_none());
}

#[test]
fn transport_close_fails_everything() {
    let (mut state, mut buffer, id) = state_with_request(100);
    let id2 = state.register_outgoing_message(&mut buffer, true, 100);
    let (status, ids) = state.close(StatusCode::Good);
    assert_eq!(status, StatusCode::BadConnectionClosed);
    assert_eq!(ids, vec![id, id2]);
    assert_eq!(state.pending_count(), 0);
    let (status, ids) = state.close(StatusCode::BadTimeout);
    assert_eq!(status, StatusCode::BadTimeout);
    assert!(ids.is_empty());
}

#[test]
fn transport_inbound_sequence_numbers() {
    let mut state = TransportState::new(0, 8196, true);
    assert_eq!(state.sequence_numbers().current(), 1);
    state.set_sequence_number(42);
    assert_eq!(state.sequence_numbers().current(), 42);
}

#[test]
fn transport_each_request_delivered_once() {
    let mut state = TransportState::new(0, 8196, false);
    let mut buffer = SendBuffer::new(8196, 0, 0, false);
    let ids: Vec<u32> = (0..6)
        .map(|i| state.register_outgoing_message(&mut buffer, true, 100 + i * 10))
        .collect();
    let mut delivered = Vec::new();
    let (_, expired) = state.next_timeout(115);
    delivered.extend(expired);
    for d in [
        state.handle_incoming_message(Message::Chunk(inbound(ids[3], 1, MessageIsFinalType::Final, 0))).unwrap(),
        state.handle_incoming_message(Message::Chunk(inbound(ids[3], 2, MessageIsFinalType::Final, 0))).unwrap(),
        state.message_send_failed(ids[4], StatusCode::BadCommunicationError),
        state.message_send_failed(ids[0], StatusCode::BadCommunicationError),
    ]
    .into_iter()
    .flatten()
    {
        match d {
            Delivery::Failed(id, _) | Delivery::Complete(id, _) => delivered.push(id),
        }
    }
    let (_, rest) = state.close(StatusCode::Good);
    delivered.extend(rest);
    let (_, again) = state.close(StatusCode::Good);
    assert!(again.is_empty());
    delivered.sort();
    assert_eq!(delivered, ids);
}

#[test]
fn merge_keeps_first_received_duplicate() {
    let merged = merge_chunks(vec![
        inbound(1, 6, MessageIsFinalType::Intermediate, 20),
        inbound(1, 5, MessageIsFinalType::Intermediate, 10),
        inbound(1, 6, MessageIsFinalType::Intermediate, 21),
        inbound(1, 5, MessageIsFinalType::Intermediate, 11),
        inbound(1, 7, MessageIsFinalType::Final, 30),
    ])
    .unwrap();
    assert_eq!(data_of(&merged), vec![10, 20, 30]);
}

#[test]
fn transport_process_chunk_of_unknown_request() {
    let (mut state, _buffer, id) = state_with_request(100);
    assert!(state.process_chunk(inbound(id + 7, 1, MessageIsFinalType::Final, 0)).is_none());
    assert!(state.is_pending(id));
    assert_eq!(state.pending_count(), 1);
}

#[test]
fn transport_complete_response() {
    let mut state = TransportState::new(0, 8196, true);
    assert_eq!(state.complete_response(Ok(("resp", 9u32))), Ok("resp"));
    assert_eq!(state.sequence_numbers().current(), 9);
    assert_eq!(
        state.complete_response(Ok(("resp", u32::MAX))),
        Err(StatusCode::BadUnexpectedError)
    );
    assert_eq!(state.sequence_numbers().current(), 9);
    assert_eq!(
        state.complete_response::<&str>(Err(StatusCode::BadTimeout)),
        Err(StatusCode::BadTimeout)
    );
    assert_eq!(state.sequence_numbers().current(), 9);
}
