//! The outbound send buffer: a queue of payloads and one scratch buffer that
//! is drained into a byte sink in a cancel-safe way.

use std::collections::VecDeque;

use crate::chunk::MessageChunk;
use crate::frames::{
    spec_ack_bytes, spec_error_bytes, spec_reason_bytes, AcknowledgeMessage, ErrorMessage,
    ACK_FRAME_SIZE, MAX_REASON_LEN,
};
use crate::sequence::{
    spec_advance, spec_max_sequence, spec_min_sequence, SequenceNumberHandle, SequenceView,
};
use crate::status::StatusCode;
use vstd::prelude::*;
use vstd::slice::slice_subrange;

verus! {

/// Phase of the scratch buffer.
#[derive(Copy, Clone, Debug, PartialEq, Eq, Structural)]
pub enum SendBufferState {
    /// The scratch buffer holds this many bytes that are being drained.
    Reading(usize),
    /// The scratch buffer is free for the next payload.
    Writing,
}

/// A payload waiting in the send queue.
#[derive(Debug)]
pub enum PendingPayload {
    /// A service chunk, to be secured by the channel before it is sent.
    Chunk(MessageChunk),
    /// An Acknowledge frame.
    Ack(AcknowledgeMessage),
    /// An Error frame.
    Error(ErrorMessage),
}

/// General implementation of a buffer of outgoing messages.
pub struct SendBuffer {
    /// Bytes of the payload being drained.
    buffer: Vec<u8>,
    /// How many of them the sink has accepted.
    position: usize,
    /// Queued payloads.
    chunks: VecDeque<PendingPayload>,
    /// The last request id.
    last_request_id: u32,
    /// Sequence number of the next outbound chunk.
    sequence_numbers: SequenceNumberHandle,
    /// Maximum size of a message, total. Use 0 for no limit.
    pub max_message_size: usize,
    /// Maximum number of chunks in a message. Use 0 for no limit.
    pub max_chunk_count: usize,
    /// Maximum size of each individual chunk.
    pub send_buffer_size: usize,
    state: SendBufferState,
}

/// Abstract state of a `SendBuffer`.
pub ghost struct SendBufferView {
    pub data: Seq<u8>,
    pub position: nat,
    pub state: SendBufferState,
    pub queue: Seq<PendingPayload>,
    pub last_request_id: u32,
    pub sequence: SequenceView,
    pub max_message_size: usize,
    pub max_chunk_count: usize,
    pub send_buffer_size: usize,
}

impl View for SendBuffer {
    type V = SendBufferView;

    closed spec fn view(&self) -> SendBufferView {
        SendBufferView {
            data: self.buffer@,
            position: self.position as nat,
            state: self.state,
            queue: self.chunks@,
            last_request_id: self.last_request_id,
            sequence: self.sequence_numbers@,
            max_message_size: self.max_message_size,
            max_chunk_count: self.max_chunk_count,
            send_buffer_size: self.send_buffer_size,
        }
    }
}

impl SendBufferView {
    /// While writing nothing has been drained; while reading, the drained
    /// position lies within the bytes of the payload.
    pub open spec fn wf(self) -> bool {
        &&& self.sequence.wf()
        &&& match self.state {
            SendBufferState::Writing => self.position == 0,
            SendBufferState::Reading(end) => self.position <= end <= self.data.len(),
        }
    }

    /// The bytes still to be handed to the sink.
    pub open spec fn pending(self) -> Seq<u8> {
        match self.state {
            SendBufferState::Reading(end) => self.data.subrange(self.position as int, end as int),
            SendBufferState::Writing => Seq::empty(),
        }
    }

    /// The state after the sink accepted `written` of the pending bytes.
    pub open spec fn consumed(self, written: nat) -> SendBufferView {
        match self.state {
            SendBufferState::Reading(end) => if self.position + written == end {
                SendBufferView { state: SendBufferState::Writing, position: 0, ..self }
            } else {
                SendBufferView { position: self.position + written, ..self }
            },
            SendBufferState::Writing => self,
        }
    }

    /// The scratch buffer now holds `bytes`, all of them to be drained.
    pub open spec fn loaded(self, bytes: Seq<u8>) -> SendBufferView {
        SendBufferView {
            data: bytes,
            position: 0,
            state: SendBufferState::Reading(bytes.len() as usize),
            ..self
        }
    }

    /// Every count of `writes`, in turn, is at most what is pending then.
    pub open spec fn accepts(self, writes: Seq<nat>) -> bool
        decreases writes.len(),
    {
        writes.len() == 0 || (writes[0] <= self.pending().len() && self.consumed(writes[0]).accepts(
            writes.drop_first(),
        ))
    }

    /// The state after the sink accepted the counts of `writes` in turn.
    pub open spec fn drained(self, writes: Seq<nat>) -> SendBufferView
        decreases writes.len(),
    {
        if writes.len() == 0 {
            self
        } else {
            self.consumed(writes[0]).drained(writes.drop_first())
        }
    }

    /// The bytes the sink received over those writes.
    pub open spec fn handed_over(self, writes: Seq<nat>) -> Seq<u8>
        decreases writes.len(),
    {
        if writes.len() == 0 {
            Seq::empty()
        } else {
            self.pending().take(writes[0] as int) + self.consumed(writes[0]).handed_over(
                writes.drop_first(),
            )
        }
    }

    pub open spec fn spec_can_read(self) -> bool {
        self.state is Reading || self.position != 0
    }
}

/// The chunks of a message as queued payloads.
pub open spec fn spec_chunk_payloads(chunks: Seq<MessageChunk>) -> Seq<PendingPayload> {
    chunks.map_values(|c: MessageChunk| PendingPayload::Chunk(c))
}

/// Whether a message of `count` chunks exceeds a chunk limit (0: no limit).
pub open spec fn spec_too_many_chunks(max_chunk_count: usize, count: nat) -> bool {
    max_chunk_count > 0 && count > max_chunk_count
}

/// The new value of a limit revised to `proposed`: only ever lowered, and a
/// proposal of 0 (no limit) leaves it as it is.
pub open spec fn spec_revised_limit(current: usize, proposed: usize) -> usize {
    if current > proposed && proposed > 0 { proposed } else { current }
}

// The send buffer works as follows:
//  - `write`, `write_ack` and `write_error` queue payloads.
//  - `encode_next_chunk` moves the next payload into the scratch buffer
//    (a service chunk passes through the secure channel on the way, see
//    `set_encoded_chunk`), which starts the reading phase.
//  - `pending_data` and `consume` drain the scratch buffer into the sink.
//    Once it is exhausted, the buffer is back in the writing phase.
impl SendBuffer {
    /// Create a new send buffer with the given initial limits.
    pub fn new(
        buffer_size: usize,
        max_message_size: usize,
        max_chunk_count: usize,
        sequence_numbers_legacy: bool,
    ) -> (r: Self)
        ensures
            r@.wf(),
            r@.state == SendBufferState::Writing,
            r@.queue.len() == 0,
            r@.last_request_id == 1000,
            r@.sequence == (SequenceView {
                is_legacy: sequence_numbers_legacy,
                current: spec_min_sequence(sequence_numbers_legacy),
            }),
            r@.max_message_size == max_message_size,
            r@.max_chunk_count == max_chunk_count,
            r@.send_buffer_size == buffer_size,
    {
        Self {
            buffer: Vec::new(),
            position: 0,
            chunks: VecDeque::new(),
            last_request_id: 1000,
            sequence_numbers: SequenceNumberHandle::new(sequence_numbers_legacy),
            max_message_size,
            max_chunk_count,
            send_buffer_size: buffer_size,
            state: SendBufferState::Writing,
        }
    }

    /// Move the next queued payload towards the scratch buffer. An Acknowledge
    /// or Error frame is encoded into it at once. A service chunk is returned
    /// instead: the caller secures it with the channel and hands the result to
    /// `set_encoded_chunk`. Fails with `BadInvalidState` while the scratch
    /// buffer is being drained; does nothing when the queue is empty.
    pub fn encode_next_chunk(&mut self) -> (r: Result<Option<MessageChunk>, StatusCode>)
        requires
            old(self)@.wf(),
        ensures
            final(self)@.wf(),
            old(self)@.state is Reading ==> r == Err::<Option<MessageChunk>, StatusCode>(
                StatusCode::BadInvalidState,
            ) && final(self)@ == old(self)@,
            old(self)@.state is Writing && old(self)@.queue.len() == 0 ==> r == Ok::<
                Option<MessageChunk>,
                StatusCode,
            >(None) && final(self)@ == old(self)@,
            old(self)@.state is Writing && old(self)@.queue.len() > 0 ==> {
                let rest = SendBufferView { queue: old(self)@.queue.drop_first(), ..old(self)@ };
                match old(self)@.queue[0] {
                    PendingPayload::Chunk(c) => r == Ok::<Option<MessageChunk>, StatusCode>(
                        Some(c),
                    ) && final(self)@ == rest,
                    PendingPayload::Ack(a) => r == Ok::<Option<MessageChunk>, StatusCode>(None)
                        && final(self)@ == rest.loaded(spec_ack_bytes(a)),
                    PendingPayload::Error(e) => if spec_reason_bytes(e).len() <= MAX_REASON_LEN {
                        r == Ok::<Option<MessageChunk>, StatusCode>(None) && final(self)@
                            == rest.loaded(spec_error_bytes(e))
                    } else {
                        r == Err::<Option<MessageChunk>, StatusCode>(
                            StatusCode::BadEncodingLimitsExceeded,
                        ) && final(self)@ == rest
                    },
                }
            },
    {
        if let SendBufferState::Reading(_) = self.state {
            return Err(StatusCode::BadInvalidState);
        }
        let next_chunk = match self.chunks.pop_front() {
            Some(p) => p,
            None => return Ok(None),
        };
        match next_chunk {
            PendingPayload::Chunk(c) => Ok(Some(c)),
            PendingPayload::Ack(a) => {
                let bytes = a.encode();
                self.load(bytes);
                Ok(None)
            },
            PendingPayload::Error(e) => {
                let bytes = e.encode()?;
                self.load(bytes);
                Ok(None)
            },
        }
    }

    /// Put the secured bytes of the chunk that `encode_next_chunk` returned
    /// into the scratch buffer, which starts draining them.
    pub fn set_encoded_chunk(&mut self, bytes: Vec<u8>)
        requires
            old(self)@.wf(),
            old(self)@.state is Writing,
        ensures
            final(self)@.wf(),
            final(self)@ == old(self)@.loaded(bytes@),
    {
        self.load(bytes);
    }

    fn load(&mut self, bytes: Vec<u8>)
        requires
            old(self)@.wf(),
        ensures
            final(self)@.wf(),
            final(self)@ == old(self)@.loaded(bytes@),
    {
        let size = bytes.len();
        self.buffer = bytes;
        self.position = 0;
        self.state = SendBufferState::Reading(size);
    }

    /// Set whether we are using legacy sequence numbers or not.
    /// This depends on the active security policy.
    pub fn set_sequence_number_legacy(&mut self, is_legacy: bool)
        requires
            old(self)@.wf(),
        ensures
            final(self)@.wf(),
            final(self)@ == (SendBufferView {
                sequence: final(self)@.sequence,
                ..old(self)@
            }),
            final(self)@.sequence.is_legacy == is_legacy,
            final(self)@.sequence.current == (if spec_min_sequence(is_legacy)
                <= old(self)@.sequence.current <= spec_max_sequence(is_legacy) {
                old(self)@.sequence.current
            } else {
                spec_min_sequence(is_legacy)
            }),
    {
        self.sequence_numbers.set_is_legacy(is_legacy);
    }

    /// Clear the list of pending messages, then add an error.
    pub fn write_error(&mut self, error: ErrorMessage)
        requires
            old(self)@.wf(),
        ensures
            final(self)@.wf(),
            final(self)@ == (SendBufferView {
                queue: seq![PendingPayload::Error(error)],
                ..old(self)@
            }),
    {
        self.chunks.clear();
        self.chunks.push_back(PendingPayload::Error(error));
        assert(self.chunks@ =~= seq![PendingPayload::Error(error)]);
    }

    /// Write an acknowledge message to the list of pending messages.
    pub fn write_ack(&mut self, ack: AcknowledgeMessage)
        requires
            old(self)@.wf(),
        ensures
            final(self)@.wf(),
            final(self)@ == (SendBufferView {
                queue: old(self)@.queue.push(PendingPayload::Ack(ack)),
                ..old(self)@
            }),
    {
        self.chunks.push_back(PendingPayload::Ack(ack));
    }

    /// Queue the chunks that the channel's chunker made of a message for
    /// `request_id`, numbered from `sequence_numbers()`. An error of the
    /// chunker (such as `BadRequestTooLarge`) is returned as it is. Fails
    /// with `BadCommunicationError`, queueing nothing, when the chunks are
    /// more than `max_chunk_count` (if nonzero). On success the outbound
    /// sequence counter moves on by the number of chunks.
    pub fn write(&mut self, request_id: u32, encoded: Result<Vec<MessageChunk>, StatusCode>) -> (r:
        Result<u32, StatusCode>)
        requires
            old(self)@.wf(),
        ensures
            final(self)@.wf(),
            encoded is Err ==> r == Err::<u32, StatusCode>(encoded->Err_0) && final(self)@ == old(
                self,
            )@,
            encoded is Ok && spec_too_many_chunks(old(self)@.max_chunk_count, encoded->Ok_0@.len())
                ==> r == Err::<u32, StatusCode>(StatusCode::BadCommunicationError) && final(self)@
                == old(self)@,
            encoded is Ok && !spec_too_many_chunks(
                old(self)@.max_chunk_count,
                encoded->Ok_0@.len(),
            ) ==> r == Ok::<u32, StatusCode>(request_id) && final(self)@ == (SendBufferView {
                queue: old(self)@.queue + spec_chunk_payloads(encoded->Ok_0@),
                sequence: SequenceView {
                    current: spec_advance(
                        old(self)@.sequence.is_legacy,
                        old(self)@.sequence.current,
                        encoded->Ok_0@.len(),
                    ),
                    ..old(self)@.sequence
                },
                ..old(self)@
            }),
    {
        let chunks = match encoded {
            Ok(chunks) => chunks,
            Err(e) => return Err(e),
        };
        let count = chunks.len();
        if self.max_chunk_count > 0 && count > self.max_chunk_count {
            return Err(StatusCode::BadCommunicationError);
        }
        // Sequence number monotonically increases per chunk
        self.sequence_numbers.increment(count);
        let ghost queue0 = self.chunks@;
        let ghost pre = self@;
        let ghost all = chunks@;
        let mut chunks = chunks;
        let mut i: usize = 0;
        while chunks.len() > 0
            invariant
                i + chunks@.len() == count,
                all.len() == count,
                chunks@ == all.skip(i as int),
                self.chunks@ == queue0 + spec_chunk_payloads(all.take(i as int)),
                self@ == (SendBufferView { queue: self.chunks@, ..pre }),
                pre.wf(),
            decreases chunks@.len(),
        {
            let c = chunks.remove(0);
            self.chunks.push_back(PendingPayload::Chunk(c));
            proof {
                assert(all.take(i + 1) =~= all.take(i as int).push(all[i as int]));
                assert(spec_chunk_payloads(all.take(i + 1)) =~= spec_chunk_payloads(
                    all.take(i as int),
                ).push(PendingPayload::Chunk(all[i as int])));
            }
            i = i + 1;
            assert(chunks@ =~= all.skip(i as int));
        }
        assert(all.take(count as int) =~= all);
        Ok(request_id)
    }

    /// Get the next request ID.
    pub fn next_request_id(&mut self) -> (r: u32)
        requires
            old(self)@.wf(),
            old(self)@.last_request_id < u32::MAX,
        ensures
            final(self)@.wf(),
            r == old(self)@.last_request_id + 1,
            final(self)@ == (SendBufferView { last_request_id: r, ..old(self)@ }),
    {
        self.last_request_id = self.last_request_id + 1;
        self.last_request_id
    }

    /// The last request id handed out.
    pub fn last_request_id(&self) -> (r: u32)
        ensures
            r == self@.last_request_id,
    {
        self.last_request_id
    }

    /// The outbound sequence-number state, from which the chunker numbers
    /// the chunks of the next message.
    pub fn sequence_numbers(&self) -> (r: SequenceNumberHandle)
        ensures
            r@ == self@.sequence,
    {
        self.sequence_numbers
    }

    /// How many payloads wait in the queue.
    pub fn queued_payloads(&self) -> (r: usize)
        ensures
            r == self@.queue.len(),
    {
        self.chunks.len()
    }

    /// The bytes of the scratch buffer that the sink has not yet accepted.
    pub fn pending_data(&self) -> (r: &[u8])
        requires
            self@.wf(),
        ensures
            r@ == self@.pending(),
    {
        match self.state {
            SendBufferState::Reading(end) => slice_subrange(
                self.buffer.as_slice(),
                self.position,
                end,
            ),
            SendBufferState::Writing => {
                let r = slice_subrange(self.buffer.as_slice(), 0, 0);
                assert(r@ =~= Seq::<u8>::empty());
                r
            },
        }
    }

    /// Record that the sink accepted `written` bytes of `pending_data`. The
    /// read position moves only here, after the sink has answered, so a
    /// write that is abandoned before this call loses and repeats nothing.
    /// Once everything is drained the buffer is back in the writing phase.
    pub fn consume(&mut self, written: usize)
        requires
            old(self)@.wf(),
            written <= old(self)@.pending().len(),
        ensures
            final(self)@.wf(),
            final(self)@ == old(self)@.consumed(written as nat),
            final(self)@.pending() == old(self)@.pending().subrange(
                written as int,
                old(self)@.pending().len() as int,
            ),
    {
        if let SendBufferState::Reading(end) = self.state {
            self.position = self.position + written;
            if end == self.position {
                self.state = SendBufferState::Writing;
                self.position = 0;
            }
        }
        assert(final(self)@.pending() =~= old(self)@.pending().subrange(
            written as int,
            old(self)@.pending().len() as int,
        ));
    }

    /// Return `true` if we should encode a new chunk.
    pub fn should_encode_chunks(&self) -> (r: bool)
        ensures
            r == (self@.queue.len() > 0 && !self@.spec_can_read()),
    {
        self.chunks.len() > 0 && !self.can_read()
    }

    /// Check if we can read data from the buffer into the stream.
    pub fn can_read(&self) -> (r: bool)
        ensures
            r == self@.spec_can_read(),
    {
        matches!(self.state, SendBufferState::Reading(_)) || self.position != 0
    }

    /// Revise the limits with the result of a hello/acknowledge message.
    /// Limits are only ever lowered; a proposed value of 0 (no limit)
    /// changes nothing.
    pub fn revise(&mut self, send_buffer_size: usize, max_message_size: usize, max_chunk_count: usize)
        requires
            old(self)@.wf(),
        ensures
            final(self)@.wf(),
            final(self)@ == (SendBufferView {
                send_buffer_size: spec_revised_limit(old(self)@.send_buffer_size, send_buffer_size),
                max_message_size: spec_revised_limit(old(self)@.max_message_size, max_message_size),
                max_chunk_count: spec_revised_limit(old(self)@.max_chunk_count, max_chunk_count),
                ..old(self)@
            }),
    {
        if self.send_buffer_size > send_buffer_size && send_buffer_size > 0 {
            self.send_buffer_size = send_buffer_size;
        }
        if self.max_message_size > max_message_size && max_message_size > 0 {
            self.max_message_size = max_message_size;
        }
        if self.max_chunk_count > max_chunk_count && max_chunk_count > 0 {
            self.max_chunk_count = max_chunk_count;
        }
    }
}

/// Draining is lossless: the bytes the sink accepted, followed by the bytes
/// still pending afterwards, are exactly the bytes that were pending before.
/// A write that was abandoned before the sink answered changes nothing, so a
/// retry resumes the same byte stream.
pub proof fn lemma_drain_without_loss(before: SendBufferView, accepted: nat)
    requires
        before.wf(),
        accepted <= before.pending().len(),
    ensures
        before.consumed(accepted).wf(),
        before.pending() == before.pending().take(accepted as int) + before.consumed(
            accepted,
        ).pending(),
{
    assert(before.pending() =~= before.pending().take(accepted as int) + before.consumed(
        accepted,
    ).pending());
}

/// Over any run of writes, each cut short wherever the sink chose, the sink
/// receives a prefix of the pending bytes, and the rest is still pending:
/// nothing is lost and nothing is sent twice.
pub proof fn lemma_drain_run_without_loss(before: SendBufferView, writes: Seq<nat>)
    requires
        before.wf(),
        before.accepts(writes),
    ensures
        before.drained(writes).wf(),
        before.pending() == before.handed_over(writes) + before.drained(writes).pending(),
    decreases writes.len(),
{
    if writes.len() > 0 {
        let w = writes[0];
        let next = before.consumed(w);
        lemma_drain_without_loss(before, w);
        lemma_drain_run_without_loss(next, writes.drop_first());
        assert(before.pending() =~= before.handed_over(writes) + before.drained(writes).pending());
    }
}

} // verus!
