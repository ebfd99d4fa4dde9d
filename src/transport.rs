//! Transport state: the table of pending requests, inbound chunk
//! reassembly, deadlines and shutdown.
//!
//! The state decides; the caller performs. Each operation that ends a
//! request returns a `Delivery` (or the ids of the requests), and the caller
//! completes the request's callback with it.

use crate::chunk::{MessageChunk, MessageChunkWithChunkInfo, MessageIsFinalType};
use crate::frames::{AcknowledgeMessage, ErrorMessage};
use crate::merge::{merge_chunks, spec_merged};
use crate::pending::{
    lemma_delivered_once, lemma_filter_all, lemma_filter_push, lemma_filter_subset,
    lemma_remove_request, spec_expired_at, spec_for_request, spec_ids, spec_is_pending, spec_not,
    spec_unique_ids, MessageStateView,
};
use crate::send_buffer::{SendBuffer, SendBufferView};
use crate::sequence::{spec_max_sequence, spec_min_sequence, SequenceNumberHandle, SequenceView};
use crate::status::{spec_is_good, StatusCode};
use vstd::prelude::*;

verus! {

/// Result of polling a transport implementation.
/// This represents a single iteration of the transport event loop.
#[derive(Debug, Clone, Copy, PartialEq, Eq, Structural)]
pub enum TransportPollResult {
    /// An outgoing message was received and enqueued.
    OutgoingMessage,
    /// An outgoing message was sent to the server.
    OutgoingMessageSent,
    /// An incoming message was received from the server.
    IncomingMessage,
    /// An error occured that is recoverable, so the transport can continue and
    /// simply fail the request.
    RecoverableError(StatusCode),
    /// The transport was closed with the given status code.
    Closed(StatusCode),
}

/// A frame received from the server. A chunk arrives with its security
/// already removed and its header fields read.
#[derive(Debug)]
pub enum Message {
    Hello,
    Acknowledge(AcknowledgeMessage),
    Error(ErrorMessage),
    Chunk(MessageChunkWithChunkInfo),
}

/// How a pending request ends; the caller completes its callback with it.
#[derive(Debug)]
pub enum Delivery {
    /// Fail the request with this status.
    Failed(u32, StatusCode),
    /// All chunks of the response are in, merged in sequence-number order:
    /// decode them and complete the request with the response.
    Complete(u32, Vec<MessageChunk>),
}

/// State of one pending request.
pub struct MessageState {
    pub request_id: u32,
    pub chunks: Vec<MessageChunkWithChunkInfo>,
    pub deadline: u64,
}

impl View for MessageState {
    type V = MessageStateView;

    open spec fn view(&self) -> MessageStateView {
        MessageStateView { request_id: self.request_id, chunks: self.chunks@, deadline: self.deadline }
    }
}

/// The abstract states of a sequence of entries.
pub open spec fn spec_views(s: Seq<MessageState>) -> Seq<MessageStateView> {
    s.map_values(|m: MessageState| m@)
}

/// The entry of request `id` (the one entry, in a table without repeats).
pub open spec fn spec_entry(s: Seq<MessageStateView>, id: u32) -> MessageStateView {
    s[choose|i: int| 0 <= i < s.len() && #[trigger] s[i].request_id == id]
}

/// The earliest deadline among the entries, if any.
pub open spec fn spec_earliest(s: Seq<MessageStateView>) -> Option<u64>
    decreases s.len(),
{
    if s.len() == 0 {
        None
    } else {
        let d = s.last().deadline;
        match spec_earliest(s.drop_last()) {
            None => Some(d),
            Some(t) => Some(if t > d { d } else { t }),
        }
    }
}

/// The status reported to pending requests when the transport closes with
/// `status`: they did not succeed, so a good status becomes
/// `BadConnectionClosed`.
pub open spec fn spec_request_status(status: StatusCode) -> StatusCode {
    if spec_is_good(status) { StatusCode::BadConnectionClosed } else { status }
}

/// Abstract state of a `TransportState`.
pub ghost struct TransportView {
    pub pending: Seq<MessageStateView>,
    pub max_pending_incoming: usize,
    pub sequence: SequenceView,
    pub receive_buffer_size: usize,
}

impl TransportView {
    pub open spec fn wf(self) -> bool {
        &&& spec_unique_ids(self.pending)
        &&& self.sequence.wf()
    }

    /// The table without the entry of request `id`.
    pub open spec fn without(self, id: u32) -> TransportView {
        TransportView { pending: self.pending.filter(spec_not(spec_for_request(id))), ..self }
    }
}

/// What processing an inbound chunk does. A chunk of no pending request is
/// dropped. Otherwise, by its finality: an intermediate chunk is added to
/// the request's chunks, and fails the request with
/// `BadEncodingLimitsExceeded` when that makes more than
/// `max_pending_incoming` (if nonzero); a final-error chunk fails it with
/// `BadCommunicationError`; a final chunk completes it with the merge of all
/// its chunks. A request that ends leaves the table.
pub open spec fn spec_chunk_processed(
    pre: TransportView,
    chunk: MessageChunkWithChunkInfo,
    post: TransportView,
    r: Option<Delivery>,
) -> bool {
    let id = chunk.header.request_id;
    if !spec_is_pending(pre.pending, id) {
        post == pre && r is None
    } else {
        let gathered = spec_entry(pre.pending, id).chunks.push(chunk);
        match chunk.header.is_final {
            MessageIsFinalType::Intermediate => if pre.max_pending_incoming > 0 && gathered.len()
                > pre.max_pending_incoming {
                post == pre.without(id) && r == Some(
                    Delivery::Failed(id, StatusCode::BadEncodingLimitsExceeded),
                )
            } else {
                r is None && post == TransportView {
                    pending: pre.pending.map_values(
                        |x: MessageStateView|
                            if x.request_id == id {
                                MessageStateView { chunks: gathered, ..x }
                            } else {
                                x
                            },
                    ),
                    ..pre
                }
            },
            MessageIsFinalType::FinalError => post == pre.without(id) && r == Some(
                Delivery::Failed(id, StatusCode::BadCommunicationError),
            ),
            MessageIsFinalType::Final => post == pre.without(id) && match r {
                Some(Delivery::Complete(rid, merged)) => rid == id && spec_merged(
                    gathered,
                    merged@,
                ),
                _ => false,
            },
        }
    }
}

/// State of the client side of a transport.
pub struct TransportState {
    /// State of pending requests.
    message_states: Vec<MessageState>,
    /// Max pending incoming chunks of one message; 0 for no limit.
    max_pending_incoming: usize,
    /// Last decoded sequence number.
    sequence_numbers: SequenceNumberHandle,
    /// Max size of incoming chunks.
    receive_buffer_size: usize,
}

impl View for TransportState {
    type V = TransportView;

    closed spec fn view(&self) -> TransportView {
        TransportView {
            pending: spec_views(self.message_states@),
            max_pending_incoming: self.max_pending_incoming,
            sequence: self.sequence_numbers@,
            receive_buffer_size: self.receive_buffer_size,
        }
    }
}

impl TransportState {
    /// A transport with no pending requests.
    pub fn new(
        max_pending_incoming: usize,
        receive_buffer_size: usize,
        legacy_sequence_numbers: bool,
    ) -> (r: Self)
        ensures
            r@.wf(),
            r@.pending.len() == 0,
            r@.max_pending_incoming == max_pending_incoming,
            r@.receive_buffer_size == receive_buffer_size,
            r@.sequence == (SequenceView {
                is_legacy: legacy_sequence_numbers,
                current: spec_min_sequence(legacy_sequence_numbers),
            }),
    {
        let r = Self {
            message_states: Vec::new(),
            max_pending_incoming,
            sequence_numbers: SequenceNumberHandle::new(legacy_sequence_numbers),
            receive_buffer_size,
        };
        assert(r@.pending =~= Seq::<MessageStateView>::empty());
        r
    }

    /// Index of the entry of request `id`.
    fn find(&self, id: u32) -> (r: Option<usize>)
        ensures
            match r {
                Some(i) => i < self@.pending.len() && self@.pending[i as int].request_id == id,
                None => !spec_is_pending(self@.pending, id),
            },
    {
        let mut i: usize = 0;
        while i < self.message_states.len()
            invariant
                i <= self.message_states@.len(),
                self@.pending.len() == self.message_states@.len(),
                forall|k: int| 0 <= k < i ==> #[trigger] self@.pending[k].request_id != id,
            decreases self.message_states@.len() - i,
        {
            if self.message_states[i].request_id == id {
                return Some(i);
            }
            i = i + 1;
        }
        None
    }

    /// Take out the entry at index `i`.
    fn take_entry(&mut self, i: usize) -> (r: MessageState)
        requires
            old(self)@.wf(),
            i < old(self)@.pending.len(),
        ensures
            final(self)@.wf(),
            r@ == old(self)@.pending[i as int],
            final(self)@ == old(self)@.without(old(self)@.pending[i as int].request_id),
            !spec_is_pending(final(self)@.pending, old(self)@.pending[i as int].request_id),
    {
        let ghost pre = self@;
        let r = self.message_states.remove(i);
        proof {
            lemma_remove_request(pre.pending, i as int);
            assert(self@.pending =~= pre.pending.remove(i as int));
            lemma_delivered_once(pre.pending, spec_for_request(r.request_id));
            lemma_filter_subset(pre.pending, spec_for_request(r.request_id));
            assert(pre.pending.filter(spec_for_request(r.request_id))[0] == pre.pending[i as int]);
            assert(spec_is_pending(pre.pending.filter(spec_for_request(r.request_id)), r.request_id));
        }
        r
    }

    /// Whether request `id` is pending.
    pub fn is_pending(&self, id: u32) -> (r: bool)
        ensures
            r == spec_is_pending(self@.pending, id),
    {
        self.find(id).is_some()
    }

    /// How many requests are pending.
    pub fn pending_count(&self) -> (r: usize)
        ensures
            r == self@.pending.len(),
    {
        self.message_states.len()
    }

    /// The inbound sequence-number state, against which the chunker checks
    /// the chunks of a response.
    pub fn sequence_numbers(&self) -> (r: SequenceNumberHandle)
        ensures
            r@ == self@.sequence,
    {
        self.sequence_numbers
    }

    /// Record the sequence number that the chunker reached on a response.
    pub fn set_sequence_number(&mut self, value: u32)
        requires
            old(self)@.wf(),
            spec_min_sequence(old(self)@.sequence.is_legacy) <= value <= spec_max_sequence(
                old(self)@.sequence.is_legacy,
            ),
        ensures
            final(self)@.wf(),
            final(self)@ == (TransportView {
                sequence: SequenceView { current: value, ..old(self)@.sequence },
                ..old(self)@
            }),
    {
        self.sequence_numbers.set(value);
    }

    /// Take the next request id from the send buffer for an outgoing
    /// message. If the caller wants a response, a pending entry with the
    /// message's deadline and no chunks is put in the table (in place of any
    /// entry that had the same id).
    pub fn register_outgoing_message(
        &mut self,
        send_buffer: &mut SendBuffer,
        wants_response: bool,
        deadline: u64,
    ) -> (r: u32)
        requires
            old(self)@.wf(),
            old(send_buffer)@.wf(),
            old(send_buffer)@.last_request_id < u32::MAX,
        ensures
            final(self)@.wf(),
            final(send_buffer)@.wf(),
            r == old(send_buffer)@.last_request_id + 1,
            final(send_buffer)@ == (SendBufferView { last_request_id: r, ..old(send_buffer)@ }),
            wants_response ==> final(self)@ == (TransportView {
                pending: old(self)@.without(r).pending.push(
                    MessageStateView { request_id: r, chunks: Seq::empty(), deadline },
                ),
                ..old(self)@
            }),
            !wants_response ==> final(self)@ == old(self)@,
    {
        let request_id = send_buffer.next_request_id();
        if wants_response {
            let ghost pre = self@;
            match self.find(request_id) {
                Some(i) => {
                    let _replaced = self.take_entry(i);
                },
                None => {
                    proof {
                        assert forall|k: int| 0 <= k < pre.pending.len() implies spec_not(
                            spec_for_request(request_id),
                        )(#[trigger] pre.pending[k]) by {}
                        lemma_filter_all(pre.pending, spec_not(spec_for_request(request_id)));
                    }
                },
            }
            let ghost mid = self@;
            self.message_states.push(MessageState { request_id, chunks: Vec::new(), deadline });
            proof {
                lemma_filter_subset(pre.pending, spec_not(spec_for_request(request_id)));
                assert(mid.pending == pre.without(request_id).pending);
                assert(self@.pending =~= mid.pending.push(
                    MessageStateView { request_id, chunks: Seq::empty(), deadline },
                ));
                assert forall|a: int, b: int|
                    0 <= a < self@.pending.len() && 0 <= b < self@.pending.len() && a
                        != b implies #[trigger] self@.pending[a].request_id
                    != #[trigger] self@.pending[b].request_id by {
                    if a < mid.pending.len() && b < mid.pending.len() {
                    } else if a < mid.pending.len() {
                        assert(spec_not(spec_for_request(request_id))(mid.pending[a]));
                    } else {
                        assert(spec_not(spec_for_request(request_id))(mid.pending[b]));
                    }
                }
            }
        }
        request_id
    }

    /// Store an incoming frame. A chunk is processed as
    /// `spec_chunk_processed` says; an Error frame surfaces its status (a
    /// good one is no error); an Acknowledge, which the client does not
    /// expect here, and any other frame fail with `BadUnexpectedError`.
    pub fn handle_incoming_message(&mut self, message: Message) -> (r: Result<
        Option<Delivery>,
        StatusCode,
    >)
        requires
            old(self)@.wf(),
        ensures
            final(self)@.wf(),
            match message {
                Message::Chunk(c) => r is Ok && spec_chunk_processed(
                    old(self)@,
                    c,
                    final(self)@,
                    r->Ok_0,
                ),
                Message::Error(e) => final(self)@ == old(self)@ && if spec_is_good(e.error) {
                    r is Ok && r->Ok_0 is None
                } else {
                    r == Err::<Option<Delivery>, StatusCode>(e.error)
                },
                _ => final(self)@ == old(self)@ && r == Err::<Option<Delivery>, StatusCode>(
                    StatusCode::BadUnexpectedError,
                ),
            },
    {
        match message {
            Message::Acknowledge(_) => Err(StatusCode::BadUnexpectedError),
            Message::Chunk(chunk) => Ok(self.process_chunk(chunk)),
            Message::Error(error) => {
                if error.error.is_good() {
                    Ok(None)
                } else {
                    Err(error.error)
                }
            },
            Message::Hello => Err(StatusCode::BadUnexpectedError),
        }
    }

    /// Process an inbound chunk (security already removed), as
    /// `spec_chunk_processed` says.
    pub fn process_chunk(&mut self, chunk: MessageChunkWithChunkInfo) -> (r: Option<Delivery>)
        requires
            old(self)@.wf(),
        ensures
            final(self)@.wf(),
            spec_chunk_processed(old(self)@, chunk, final(self)@, r),
    {
        let ghost pre = self@;
        let req_id = chunk.header.request_id;
        // Chunks without a corresponding request are dropped.
        let i = match self.find(req_id) {
            Some(i) => i,
            None => return None,
        };
        proof {
            let j = choose|j: int| 0 <= j < pre.pending.len() && #[trigger] pre.pending[j].request_id == req_id;
            assert(j == i);
        }
        let ghost gathered = pre.pending[i as int].chunks.push(chunk);
        match chunk.header.is_final {
            MessageIsFinalType::Intermediate => {
                let ghost entry0 = self.message_states@[i as int];
                self.message_states[i].chunks.push(chunk);
                let chunks_len = self.message_states[i].chunks.len();
                proof {
                    let upd = pre.pending.map_values(
                        |x: MessageStateView|
                            if x.request_id == req_id {
                                MessageStateView { chunks: gathered, ..x }
                            } else {
                                x
                            },
                    );
                    assert forall|k: int| 0 <= k < self@.pending.len() implies #[trigger] self@.pending[k] == upd[k] by {
                        if k != i {
                            assert(pre.pending[k].request_id != req_id);
                        }
                    }
                    assert(self@.pending =~= upd);
                    assert(self@.pending.len() == pre.pending.len());
                    assert forall|a: int, b: int|
                        0 <= a < self@.pending.len() && 0 <= b < self@.pending.len() && a
                            != b implies #[trigger] self@.pending[a].request_id
                        != #[trigger] self@.pending[b].request_id by {
                        assert(pre.pending[a].request_id != pre.pending[b].request_id);
                    }
                }
                if self.max_pending_incoming > 0 && chunks_len > self.max_pending_incoming {
                    let ghost mid = self@;
                    let _dropped = self.take_entry(i);
                    proof {
                        lemma_remove_request(mid.pending, i as int);
                        lemma_remove_request(pre.pending, i as int);
                        assert(mid.pending.remove(i as int) =~= pre.pending.remove(i as int));
                    }
                    Some(Delivery::Failed(req_id, StatusCode::BadEncodingLimitsExceeded))
                } else {
                    None
                }
            },
            MessageIsFinalType::FinalError => {
                let _dropped = self.take_entry(i);
                Some(Delivery::Failed(req_id, StatusCode::BadCommunicationError))
            },
            MessageIsFinalType::Final => {
                let mut state = self.take_entry(i);
                state.chunks.push(chunk);
                let merged = merge_chunks(state.chunks);
                match merged {
                    Ok(in_chunks) => Some(Delivery::Complete(req_id, in_chunks)),
                    Err(_) => None,
                }
            },
        }
    }

    /// What the callback of a completed request receives, given what the
    /// chunker made of its merged chunks: the response and the inbound
    /// sequence number it reached, or its error. The sequence number is
    /// recorded; one outside the policy's range fails the request with
    /// `BadUnexpectedError` instead. Either way the callback gets exactly
    /// this result, and an error is also reported upwards.
    pub fn complete_response<R>(&mut self, decoded: Result<(R, u32), StatusCode>) -> (r: Result<
        R,
        StatusCode,
    >)
        requires
            old(self)@.wf(),
        ensures
            final(self)@.wf(),
            match decoded {
                Ok((response, reached)) => if spec_min_sequence(old(self)@.sequence.is_legacy)
                    <= reached <= spec_max_sequence(old(self)@.sequence.is_legacy) {
                    r == Ok::<R, StatusCode>(response) && final(self)@ == (TransportView {
                        sequence: SequenceView { current: reached, ..old(self)@.sequence },
                        ..old(self)@
                    })
                } else {
                    r == Err::<R, StatusCode>(StatusCode::BadUnexpectedError) && final(self)@
                        == old(self)@
                },
                Err(e) => r == Err::<R, StatusCode>(e) && final(self)@ == old(self)@,
            },
    {
        match decoded {
            Ok((response, reached)) => {
                if self.sequence_numbers.min_value() <= reached
                    && reached <= self.sequence_numbers.max_value() {
                    self.sequence_numbers.set(reached);
                    Ok(response)
                } else {
                    Err(StatusCode::BadUnexpectedError)
                }
            },
            Err(e) => Err(e),
        }
    }

    /// Fail request `request_id`, if it is pending, with `err`: sending its
    /// message did not succeed.
    pub fn message_send_failed(&mut self, request_id: u32, err: StatusCode) -> (r: Option<
        Delivery,
    >)
        requires
            old(self)@.wf(),
        ensures
            final(self)@.wf(),
            spec_is_pending(old(self)@.pending, request_id) ==> final(self)@ == old(self)@.without(
                request_id,
            ) && r == Some(Delivery::Failed(request_id, err)),
            !spec_is_pending(old(self)@.pending, request_id) ==> final(self)@ == old(self)@
                && r is None,
    {
        match self.find(request_id) {
            Some(i) => {
                let _dropped = self.take_entry(i);
                Some(Delivery::Failed(request_id, err))
            },
            None => None,
        }
    }

    /// Take out every request whose deadline is not after `now`; the caller
    /// fails each with `BadTimeout`. Returns the earliest deadline among
    /// the requests that remain, if any, and the ids taken out.
    pub fn next_timeout(&mut self, now: u64) -> (r: (Option<u64>, Vec<u32>))
        requires
            old(self)@.wf(),
        ensures
            final(self)@.wf(),
            final(self)@ == (TransportView {
                pending: old(self)@.pending.filter(spec_not(spec_expired_at(now))),
                ..old(self)@
            }),
            r.1@ == spec_ids(old(self)@.pending.filter(spec_expired_at(now))),
            r.0 == spec_earliest(final(self)@.pending),
    {
        let ghost pre = self@;
        let ghost p = spec_expired_at(now);
        let ghost q = spec_not(p);
        let mut states: Vec<MessageState> = Vec::new();
        std::mem::swap(&mut states, &mut self.message_states);
        let ghost all = spec_views(states@);
        let n0 = states.len();
        let mut next_timeout: Option<u64> = None;
        let mut timed_out: Vec<u32> = Vec::new();
        let mut i: usize = 0;
        proof {
            reveal(Seq::filter);
            assert(all =~= pre.pending);
            assert(all.len() == states@.len());
            assert(all.len() == n0);
            assert(all.take(0) =~= Seq::<MessageStateView>::empty());
            assert(spec_views(self.message_states@) =~= all.take(0).filter(q));
            assert(timed_out@ =~= spec_ids(all.take(0).filter(p)));
            assert(spec_views(states@) =~= all.skip(0));
        }
        while states.len() > 0
            invariant
                all == pre.pending,
                i <= all.len(),
                all.len() <= usize::MAX,
                spec_views(states@) == all.skip(i as int),
                spec_views(self.message_states@) == all.take(i as int).filter(q),
                timed_out@ == spec_ids(all.take(i as int).filter(p)),
                next_timeout == spec_earliest(all.take(i as int).filter(q)),
                self.max_pending_incoming == pre.max_pending_incoming,
                self.sequence_numbers@ == pre.sequence,
                self.receive_buffer_size == pre.receive_buffer_size,
                p == spec_expired_at(now),
                q == spec_not(p),
            decreases states@.len(),
        {
            let ghost before = all.take(i as int);
            let ghost states0 = states@;
            let st = states.remove(0);
            proof {
                assert(st == states0[0]);
                assert(spec_views(states0).len() == states0.len());
                assert(i < all.len());
                assert(spec_views(states0)[0] == states0[0]@);
                assert(spec_views(states0)[0] == all.skip(i as int)[0]);
                assert(all.skip(i as int)[0] == all[i as int]);
                assert(all[i as int] == st@);
                assert forall|k: int| 0 <= k < states@.len() implies #[trigger] spec_views(states@)[k]
                    == all.skip(i + 1)[k] by {
                    assert(states@[k] == states0[k + 1]);
                    assert(spec_views(states0)[k + 1] == all.skip(i as int)[k + 1]);
                }
                assert(spec_views(states@) =~= all.skip(i + 1));
                assert(all.take(i + 1) =~= before.push(st@));
                lemma_filter_push(before, st@, p);
                lemma_filter_push(before, st@, q);
            }
            if st.deadline <= now {
                timed_out.push(st.request_id);
                proof {
                    assert(timed_out@ =~= spec_ids(all.take(i + 1).filter(p)));
                }
            } else {
                let ghost kept = before.filter(q);
                next_timeout = match next_timeout {
                    Some(t) => if t > st.deadline { Some(st.deadline) } else { Some(t) },
                    None => Some(st.deadline),
                };
                self.message_states.push(st);
                proof {
                    assert(kept.push(st@).drop_last() =~= kept);
                    assert(spec_views(self.message_states@) =~= kept.push(st@));
                }
            }
            i = i + 1;
        }
        proof {
            assert(all.take(i as int) =~= all);
            lemma_delivered_once(pre.pending, p);
        }
        (next_timeout, timed_out)
    }

    /// Close the transport: every pending request leaves the table. Returns
    /// the status to fail them with (`BadConnectionClosed` in place of a
    /// good `status`: the requests did not succeed) and their ids.
    pub fn close(&mut self, status: StatusCode) -> (r: (StatusCode, Vec<u32>))
        requires
            old(self)@.wf(),
        ensures
            final(self)@.wf(),
            final(self)@ == (TransportView { pending: Seq::empty(), ..old(self)@ }),
            r.0 == spec_request_status(status),
            r.1@ == spec_ids(old(self)@.pending),
    {
        let request_status = if status.is_good() {
            StatusCode::BadConnectionClosed
        } else {
            status
        };
        let ghost pre = self@;
        let mut states: Vec<MessageState> = Vec::new();
        std::mem::swap(&mut states, &mut self.message_states);
        let mut ids: Vec<u32> = Vec::new();
        let mut i: usize = 0;
        while i < states.len()
            invariant
                spec_views(states@) == pre.pending,
                i <= states@.len(),
                ids@ == spec_ids(pre.pending).take(i as int),
            decreases states@.len() - i,
        {
            ids.push(states[i].request_id);
            i = i + 1;
            assert(ids@ =~= spec_ids(pre.pending).take(i as int));
        }
        assert(ids@ =~= spec_ids(pre.pending));
        assert(self@.pending =~= Seq::<MessageStateView>::empty());
        (request_status, ids)
    }
}

} // verus!
