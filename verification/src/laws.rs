//! What holds of the client as a whole.

use vstd::prelude::*;

use crate::block::{
    crc_fed, crc_xmodem, final_crc, nth_block_segment, unused_bytes, BlockStep, BlockView,
    MAX_BLOCK_SIZE,
};
use crate::client::{
    is_response, pending_after, request_frame, request_id, response_id, signalled, MAX_NODE_ID,
};
use crate::download::{announced_size, nth_segment, segment_bytes, segment_count, segment_end};
use crate::error::SdoError;
use crate::frame::{
    byte_range, law_le16_round_trip, law_le32_round_trip, le16, le32, le_value,
    lemma_le_value_bound, padded, FrameId, FrameView, FRAME_LEN, MAX_STANDARD_ID,
};
use crate::pending::{Channel, Pending};
use crate::request::{
    block_end_request, block_segment, download_request, download_segment, segment_command,
    segmented_download_request, SdoRequest,
};
use crate::response::{names_object, reply_to, BlockAck, BlockInit, Reply, SegmentView};
use crate::upload::{written, UploadView};

verus! {

// Identifiers.

/// The identifiers of every node are those of standard frames.
pub proof fn law_identifiers_are_standard(node_id: u8)
    requires
        node_id <= MAX_NODE_ID,
    ensures
        request_id(node_id) <= MAX_STANDARD_ID,
        response_id(node_id) <= MAX_STANDARD_ID,
{
}

/// No client takes a request, its own or another client's, for a response.
pub proof fn law_requests_are_not_responses(sender: u8, receiver: u8, payload: Seq<u8>)
    requires
        sender <= MAX_NODE_ID,
        receiver <= MAX_NODE_ID,
    ensures
        !is_response(receiver, FrameId::Standard(request_frame(sender, payload).id)),
{
}

/// A frame is the response of one node at most.
pub proof fn law_nodes_are_told_apart(one: u8, other: u8, id: FrameId)
    requires
        is_response(one, id),
        is_response(other, id),
    ensures
        one == other,
{
}

// Arriving frames.

/// A frame that is no response of the node changes nothing and signals nothing.
pub proof fn law_foreign_frames_are_ignored<E>(
    node_id: u8,
    pending: Option<Pending>,
    id: FrameId,
    data: Seq<u8>,
)
    requires
        !is_response(node_id, id),
    ensures
        signalled::<E>(node_id, pending, id, data) == None::<(Channel, Reply<E>)>,
        pending_after(node_id, pending, id) == pending,
{
}

/// A frame that comes while no request is in flight signals nothing.
pub proof fn law_unasked_frames_are_ignored<E>(node_id: u8, id: FrameId, data: Seq<u8>)
    ensures
        signalled::<E>(node_id, None, id, data) == None::<(Channel, Reply<E>)>,
        pending_after(node_id, None, id) == None::<Pending>,
{
}

/// A request is answered once: the first response ends it, and what comes after signals nothing.
pub proof fn law_one_answer_per_request<E>(
    node_id: u8,
    pending: Pending,
    id: FrameId,
    data: Seq<u8>,
    later_id: FrameId,
    later_data: Seq<u8>,
)
    requires
        is_response(node_id, id),
    ensures
        signalled::<E>(node_id, Some(pending), id, data) is Some,
        signalled::<E>(
            node_id,
            pending_after(node_id, Some(pending), id),
            later_id,
            later_data,
        ) == None::<(Channel, Reply<E>)>,
{
}

/// Every response reaches the request in flight: it comes on the signal on which the request
/// waits, and is either an error or of the type that this signal carries.
pub proof fn law_answers_reach_their_request<E>(
    node_id: u8,
    pending: Pending,
    id: FrameId,
    data: Seq<u8>,
)
    requires
        is_response(node_id, id),
    ensures
        signalled::<E>(node_id, Some(pending), id, data) matches Some((channel, reply)) && {
            &&& channel == pending.channel()
            &&& match reply {
                Reply::Word(_) => channel == Channel::Word,
                Reply::Segment(_) => channel == Channel::Segment,
                Reply::Ack => channel == Channel::Ack,
                Reply::BlockInit(_) => channel == Channel::BlockInit,
                Reply::BlockAck(_) => channel == Channel::BlockAck,
                Reply::Failed(_) => true,
            }
        },
{
}

/// The server's abort of a transfer is reported with its code, whatever the request.
pub proof fn law_aborts_are_reported<E>(pending: Pending, data: Seq<u8>, code: u32)
    requires
        data.len() == FRAME_LEN,
        data[0] == 0x80,
        data.subrange(4, 8) == le32(code),
    ensures
        reply_to::<E>(pending, data) == Reply::Failed(SdoError::<E>::SdoAbort(code)),
{
    law_le32_round_trip(code);
}

/// A frame that does not hold eight bytes is refused, whatever the request.
pub proof fn law_short_frames_are_refused<E>(pending: Pending, data: Seq<u8>)
    requires
        data.len() != FRAME_LEN,
    ensures
        reply_to::<E>(pending, data) == Reply::Failed(SdoError::<E>::InvalidResponse),
{
}

/// An answer that names another object than the request is refused, unless it is an abort.
pub proof fn law_other_objects_are_refused<E>(index: u16, sub: u8, data: Seq<u8>)
    requires
        data.len() == FRAME_LEN,
        data[0] != 0x80,
        !names_object(data, index, sub),
    ensures
        reply_to::<E>(Pending::ExpeditedRead { index, sub }, data) == Reply::Failed(
            SdoError::<E>::InvalidResponse,
        ),
        reply_to::<E>(Pending::ExpeditedWrite { index, sub }, data) == Reply::Failed(
            SdoError::<E>::InvalidResponse,
        ),
        reply_to::<E>(Pending::SegmentedDownloadInit { index, sub }, data) == Reply::Failed(
            SdoError::<E>::InvalidResponse,
        ),
        reply_to::<E>(Pending::BlockDownloadInitiate { index, sub }, data) == Reply::Failed(
            SdoError::<E>::InvalidResponse,
        ),
{
}

/// An answer that is right for one toggle bit is refused for the other.
pub proof fn law_repeated_toggles_are_refused<E>(toggle: bool, data: Seq<u8>)
    ensures
        reply_to::<E>(Pending::UploadSegment { toggle }, data) is Segment ==> reply_to::<E>(
            Pending::UploadSegment { toggle: !toggle },
            data,
        ) == Reply::Failed(SdoError::<E>::InvalidResponse),
        reply_to::<E>(Pending::DownloadSegment { toggle }, data) is Ack ==> reply_to::<E>(
            Pending::DownloadSegment { toggle: !toggle },
            data,
        ) == Reply::Failed(SdoError::<E>::InvalidResponse),
{
}

/// The server's confirmation of a write is accepted: of an object, if it names the object, and of a
/// segment, if it repeats the toggle bit.
pub proof fn law_confirmations_are_accepted<E>(index: u16, sub: u8, rest: Seq<u8>, toggle: bool)
    requires
        rest.len() <= 4,
    ensures
        ({
            let data = padded(seq![0x60u8] + le16(index) + seq![sub] + rest);
            &&& reply_to::<E>(Pending::ExpeditedWrite { index, sub }, data) == Reply::<E>::Ack
            &&& reply_to::<E>(Pending::SegmentedDownloadInit { index, sub }, data)
                == Reply::<E>::Ack
        }),
        ({
            let command: u8 = if toggle {
                0x30
            } else {
                0x20
            };
            reply_to::<E>(Pending::DownloadSegment { toggle }, padded(seq![command] + rest))
                == Reply::<E>::Ack
        }),
        reply_to::<E>(Pending::BlockDownloadEnd, padded(seq![0xA1u8] + rest)) == Reply::<E>::Ack,
{
    lemma_object_payload(0x60, index, sub, rest);
}

/// The server's agreement to a block write is read as it was sent.
pub proof fn law_block_agreement_is_read<E>(index: u16, sub: u8, init: BlockInit)
    ensures
        ({
            let command: u8 = if init.server_supports_crc {
                0xA4
            } else {
                0xA0
            };
            let data = padded(seq![command] + le16(index) + seq![sub] + seq![init.blksize]);
            reply_to::<E>(Pending::BlockDownloadInitiate { index, sub }, data)
                == Reply::<E>::BlockInit(init)
        }),
{
    lemma_object_payload(
        if init.server_supports_crc {
            0xA4
        } else {
            0xA0
        },
        index,
        sub,
        seq![init.blksize],
    );
}

/// The server's acknowledgement of a block is read as it was sent.
pub proof fn law_block_acknowledgement_is_read<E>(ack: BlockAck)
    ensures
        reply_to::<E>(
            Pending::BlockDownloadAck,
            padded(seq![0xA2u8, ack.ackseq, ack.next_blksize]),
        ) == Reply::<E>::BlockAck(ack),
{
}

// What is written can be read.

/// The bytes behind the command of a frame that names an object.
proof fn lemma_object_payload(command: u8, index: u16, sub: u8, rest: Seq<u8>)
    requires
        rest.len() <= 4,
    ensures
        ({
            let data = padded(seq![command] + le16(index) + seq![sub] + rest);
            &&& data.len() == FRAME_LEN
            &&& data[0] == command
            &&& names_object(data, index, sub)
            &&& data.subrange(4, 4 + rest.len() as int) == rest
            &&& forall|i: int| 4 + rest.len() <= i < 8 ==> data[i] == 0
        }),
{
    let data = padded(seq![command] + le16(index) + seq![sub] + rest);
    law_le16_round_trip(index);
    assert(data.subrange(1, 3) =~= le16(index));
    assert(data.subrange(4, 4 + rest.len() as int) =~= rest);
}

/// If the server sends a value of at most four bytes back as it was written, with the command of a
/// response, the read gives the number that the bytes stand for.
pub proof fn law_expedited_read_gives_back_write<E>(index: u16, sub: u8, bytes: Seq<u8>)
    requires
        1 <= bytes.len() <= 4,
    ensures
        ({
            let request = download_request(index, sub, bytes);
            let response = request.update(0, (request[0] + 0x20) as u8);
            reply_to::<E>(Pending::ExpeditedRead { index, sub }, response) == Reply::<E>::Word(
                le_value(bytes) as u32,
            )
        }),
        le_value(bytes) <= u32::MAX,
{
    let command = (0x23 + 4 * (4 - bytes.len())) as u8;
    let request = download_request(index, sub, bytes);
    let response = request.update(0, (request[0] + 0x20) as u8);
    lemma_object_payload(command, index, sub, bytes);
    lemma_object_payload((command + 0x20) as u8, index, sub, bytes);
    assert(response =~= padded(
        seq![(command + 0x20) as u8] + le16(index) + seq![sub] + bytes,
    ));
    lemma_le_value_bound(bytes);
    reveal_with_fuel(byte_range, 5);
}

/// The size of a segmented transfer is read as it was announced.
pub proof fn law_size_is_read_as_announced<E>(index: u16, sub: u8, size: u32)
    ensures
        reply_to::<E>(
            Pending::ExpeditedRead { index, sub },
            segmented_download_request(index, sub, size).update(0, 0x41),
        ) == Reply::<E>::Word(size),
{
    let request = segmented_download_request(index, sub, size);
    lemma_object_payload(0x41, index, sub, le32(size));
    assert(request.update(0, 0x41) =~= padded(
        seq![0x41u8] + le16(index) + seq![sub] + le32(size),
    ));
    law_le32_round_trip(size);
}

/// A value that 32 bits can count is announced with its size.
pub proof fn law_announced_size_is_exact(len: nat)
    requires
        len <= u32::MAX,
    ensures
        announced_size(len) == len,
{
}

/// A segment is read as it was written: its bytes, and whether it is the last.
pub proof fn law_segment_read_gives_back_write<E>(toggle: bool, last: bool, bytes: Seq<u8>)
    requires
        bytes.len() <= 7,
    ensures
        reply_to::<E>(Pending::UploadSegment { toggle }, download_segment(toggle, last, bytes))
            == Reply::<E>::Segment(SegmentView { last, bytes }),
{
    let data = download_segment(toggle, last, bytes);
    let command = segment_command(toggle, last, bytes.len());
    assert(data[0] == command);
    assert(command / 2 % 8 == 7 - bytes.len());
    assert(data.subrange(1, 1 + bytes.len() as int) =~= bytes);
}

/// The state of a segmented read, and the buffer, after the first `count` segments of `data`.
pub open spec fn read_state(data: Seq<u8>, buf: Seq<u8>, count: nat) -> (UploadView, Seq<u8>)
    decreases count,
{
    if count == 0 {
        (UploadView::start(data.len()), buf)
    } else {
        let number = (count - 1) as nat;
        let (state, so_far) = read_state(data, buf, number);
        let segment = SegmentView {
            last: count == segment_count(data.len()),
            bytes: segment_bytes(data, number),
        };
        (state.after(segment), written(so_far, state.offset as int, segment.bytes))
    }
}

/// After `count` segments their bytes stand at the front of the buffer, and nothing else has
/// changed.
proof fn lemma_read_state(data: Seq<u8>, buf: Seq<u8>, count: nat)
    requires
        data.len() <= buf.len(),
        count <= segment_count(data.len()),
    ensures
        ({
            let (state, so_far) = read_state(data, buf, count);
            &&& state.size == data.len()
            &&& state.offset == if 7 * count < data.len() {
                7 * count
            } else {
                data.len()
            }
            &&& count < segment_count(data.len()) ==> state.toggle == (count % 2 == 1)
            &&& so_far == data.take(state.offset as int) + buf.skip(state.offset as int)
        }),
    decreases count,
{
    if count == 0 {
        assert(buf =~= data.take(0) + buf.skip(0));
    } else {
        let number = (count - 1) as nat;
        lemma_read_state(data, buf, number);
        let (before, so_far) = read_state(data, buf, number);
        let (state, now) = read_state(data, buf, count);
        assert(now =~= data.take(state.offset as int) + buf.skip(state.offset as int));
    }
}

/// A segmented read gives back what a segmented write wrote: if the server answers the requests
/// for segments with the segments of the write, in order, then each is accepted, the last one ends
/// the read, and the buffer holds the value, with the rest of it untouched.
pub proof fn law_segmented_read_gives_back_write<E>(data: Seq<u8>, buf: Seq<u8>)
    requires
        data.len() <= buf.len(),
    ensures
        forall|number: nat|
            #![trigger nth_segment(data, number)]
            number < segment_count(data.len()) ==> {
                let state = read_state(data, buf, number).0;
                let segment = SegmentView {
                    last: number + 1 == segment_count(data.len()),
                    bytes: segment_bytes(data, number),
                };
                &&& reply_to::<E>(
                    Pending::UploadSegment { toggle: state.toggle },
                    nth_segment(data, number),
                ) == Reply::<E>::Segment(segment)
                &&& state.has_room(segment)
            },
        read_state(data, buf, segment_count(data.len())).1 == data + buf.skip(data.len() as int),
{
    assert forall|number: nat| number < segment_count(data.len()) implies {
        let state = read_state(data, buf, number).0;
        let segment = SegmentView {
            last: number + 1 == segment_count(data.len()),
            bytes: segment_bytes(data, number),
        };
        &&& reply_to::<E>(
            Pending::UploadSegment { toggle: state.toggle },
            #[trigger] nth_segment(data, number),
        ) == Reply::<E>::Segment(segment)
        &&& state.has_room(segment)
    } by {
        lemma_read_state(data, buf, number);
        law_segment_read_gives_back_write::<E>(
            number % 2 == 1,
            number + 1 == segment_count(data.len()),
            segment_bytes(data, number),
        );
    }
    lemma_read_state(data, buf, segment_count(data.len()));
    assert(data.take(data.len() as int) =~= data);
}

// Requests.

/// The two requests ask for the same.
pub open spec fn same_request(one: SdoRequest, other: SdoRequest) -> bool {
    match (one, other) {
        (
            SdoRequest::UploadExpedited { index: i, sub: s },
            SdoRequest::UploadExpedited { index, sub },
        ) => i == index && s == sub,
        (
            SdoRequest::DownloadExpedited { index: i, sub: s, data: d },
            SdoRequest::DownloadExpedited { index, sub, data },
        ) => i == index && s == sub && d@ == data@,
        (
            SdoRequest::InitiateSegmentedDownload { index: i, sub: s, size: z },
            SdoRequest::InitiateSegmentedDownload { index, sub, size },
        ) => i == index && s == sub && z == size,
        (
            SdoRequest::UploadSegment { toggle: t },
            SdoRequest::UploadSegment { toggle },
        ) => t == toggle,
        (
            SdoRequest::DownloadSegment { toggle: t, last: l, data: d },
            SdoRequest::DownloadSegment { toggle, last, data },
        ) => t == toggle && l == last && d@ == data@,
        _ => false,
    }
}

/// What a frame that names an object says can be read from its data.
proof fn lemma_object_payload_is_unique(
    command: u8,
    index: u16,
    sub: u8,
    rest: Seq<u8>,
    other_command: u8,
    other_index: u16,
    other_sub: u8,
    other_rest: Seq<u8>,
)
    requires
        rest.len() <= 4,
        other_rest.len() <= 4,
        padded(seq![command] + le16(index) + seq![sub] + rest) == padded(
            seq![other_command] + le16(other_index) + seq![other_sub] + other_rest,
        ),
    ensures
        command == other_command,
        index == other_index,
        sub == other_sub,
        rest.len() == other_rest.len() ==> rest == other_rest,
{
    lemma_object_payload(command, index, sub, rest);
    lemma_object_payload(other_command, other_index, other_sub, other_rest);
}

/// The kinds of requests differ in their commands.
proof fn lemma_commands(request: SdoRequest)
    requires
        request.sendable(),
    ensures
        match request {
            SdoRequest::UploadExpedited { .. } => request.payload()[0] == 0x40,
            SdoRequest::DownloadExpedited { .. } => 0x23 <= request.payload()[0] <= 0x33,
            SdoRequest::InitiateSegmentedDownload { .. } => request.payload()[0] == 0x21,
            SdoRequest::UploadSegment { toggle } => request.payload()[0] == if toggle {
                0x70u8
            } else {
                0x60u8
            },
            SdoRequest::DownloadSegment { .. } => request.payload()[0] < 0x20,
        },
{
}

/// No two requests look the same to the server.
pub proof fn law_requests_are_told_apart(one: SdoRequest, other: SdoRequest)
    requires
        one.sendable(),
        other.sendable(),
        one.payload() == other.payload(),
    ensures
        same_request(one, other),
{
    lemma_commands(one);
    lemma_commands(other);
    match (one, other) {
        (
            SdoRequest::UploadExpedited { index: i, sub: s },
            SdoRequest::UploadExpedited { index, sub },
        ) => {
            let none = Seq::<u8>::empty();
            assert(one.payload() =~= padded(seq![0x40u8] + le16(i) + seq![s] + none));
            assert(other.payload() =~= padded(seq![0x40u8] + le16(index) + seq![sub] + none));
            lemma_object_payload_is_unique(0x40, i, s, none, 0x40, index, sub, none);
        },
        (
            SdoRequest::DownloadExpedited { index: i, sub: s, data: d },
            SdoRequest::DownloadExpedited { index, sub, data },
        ) => {
            lemma_object_payload_is_unique(
                (0x23 + 4 * (4 - d@.len())) as u8,
                i,
                s,
                d@,
                (0x23 + 4 * (4 - data@.len())) as u8,
                index,
                sub,
                data@,
            );
        },
        (
            SdoRequest::InitiateSegmentedDownload { index: i, sub: s, size: z },
            SdoRequest::InitiateSegmentedDownload { index, sub, size },
        ) => {
            lemma_object_payload_is_unique(
                0x21,
                i,
                s,
                le32(z),
                0x21,
                index,
                sub,
                le32(size),
            );
            law_le32_round_trip(z);
            law_le32_round_trip(size);
        },
        (
            SdoRequest::DownloadSegment { toggle: t, last: l, data: d },
            SdoRequest::DownloadSegment { toggle, last, data },
        ) => {
            law_segment_read_gives_back_write::<()>(t, l, d@);
            law_segment_read_gives_back_write::<()>(toggle, last, data@);
        },
        _ => {},
    }
}

// The block write.

/// What is sent again after a partial acknowledgement is what was sent the first time, without the
/// segments that were acknowledged.
pub proof fn law_retransmission_repeats_the_block(state: BlockView, node_id: u8, ackseq: nat)
    requires
        ackseq <= state.last_seqno,
    ensures
        state.frames_from(node_id, ackseq) == state.frames_from(node_id, 0).skip(ackseq as int),
        state.frames_from(node_id, 0).take(ackseq as int) + state.frames_from(node_id, ackseq)
            == state.frames_from(node_id, 0),
{
    assert(state.frames_from(node_id, ackseq) =~= state.frames_from(node_id, 0).skip(
        ackseq as int,
    ));
    assert(state.frames_from(node_id, 0).take(ackseq as int) + state.frames_from(node_id, ackseq)
        =~= state.frames_from(node_id, 0));
}

/// Every block moves the transfer on, holds no more segments than the server allows, and starts
/// where the block before it ends.
pub proof fn law_blocks_move_on(state: BlockView)
    requires
        state.well_formed(),
        state.offset < state.data.len(),
    ensures
        state.advanced().well_formed(),
        state.advanced().start == state.offset,
        state.offset < state.advanced().offset <= state.data.len(),
        1 <= state.advanced().last_seqno <= state.blksize,
{
}

/// The acknowledgements bring the transfer to its end, from the state `state`, whose block is out.
/// One that leaves out segments keeps the transfer at its block; one that is wrong ends it early.
pub open spec fn transfer_ends(state: BlockView, acks: Seq<BlockAck>) -> bool
    decreases acks.len(),
{
    if acks.len() == 0 {
        false
    } else {
        let ack = acks[0];
        let next = state.resized(ack.next_blksize);
        if ack.ackseq < state.last_seqno {
            transfer_ends(state, acks.drop_first())
        } else {
            &&& ack.ackseq == state.last_seqno
            &&& ack.next_blksize <= MAX_BLOCK_SIZE
            &&& next.offset >= next.data.len() || transfer_ends(
                next.next_state(),
                acks.drop_first(),
            )
        }
    }
}

/// The frames of the blocks that these acknowledgements accept.
pub open spec fn accepted_frames(node_id: u8, state: BlockView, acks: Seq<BlockAck>) -> Seq<
    FrameView,
>
    decreases acks.len(),
{
    if acks.len() == 0 {
        Seq::empty()
    } else {
        let ack = acks[0];
        let next = state.resized(ack.next_blksize);
        if ack.ackseq < state.last_seqno {
            accepted_frames(node_id, state, acks.drop_first())
        } else if next.offset >= next.data.len() {
            state.frames_from(node_id, 0)
        } else {
            state.frames_from(node_id, 0) + accepted_frames(
                node_id,
                next.next_state(),
                acks.drop_first(),
            )
        }
    }
}

/// The state to which these acknowledgements lead: at the end of the transfer, the one in which the
/// closing request is sent.
pub open spec fn closing_state(state: BlockView, acks: Seq<BlockAck>) -> BlockView
    decreases acks.len(),
{
    if acks.len() == 0 {
        state
    } else {
        let ack = acks[0];
        let next = state.resized(ack.next_blksize);
        if ack.ackseq < state.last_seqno {
            closing_state(state, acks.drop_first())
        } else if next.offset >= next.data.len() {
            next
        } else {
            closing_state(next.next_state(), acks.drop_first())
        }
    }
}

/// The acknowledgements of whole blocks, from the state `state` on, that set the sizes of the next
/// blocks as listed.
pub open spec fn whole_acks(state: BlockView, sizes: Seq<u8>) -> Seq<BlockAck>
    decreases sizes.len(),
{
    if sizes.len() == 0 {
        Seq::empty()
    } else {
        seq![BlockAck { ackseq: state.last_seqno, next_blksize: sizes[0] }] + whole_acks(
            state.resized(sizes[0]).next_state(),
            sizes.drop_first(),
        )
    }
}

/// The frame carries the segment of `data` at `at`, under some number, marked if it is the last.
pub open spec fn carries_segment(frame: FrameView, node_id: u8, data: Seq<u8>, at: nat) -> bool {
    let seqno = frame.data[0] % 128;
    &&& 1 <= seqno
    &&& frame == request_frame(
        node_id,
        block_segment(
            seqno,
            at + 7 >= data.len(),
            data.subrange(at as int, segment_end(at, data.len()) as int),
        ),
    )
}

/// The data bytes of the frames of segments, without the commands.
pub open spec fn bodies(frames: Seq<FrameView>) -> Seq<u8>
    decreases frames.len(),
{
    if frames.len() == 0 {
        Seq::empty()
    } else {
        bodies(frames.drop_last()) + frames.last().data.subrange(1, 8)
    }
}

/// The frames that are accepted carry the segments of the data one after the other.
proof fn lemma_accepted_frames(node_id: u8, state: BlockView, acks: Seq<BlockAck>)
    requires
        state.well_formed(),
        state.last_seqno > 0,
        transfer_ends(state, acks),
    ensures
        ({
            let frames = accepted_frames(node_id, state, acks);
            &&& frames.len() == segment_count((state.data.len() - state.start) as nat)
            &&& forall|i: int|
                0 <= i < frames.len() ==> carries_segment(
                    #[trigger] frames[i],
                    node_id,
                    state.data,
                    (state.start + 7 * i) as nat,
                )
        }),
    decreases acks.len(),
{
    let ack = acks[0];
    let rest = acks.drop_first();
    if ack.ackseq < state.last_seqno {
        lemma_accepted_frames(node_id, state, rest);
    } else {
        let next = state.resized(ack.next_blksize);
        let first = state.frames_from(node_id, 0);
        let frames = accepted_frames(node_id, state, acks);
        let goes_on = next.offset < next.data.len();
        if goes_on {
            law_blocks_move_on(next);
            lemma_accepted_frames(node_id, next.next_state(), rest);
        }
        let later = accepted_frames(node_id, next.next_state(), rest);
        assert forall|i: int| 0 <= i < frames.len() implies carries_segment(
            #[trigger] frames[i],
            node_id,
            state.data,
            (state.start + 7 * i) as nat,
        ) by {
            if i < first.len() {
                assert(frames[i] == request_frame(
                    node_id,
                    nth_block_segment(state.data, state.start, i as nat),
                ));
            } else {
                assert(frames[i] == later[i - first.len()]);
                assert(next.next_state().start == state.start + 7 * first.len());
            }
        }
    }
}

/// The bodies of frames that carry consecutive segments are the data itself, with zeros behind.
proof fn lemma_bodies(frames: Seq<FrameView>, node_id: u8, data: Seq<u8>)
    requires
        frames.len() <= segment_count(data.len()),
        forall|i: int|
            0 <= i < frames.len() ==> carries_segment(
                #[trigger] frames[i],
                node_id,
                data,
                (7 * i) as nat,
            ),
    ensures
        bodies(frames).len() == 7 * frames.len(),
        forall|j: int|
            0 <= j < 7 * frames.len() ==> #[trigger] bodies(frames)[j] == (if j < data.len() {
                data[j]
            } else {
                0
            }),
    decreases frames.len(),
{
    if frames.len() > 0 {
        let number = frames.len() - 1;
        let last = frames.last();
        assert forall|i: int| 0 <= i < frames.drop_last().len() implies carries_segment(
            #[trigger] frames.drop_last()[i],
            node_id,
            data,
            (7 * i) as nat,
        ) by {
            assert(frames.drop_last()[i] == frames[i]);
        }
        lemma_bodies(frames.drop_last(), node_id, data);
        assert(carries_segment(frames[number], node_id, data, (7 * number) as nat));
        assert forall|j: int| 0 <= j < 7 * frames.len() implies #[trigger] bodies(frames)[j] == (
        if j < data.len() {
            data[j]
        } else {
            0
        }) by {
            if j >= 7 * number {
                assert(bodies(frames)[j] == last.data[j - 7 * number + 1]);
            } else {
                assert(bodies(frames)[j] == bodies(frames.drop_last())[j]);
            }
        }
    }
}

/// A transfer that the acknowledgements bring to its end is closed with all of its data sent: the
/// value, and whether a checksum is sent, are still those it had in `state`. The closing request is
/// then the one step to take, and the client waits for its confirmation.
pub proof fn law_transfers_close_with_all_data_sent(
    node_id: u8,
    state: BlockView,
    acks: Seq<BlockAck>,
    pending: Option<Pending>,
)
    requires
        state.well_formed(),
        state.last_seqno > 0,
        transfer_ends(state, acks),
    ensures
        ({
            let closing = closing_state(state, acks);
            &&& closing.well_formed()
            &&& closing.data == state.data
            &&& closing.use_crc == state.use_crc
            &&& closing.offset == state.data.len()
            &&& closing.pending_next(pending) == Some(Pending::BlockDownloadEnd)
            &&& forall|step: BlockStep| #[trigger]
                closing.sends_next(node_id, step) <==> (step matches BlockStep::End(frame)
                    && frame@ == request_frame(
                    node_id,
                    block_end_request(
                        unused_bytes(state.data.len()) as u8,
                        final_crc(state.data, state.use_crc),
                    ),
                ))
        }),
    decreases acks.len(),
{
    let ack = acks[0];
    let next = state.resized(ack.next_blksize);
    if ack.ackseq < state.last_seqno {
        law_transfers_close_with_all_data_sent(node_id, state, acks.drop_first(), pending);
    } else if next.offset < next.data.len() {
        law_blocks_move_on(next);
        law_transfers_close_with_all_data_sent(
            node_id,
            next.next_state(),
            acks.drop_first(),
            pending,
        );
    }
}

/// A block write brings the value over as it is, whatever blocks the server allows and whatever
/// segments it wants again: at the end of the transfer, the frames that were accepted are as many
/// as the value has segments, only the last one is marked as the last, and their bytes, less the
/// unused ones that the closing request counts, are the value. What is sent in the state that the
/// run has then reached is the closing request, and the checksum in it is the one of these bytes,
/// or zero if none was agreed on.
pub proof fn law_block_write_carries_the_value(
    node_id: u8,
    data: Seq<u8>,
    use_crc: bool,
    blksize: u8,
    acks: Seq<BlockAck>,
)
    requires
        data.len() > 0,
        1 <= blksize <= MAX_BLOCK_SIZE,
        transfer_ends(BlockView::begin(data, use_crc, blksize).next_state(), acks),
    ensures
        ({
            let state = BlockView::begin(data, use_crc, blksize).next_state();
            let frames = accepted_frames(node_id, state, acks);
            let accepted = bodies(frames).take(bodies(frames).len() - unused_bytes(data.len()));
            &&& frames.len() == segment_count(data.len())
            &&& forall|i: int|
                0 <= i < frames.len() ==> (#[trigger] frames[i].data[0] >= 0x80) == (i
                    == frames.len() - 1)
            &&& accepted == data
            &&& forall|step: BlockStep| #[trigger]
                closing_state(state, acks).sends_next(node_id, step) <==> (
                step matches BlockStep::End(frame) && frame@ == request_frame(
                    node_id,
                    block_end_request(
                        unused_bytes(data.len()) as u8,
                        if use_crc {
                            crc_xmodem(accepted)
                        } else {
                            0
                        },
                    ),
                ))
        }),
{
    let state = BlockView::begin(data, use_crc, blksize).next_state();
    let frames = accepted_frames(node_id, state, acks);
    law_blocks_move_on(BlockView::begin(data, use_crc, blksize));
    lemma_accepted_frames(node_id, state, acks);
    assert forall|i: int| 0 <= i < frames.len() implies carries_segment(
        #[trigger] frames[i],
        node_id,
        data,
        (7 * i) as nat,
    ) by {
        assert(carries_segment(frames[i], node_id, data, (state.start + 7 * i) as nat));
    }
    assert forall|i: int| 0 <= i < frames.len() implies (#[trigger] frames[i].data[0] >= 0x80) == (i
        == frames.len() - 1) by {
        assert(carries_segment(frames[i], node_id, data, (7 * i) as nat));
    }
    lemma_bodies(frames, node_id, data);
    assert(bodies(frames).take(bodies(frames).len() - unused_bytes(data.len())) =~= data);
    law_transfers_close_with_all_data_sent(node_id, state, acks, None);
}

/// A block write ends if the server acknowledges whole blocks: one acknowledgement for the block
/// that is out, and then no more of them than the value has bytes left behind it, are enough.
pub proof fn law_block_write_ends(state: BlockView, sizes: Seq<u8>)
    requires
        state.well_formed(),
        state.last_seqno > 0,
        forall|i: int| 0 <= i < sizes.len() ==> #[trigger] sizes[i] <= MAX_BLOCK_SIZE,
        sizes.len() > state.data.len() - state.offset,
    ensures
        transfer_ends(state, whole_acks(state, sizes)),
    decreases sizes.len(),
{
    let next = state.resized(sizes[0]);
    let rest = sizes.drop_first();
    let acks = whole_acks(state, sizes);
    assert(acks.drop_first() =~= whole_acks(next.next_state(), rest));
    if next.offset < next.data.len() {
        law_blocks_move_on(next);
        assert forall|i: int| 0 <= i < rest.len() implies #[trigger] rest[i] <= MAX_BLOCK_SIZE by {
            assert(rest[i] == sizes[i + 1]);
        }
        law_block_write_ends(next.next_state(), rest);
    }
}

/// The segments of a block are numbered from one, without a gap.
pub proof fn law_segments_are_numbered_from_one(state: BlockView, node_id: u8, number: nat)
    requires
        state.well_formed(),
        number < state.last_seqno,
    ensures
        state.frames_from(node_id, 0)[number as int].data[0] % 128 == number + 1,
{
}

/// The unused bytes that the closing request counts are those that the segments of the value have
/// and it has not: fewer than seven, but for the empty value, which counts seven. The count stands
/// in the command.
pub proof fn law_unused_bytes_complete_the_segments(len: nat, crc: u16)
    ensures
        len > 0 ==> unused_bytes(len) < 7 && len + unused_bytes(len) == 7 * segment_count(len),
        len == 0 ==> unused_bytes(len) == 7,
        block_end_request(unused_bytes(len) as u8, crc)[0] == 0xC1 + 4 * unused_bytes(len),
{
}

/// The checksum can be taken in pieces, in whatever segments the value is sent: feeding one piece
/// after the other is the same as feeding them at once.
pub proof fn law_checksum_in_pieces(register: u16, first: Seq<u8>, second: Seq<u8>)
    ensures
        crc_fed(crc_fed(register, first), second) == crc_fed(register, first + second),
    decreases second.len(),
{
    if second.len() == 0 {
        assert(first + second =~= first);
    } else {
        assert((first + second).drop_last() =~= first + second.drop_last());
        law_checksum_in_pieces(register, first, second.drop_last());
    }
}

/// The write of an empty value is closed at once: the first step is the closing request, with the
/// command 0xDD and the checksum zero, whether or not one was agreed on.
pub proof fn law_empty_value_is_closed_at_once(node_id: u8, use_crc: bool, blksize: u8)
    ensures
        forall|step: BlockStep| #[trigger]
            BlockView::begin(Seq::empty(), use_crc, blksize).sends_next(node_id, step) <==> (
            step matches BlockStep::End(frame) && frame@ == request_frame(
                node_id,
                padded(seq![0xDDu8]),
            )),
{
    assert(block_end_request(7, 0) =~= padded(seq![0xDDu8]));
}

} // verus!
