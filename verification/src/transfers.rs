//! What the operations of a transfer do: the frames that they give, byte by byte, and the state
//! that they leave. As in `operations`, the operations are spoken of by their calls.

use vstd::prelude::*;

use crate::block::{
    crc_xmodem, final_crc, unused_bytes, BlockDownload, BlockRequest, BlockStep, BlockView,
};
use crate::client::{Outcome, SdoClient};
use crate::download::{announced_size, SegmentedDownload};
use crate::error::SdoError;
use crate::frame::CanFrame;
use crate::pending::Pending;
use crate::response::{BlockAck, BlockInit, Segment};
use crate::upload::SegmentedUpload;
use crate::wire::{
    law_block_download_request_names_its_object, law_block_end_request_carries_the_checksum,
    law_block_frames_carry_the_data_in_order, law_blocks_are_full,
    law_frames_are_seen_as_they_are, law_no_bytes_leave_the_register,
    law_segmented_download_request_names_its_object, law_segments_carry_the_value_in_order,
    law_unused_bytes_fill_the_last_segment, law_upload_segment_request_is_a_command,
    law_writing_changes_nothing_else,
};

verus! {

// The segmented read.

/// The answer to the opening of a segmented read gives the size. If the buffer can hold it, the
/// first segment is asked for, with the toggle bit clear; if not, the read ends.
pub proof fn law_segmented_read_initiated<E>(
    client: &mut SdoClient,
    buf_len: usize,
    outcome: Outcome<u32, E>,
    next: Result<(SegmentedUpload, CanFrame), SdoError<E>>,
)
    requires
        call_ensures(SegmentedUpload::initiated::<E>, (client, buf_len, outcome), next),
    ensures
        final(client).node_id() == old(client).node_id(),
        next is Err ==> final(client).pending() is None,
        outcome matches Outcome::TransmitFailed(error) ==> next == Err::<
            (SegmentedUpload, CanFrame),
            SdoError<E>,
        >(SdoError::TxError(error)),
        outcome is TimedOut ==> next == Err::<(SegmentedUpload, CanFrame), SdoError<E>>(
            SdoError::Timeout,
        ),
        outcome matches Outcome::Answered(Err(error)) ==> next == Err::<
            (SegmentedUpload, CanFrame),
            SdoError<E>,
        >(error),
        outcome matches Outcome::Answered(Ok(size)) ==> {
            &&& size > buf_len ==> next == Err::<(SegmentedUpload, CanFrame), SdoError<E>>(
                SdoError::BufferSizeWrong,
            )
            &&& size <= buf_len ==> {
                &&& next matches Ok((transfer, frame))
                &&& transfer@.size == size
                &&& transfer@.offset == 0
                &&& !transfer@.toggle
                &&& frame.id == 0x600 + old(client).node_id()
                &&& frame.data@[0] == 0x60
                &&& forall|i: int| 1 <= i < 8 ==> frame.data@[i] == 0
                &&& final(client).pending() == Some(Pending::UploadSegment { toggle: false })
            }
        },
{
    law_upload_segment_request_is_a_command(false);
    if let Ok((transfer, frame)) = next {
        assert(frame@.data == frame.data@);
    }
}

/// A segment is taken if it has no more than seven bytes and these do not run past the announced
/// size.
pub proof fn law_segmented_read_accepts(
    transfer: &SegmentedUpload,
    segment: &Segment,
    accepts: bool,
)
    requires
        call_ensures(SegmentedUpload::accepts, (transfer, segment), accepts),
    ensures
        accepts == (segment.len <= 7 && transfer@.offset + segment.len <= transfer@.size),
{
    if segment.len <= 7 {
        assert(segment@.bytes.len() == segment.len);
    }
}

/// A segment can be handed on if it is taken and the buffer holds the announced size; an error
/// can be handed on in any case.
pub proof fn law_segmented_read_takes_what_it_accepts<E>(
    transfer: &mut SegmentedUpload,
    client: &mut SdoClient,
    buf: &mut [u8],
    outcome: Outcome<Segment, E>,
)
    requires
        old(transfer)@.size <= old(buf)@.len(),
        outcome matches Outcome::Answered(Ok(segment)) ==> segment.len <= 7
            && old(transfer)@.offset + segment.len <= old(transfer)@.size,
    ensures
        call_requires(SegmentedUpload::received::<E>, (transfer, client, buf, outcome)),
{
    if let Outcome::Answered(Ok(segment)) = outcome {
        assert(segment@.bytes.len() == segment.len);
    }
}

/// A segment of a segmented read: its bytes, and no others, are written into the buffer behind
/// those that came before. The last one ends the read; after another, the next is asked for with
/// the other toggle bit. An error changes neither the buffer nor the state, and ends the read.
pub proof fn law_segmented_read_received<E>(
    transfer: &mut SegmentedUpload,
    client: &mut SdoClient,
    buf: &mut [u8],
    outcome: Outcome<Segment, E>,
    next: Result<Option<CanFrame>, SdoError<E>>,
)
    requires
        old(transfer)@.size <= old(buf)@.len(),
        outcome matches Outcome::Answered(Ok(segment)) ==> segment.len <= 7
            && old(transfer)@.offset + segment.len <= old(transfer)@.size,
        call_ensures(SegmentedUpload::received::<E>, (transfer, client, buf, outcome), next),
    ensures
        final(client).node_id() == old(client).node_id(),
        next is Err ==> {
            &&& final(client).pending() is None
            &&& final(transfer)@ == old(transfer)@
            &&& final(buf)@ == old(buf)@
        },
        outcome matches Outcome::TransmitFailed(error) ==> next == Err::<
            Option<CanFrame>,
            SdoError<E>,
        >(SdoError::TxError(error)),
        outcome is TimedOut ==> next == Err::<Option<CanFrame>, SdoError<E>>(SdoError::Timeout),
        outcome matches Outcome::Answered(Err(error)) ==> next == Err::<
            Option<CanFrame>,
            SdoError<E>,
        >(error),
        outcome matches Outcome::Answered(Ok(segment)) ==> {
            let at = old(transfer)@.offset as int;
            &&& final(transfer)@.size == old(transfer)@.size
            &&& final(transfer)@.offset == at + segment.len
            &&& final(buf)@.len() == old(buf)@.len()
            &&& forall|i: int|
                0 <= i < old(buf)@.len() ==> #[trigger] final(buf)@[i] == (if at <= i < at
                    + segment.len {
                    segment.data@[i - at]
                } else {
                    old(buf)@[i]
                })
            &&& segment.last ==> {
                &&& next == Ok::<Option<CanFrame>, SdoError<E>>(None)
                &&& final(client).pending() is None
            }
            &&& !segment.last ==> {
                let toggle = !old(transfer)@.toggle;
                &&& final(transfer)@.toggle == toggle
                &&& next matches Ok(Some(frame))
                &&& frame.id == 0x600 + old(client).node_id()
                &&& frame.data@[0] == if toggle {
                    0x70u8
                } else {
                    0x60u8
                }
                &&& forall|i: int| 1 <= i < 8 ==> frame.data@[i] == 0
                &&& final(client).pending() == Some(Pending::UploadSegment { toggle })
            }
        },
{
    law_upload_segment_request_is_a_command(!old(transfer)@.toggle);
    if let Ok(Some(frame)) = next {
        assert(frame@.data == frame.data@);
    }
    if let Outcome::Answered(Ok(segment)) = outcome {
        let at = old(transfer)@.offset as int;
        let bytes = segment@.bytes;
        assert(bytes.len() == segment.len);
        law_writing_changes_nothing_else(old(buf)@, at, bytes);
        assert forall|i: int| at <= i < at + segment.len implies #[trigger] final(buf)@[i]
            == segment.data@[i - at] by {
            assert(final(buf)@.subrange(at, at + bytes.len())[i - at] == final(buf)@[i]);
            assert(bytes[i - at] == segment.data@[i - at]);
        }
    }
}

// The segmented write.

/// A segmented write opens with the object and the length of the value, and starts with no segment
/// sent.
pub proof fn law_segmented_write_opens<'a>(
    client: &mut SdoClient,
    index: u16,
    sub: u8,
    data: &'a [u8],
    started: (SegmentedDownload<'a>, CanFrame),
)
    requires
        call_ensures(SdoClient::write_segmented, (client, index, sub, data), started),
    ensures
        final(client).node_id() == old(client).node_id(),
        final(client).pending() == Some(Pending::SegmentedDownloadInit { index, sub }),
        started.0@.data == data@,
        started.0@.sent == 0,
        ({
            let frame = started.1;
            &&& frame.id == 0x600 + old(client).node_id()
            &&& frame.data@[0] == 0x21
            &&& frame.data@[1] + 0x100 * frame.data@[2] == index
            &&& frame.data@[3] == sub
            &&& frame.data@[4] + 0x100 * frame.data@[5] + 0x1_0000 * frame.data@[6] + 0x100_0000
                * frame.data@[7] == data@.len() % 0x1_0000_0000
        }),
{
    let size = announced_size(data@.len());
    law_segmented_download_request_names_its_object(index, sub, size);
    assert(started.1@.data == started.1.data@);
}

/// A confirmed segmented write goes on with the next seven bytes, or what is left of them: the
/// toggle bit turns with each segment, and the one that ends the value is marked. With nothing
/// left, the write is over. An error ends it.
pub proof fn law_segmented_write_confirmed<'a, E>(
    transfer: &mut SegmentedDownload<'a>,
    client: &mut SdoClient,
    outcome: Outcome<(), E>,
    next: Result<Option<CanFrame>, SdoError<E>>,
)
    requires
        call_ensures(SegmentedDownload::<'a>::confirmed::<E>, (transfer, client, outcome), next),
    ensures
        final(client).node_id() == old(client).node_id(),
        final(transfer)@.data == old(transfer)@.data,
        next is Err ==> final(client).pending() is None && final(transfer)@ == old(transfer)@,
        outcome matches Outcome::TransmitFailed(error) ==> next == Err::<
            Option<CanFrame>,
            SdoError<E>,
        >(SdoError::TxError(error)),
        outcome is TimedOut ==> next == Err::<Option<CanFrame>, SdoError<E>>(SdoError::Timeout),
        outcome matches Outcome::Answered(Err(error)) ==> next == Err::<
            Option<CanFrame>,
            SdoError<E>,
        >(error),
        outcome matches Outcome::Answered(Ok(_)) ==> {
            let number = old(transfer)@.sent;
            let value = old(transfer)@.data;
            let left = value.len() - 7 * number;
            &&& left <= 0 ==> {
                &&& next == Ok::<Option<CanFrame>, SdoError<E>>(None)
                &&& final(transfer)@ == old(transfer)@
                &&& final(client).pending() is None
            }
            &&& left > 0 ==> {
                &&& next matches Ok(Some(frame))
                &&& frame.id == 0x600 + old(client).node_id()
                &&& frame.data@[0] == (if left >= 7 {
                    0
                } else {
                    2 * (7 - left)
                }) + 16 * (number % 2) + (if left <= 7 {
                    1int
                } else {
                    0
                })
                &&& forall|i: int|
                    0 <= i < 7 ==> #[trigger] frame.data@[1 + i] == (if i < left {
                        value[7 * number + i]
                    } else {
                        0
                    })
                &&& final(transfer)@.sent == number + 1
                &&& final(client).pending() == Some(
                    Pending::DownloadSegment { toggle: number % 2 == 1 },
                )
            }
        },
{
    if let Outcome::Answered(Ok(_)) = outcome {
        if 7 * old(transfer)@.sent < old(transfer)@.data.len() {
            law_segments_carry_the_value_in_order(old(transfer)@.data, old(transfer)@.sent);
            assert(next matches Ok(Some(frame)) && frame@.data == frame.data@);
        }
    }
}

// The block write.

/// A block write opens with the object and the length of the value, and offers a checksum if it is
/// told to.
pub proof fn law_block_write_opens<'a>(
    client: &mut SdoClient,
    index: u16,
    sub: u8,
    data: &'a [u8],
    crc: bool,
    started: (BlockRequest<'a>, CanFrame),
)
    requires
        call_ensures(SdoClient::write_block, (client, index, sub, data, crc), started),
    ensures
        final(client).node_id() == old(client).node_id(),
        final(client).pending() == Some(Pending::BlockDownloadInitiate { index, sub }),
        started.0.data@ == data@,
        started.0.request_crc_support == crc,
        ({
            let frame = started.1;
            &&& frame.id == 0x600 + old(client).node_id()
            &&& frame.data@[0] == if crc {
                0xC6u8
            } else {
                0xC2u8
            }
            &&& frame.data@[1] + 0x100 * frame.data@[2] == index
            &&& frame.data@[3] == sub
            &&& frame.data@[4] + 0x100 * frame.data@[5] + 0x1_0000 * frame.data@[6] + 0x100_0000
                * frame.data@[7] == data@.len() % 0x1_0000_0000
        }),
{
    let size = announced_size(data@.len());
    law_block_download_request_names_its_object(index, sub, size, crc);
    assert(started.1@.data == started.1.data@);
}

/// An error in place of the server's agreement, or blocks of a size outside of 1 to 127, end a
/// block write.
pub proof fn law_block_write_refused<'a, E>(
    request: BlockRequest<'a>,
    client: &mut SdoClient,
    outcome: Outcome<BlockInit, E>,
    next: Result<(BlockDownload<'a>, BlockStep), SdoError<E>>,
)
    requires
        call_ensures(BlockRequest::<'a>::initiated::<E>, (request, client, outcome), next),
    ensures
        final(client).node_id() == old(client).node_id(),
        next is Err ==> final(client).pending() is None,
        outcome matches Outcome::TransmitFailed(error) ==> next == Err::<
            (BlockDownload<'a>, BlockStep),
            SdoError<E>,
        >(SdoError::TxError(error)),
        outcome is TimedOut ==> next == Err::<(BlockDownload<'a>, BlockStep), SdoError<E>>(
            SdoError::Timeout,
        ),
        outcome matches Outcome::Answered(Err(error)) ==> next == Err::<
            (BlockDownload<'a>, BlockStep),
            SdoError<E>,
        >(error),
        outcome matches Outcome::Answered(Ok(init)) ==> (next is Ok) == (1 <= init.blksize <= 127),
        outcome matches Outcome::Answered(Ok(init)) ==> (next matches Err(error) ==> error
            == SdoError::<E>::SdoAbort(0x0504_0002)),
{
}

/// The first step of a block write. If there is data, the first block is sent, from the first byte
/// on: as many segments as the server allows, or as the value takes if it takes fewer, numbered
/// from one, with the mark on the one that ends the value. If there is none, the write is closed.
/// A checksum is sent in the end if both sides support it.
pub proof fn law_block_write_initiated<'a, E>(
    request: BlockRequest<'a>,
    client: &mut SdoClient,
    init: BlockInit,
    next: Result<(BlockDownload<'a>, BlockStep), SdoError<E>>,
)
    requires
        1 <= init.blksize <= 127,
        call_ensures(
            BlockRequest::<'a>::initiated::<E>,
            (request, client, Outcome::Answered(Ok(init))),
            next,
        ),
    ensures
        ({
            let value = request.data@;
            &&& next matches Ok((transfer, step))
            &&& transfer@.data == value
            &&& transfer@.use_crc == (request.request_crc_support && init.server_supports_crc)
            &&& transfer@.blksize == init.blksize
            &&& transfer@.start == 0
            &&& value.len() == 0 ==> {
                &&& step matches BlockStep::End(frame)
                &&& frame.id == 0x600 + old(client).node_id()
                &&& frame.data@[0] == 0xDD
                &&& forall|i: int| 1 <= i < 8 ==> frame.data@[i] == 0
                &&& transfer@.offset == 0
                &&& transfer@.last_seqno == 0
                &&& final(client).pending() == Some(Pending::BlockDownloadEnd)
            }
            &&& value.len() > 0 ==> {
                &&& step matches BlockStep::Transmit(frames)
                &&& final(client).pending() == old(client).pending()
                &&& frames@.len() == transfer@.last_seqno
                &&& frames@.len() == init.blksize || 7 * frames@.len() >= value.len()
                &&& 1 <= frames@.len() <= init.blksize
                &&& 7 * (frames@.len() - 1) < value.len()
                &&& transfer@.offset == if 7 * frames@.len() < value.len() {
                    7 * frames@.len()
                } else {
                    value.len()
                }
                &&& forall|i: int|
                    0 <= i < frames@.len() ==> {
                        &&& (#[trigger] frames@[i]).id == 0x600 + old(client).node_id()
                        &&& frames@[i].data@[0] == i + 1 + (if 7 * i + 7 >= value.len() {
                            128int
                        } else {
                            0
                        })
                        &&& forall|j: int|
                            0 <= j < 7 ==> #[trigger] frames@[i].data@[1 + j] == (if 7 * i + j
                                < value.len() {
                                value[7 * i + j]
                            } else {
                                0
                            })
                    }
            }
        }),
{
    let value = request.data@;
    let use_crc = request.request_crc_support && init.server_supports_crc;
    let state = BlockView::begin(value, use_crc, init.blksize);
    assert(next is Ok);
    let (transfer, step) = next->Ok_0;
    if value.len() == 0 {
        law_no_bytes_leave_the_register(0);
        assert(value =~= Seq::empty());
        law_block_end_request_carries_the_checksum(
            unused_bytes(0) as u8,
            final_crc(value, use_crc),
        );
        assert(step matches BlockStep::End(frame) && frame@.data == frame.data@);
    } else {
        law_blocks_are_full(state);
        let frames = step->Transmit_0;
        let sent = state.next_state();
        law_block_frames_carry_the_data_in_order(sent, old(client).node_id(), 0, 0);
        assert forall|i: int| 0 <= i < frames@.len() implies {
            &&& (#[trigger] frames@[i]).id == 0x600 + old(client).node_id()
            &&& frames@[i].data@[0] == i + 1 + (if 7 * i + 7 >= value.len() {
                128int
            } else {
                0
            })
            &&& forall|j: int|
                0 <= j < 7 ==> #[trigger] frames@[i].data@[1 + j] == (if 7 * i + j < value.len() {
                    value[7 * i + j]
                } else {
                    0
                })
        } by {
            law_frames_are_seen_as_they_are(frames@, i);
            law_block_frames_carry_the_data_in_order(sent, old(client).node_id(), 0, i);
        }
    }
}

/// The news that a block is out makes its acknowledgement what the client waits for; the news of a
/// refused frame ends the write.
pub proof fn law_block_write_transmitted<'a, E>(
    transfer: &BlockDownload<'a>,
    client: &mut SdoClient,
    sent: Result<(), E>,
    result: Result<(), SdoError<E>>,
)
    requires
        call_ensures(BlockDownload::<'a>::transmitted::<E>, (transfer, client, sent), result),
    ensures
        final(client).node_id() == old(client).node_id(),
        sent is Ok ==> result is Ok && final(client).pending() == Some(Pending::BlockDownloadAck),
        sent matches Err(error) ==> result == Err::<(), SdoError<E>>(SdoError::TxError(error))
            && final(client).pending() is None,
{
}

/// An error in place of an acknowledgement, one that counts segments that were not sent, and one
/// of the whole block that allows more than 127 segments in the next, end a block write and leave
/// its state as it is. All others are taken.
pub proof fn law_block_write_acknowledgement_refused<'a, E>(
    transfer: &mut BlockDownload<'a>,
    client: &mut SdoClient,
    outcome: Outcome<BlockAck, E>,
    next: Result<BlockStep, SdoError<E>>,
)
    requires
        call_ensures(BlockDownload::<'a>::acknowledged::<E>, (transfer, client, outcome), next),
    ensures
        final(client).node_id() == old(client).node_id(),
        next is Err ==> final(client).pending() is None && final(transfer)@ == old(transfer)@,
        outcome matches Outcome::TransmitFailed(error) ==> next == Err::<BlockStep, SdoError<E>>(
            SdoError::TxError(error),
        ),
        outcome is TimedOut ==> next == Err::<BlockStep, SdoError<E>>(SdoError::Timeout),
        outcome matches Outcome::Answered(Err(error)) ==> next == Err::<BlockStep, SdoError<E>>(
            error,
        ),
        outcome matches Outcome::Answered(Ok(ack)) ==> {
            let unsent = ack.ackseq > old(transfer)@.last_seqno;
            let too_large = ack.ackseq == old(transfer)@.last_seqno && ack.next_blksize > 127;
            &&& unsent ==> next == Err::<BlockStep, SdoError<E>>(SdoError::InvalidResponse)
            &&& too_large ==> next == Err::<BlockStep, SdoError<E>>(
                SdoError::SdoAbort(0x0504_0002),
            )
            &&& !unsent && !too_large ==> next is Ok
        },
{
}

/// After an acknowledgement of a part of the block, the segments behind that part are sent again,
/// under their numbers and with their bytes, and the state stays as it is.
pub proof fn law_block_write_sends_again<'a, E>(
    transfer: &mut BlockDownload<'a>,
    client: &mut SdoClient,
    ack: BlockAck,
    next: Result<BlockStep, SdoError<E>>,
)
    requires
        ack.ackseq < old(transfer)@.last_seqno,
        call_ensures(
            BlockDownload::<'a>::acknowledged::<E>,
            (transfer, client, Outcome::Answered(Ok(ack))),
            next,
        ),
    ensures
        final(transfer)@ == old(transfer)@,
        final(client).pending() == old(client).pending(),
        ({
            let value = old(transfer)@.data;
            let at = old(transfer)@.start + 7 * ack.ackseq;
            &&& next matches Ok(BlockStep::Transmit(frames))
            &&& frames@.len() == old(transfer)@.last_seqno - ack.ackseq
            &&& forall|i: int|
                0 <= i < frames@.len() ==> {
                    &&& (#[trigger] frames@[i]).id == 0x600 + old(client).node_id()
                    &&& frames@[i].data@[0] == ack.ackseq + i + 1 + (if at + 7 * i + 7
                        >= value.len() {
                        128int
                    } else {
                        0
                    })
                    &&& forall|j: int|
                        0 <= j < 7 ==> #[trigger] frames@[i].data@[1 + j] == (if at + 7 * i + j
                            < value.len() {
                            value[at + 7 * i + j]
                        } else {
                            0
                        })
                }
        }),
{
    let state = old(transfer)@;
    let first = ack.ackseq as nat;
    let at = state.start + 7 * ack.ackseq;
    let frames = next->Ok_0->Transmit_0;
    law_block_frames_carry_the_data_in_order(state, old(client).node_id(), first, 0);
    assert forall|i: int| 0 <= i < frames@.len() implies {
        &&& (#[trigger] frames@[i]).id == 0x600 + old(client).node_id()
        &&& frames@[i].data@[0] == ack.ackseq + i + 1 + (if at + 7 * i + 7 >= state.data.len() {
            128int
        } else {
            0
        })
        &&& forall|j: int|
            0 <= j < 7 ==> #[trigger] frames@[i].data@[1 + j] == (if at + 7 * i + j
                < state.data.len() {
                state.data[at + 7 * i + j]
            } else {
                0
            })
    } by {
        law_frames_are_seen_as_they_are(frames@, i);
        law_block_frames_carry_the_data_in_order(state, old(client).node_id(), first, i);
    }
}

/// After an acknowledgement of the whole block, with data left, the next block is sent from where
/// that one ended: as many segments as the server now allows, or as the rest of the value takes if
/// it takes fewer, numbered from one, with the mark on the one that ends the value.
pub proof fn law_block_write_goes_on<'a, E>(
    transfer: &mut BlockDownload<'a>,
    client: &mut SdoClient,
    ack: BlockAck,
    next: Result<BlockStep, SdoError<E>>,
)
    requires
        ack.ackseq == old(transfer)@.last_seqno,
        ack.next_blksize <= 127,
        old(transfer)@.offset < old(transfer)@.data.len(),
        call_ensures(
            BlockDownload::<'a>::acknowledged::<E>,
            (transfer, client, Outcome::Answered(Ok(ack))),
            next,
        ),
    ensures
        final(client).pending() == old(client).pending(),
        ({
            let value = old(transfer)@.data;
            let at = old(transfer)@.offset;
            let blksize = if ack.next_blksize == 0 {
                old(transfer)@.blksize
            } else {
                ack.next_blksize
            };
            let after = final(transfer)@;
            &&& next matches Ok(BlockStep::Transmit(frames))
            &&& after.data == value
            &&& after.use_crc == old(transfer)@.use_crc
            &&& after.blksize == blksize
            &&& after.start == at
            &&& after.last_seqno == frames@.len()
            &&& after.offset == if at + 7 * frames@.len() < value.len() {
                at + 7 * frames@.len()
            } else {
                value.len()
            }
            &&& frames@.len() == blksize || at + 7 * frames@.len() >= value.len()
            &&& 1 <= frames@.len() <= blksize
            &&& at + 7 * (frames@.len() - 1) < value.len()
            &&& forall|i: int|
                0 <= i < frames@.len() ==> {
                    &&& (#[trigger] frames@[i]).id == 0x600 + old(client).node_id()
                    &&& frames@[i].data@[0] == i + 1 + (if at + 7 * i + 7 >= value.len() {
                        128int
                    } else {
                        0
                    })
                    &&& forall|j: int|
                        0 <= j < 7 ==> #[trigger] frames@[i].data@[1 + j] == (if at + 7 * i + j
                            < value.len() {
                            value[at + 7 * i + j]
                        } else {
                            0
                        })
                }
        }),
{
    let state = old(transfer)@.resized(ack.next_blksize);
    let sent = state.next_state();
    let at = state.offset;
    let frames = next->Ok_0->Transmit_0;
    law_blocks_are_full(state);
    law_block_frames_carry_the_data_in_order(sent, old(client).node_id(), 0, 0);
    assert forall|i: int| 0 <= i < frames@.len() implies {
        &&& (#[trigger] frames@[i]).id == 0x600 + old(client).node_id()
        &&& frames@[i].data@[0] == i + 1 + (if at + 7 * i + 7 >= state.data.len() {
            128int
        } else {
            0
        })
        &&& forall|j: int|
            0 <= j < 7 ==> #[trigger] frames@[i].data@[1 + j] == (if at + 7 * i + j
                < state.data.len() {
                state.data[at + 7 * i + j]
            } else {
                0
            })
    } by {
        law_frames_are_seen_as_they_are(frames@, i);
        law_block_frames_carry_the_data_in_order(sent, old(client).node_id(), 0, i);
    }
}

/// After an acknowledgement of the block that ends the value, the write is closed: the command
/// counts the bytes that the last segment left unused, and the checksum of the value follows it,
/// or zero if none was agreed on.
pub proof fn law_block_write_closes<'a, E>(
    transfer: &mut BlockDownload<'a>,
    client: &mut SdoClient,
    ack: BlockAck,
    next: Result<BlockStep, SdoError<E>>,
)
    requires
        ack.ackseq == old(transfer)@.last_seqno,
        ack.next_blksize <= 127,
        old(transfer)@.offset >= old(transfer)@.data.len(),
        call_ensures(
            BlockDownload::<'a>::acknowledged::<E>,
            (transfer, client, Outcome::Answered(Ok(ack))),
            next,
        ),
    ensures
        final(client).pending() == Some(Pending::BlockDownloadEnd),
        final(transfer)@.data == old(transfer)@.data,
        final(transfer)@.use_crc == old(transfer)@.use_crc,
        final(transfer)@.offset == old(transfer)@.offset,
        ({
            let value = old(transfer)@.data;
            &&& next matches Ok(BlockStep::End(frame))
            &&& frame.id == 0x600 + old(client).node_id()
            &&& value.len() == 0 ==> frame.data@[0] == 0xDD
            &&& value.len() > 0 ==> {
                let unused = (frame.data@[0] - 0xC1) / 4;
                &&& frame.data@[0] == 0xC1 + 4 * unused
                &&& 0 <= unused < 7
                &&& (value.len() + unused) % 7 == 0
            }
            &&& frame.data@[1] + 0x100 * frame.data@[2] == if old(transfer)@.use_crc {
                crc_xmodem(value)
            } else {
                0
            }
            &&& forall|i: int| 3 <= i < 8 ==> frame.data@[i] == 0
        }),
{
    let value = old(transfer)@.data;
    let unused = unused_bytes(value.len());
    law_unused_bytes_fill_the_last_segment(value.len());
    law_block_end_request_carries_the_checksum(
        unused as u8,
        final_crc(value, old(transfer)@.use_crc),
    );
    let frame = next->Ok_0->End_0;
    assert(frame@.data == frame.data@);
}

/// The end of a block write gives its caller the confirmation or the error, and the client waits
/// for nothing any more.
pub proof fn law_block_write_ended<'a, E>(
    transfer: BlockDownload<'a>,
    client: &mut SdoClient,
    outcome: Outcome<(), E>,
    result: Result<(), SdoError<E>>,
)
    requires
        call_ensures(BlockDownload::<'a>::ended::<E>, (transfer, client, outcome), result),
    ensures
        outcome matches Outcome::Answered(answer) ==> result == answer,
        outcome matches Outcome::TransmitFailed(error) ==> result == Err::<(), SdoError<E>>(
            SdoError::TxError(error),
        ),
        outcome is TimedOut ==> result == Err::<(), SdoError<E>>(SdoError::Timeout),
        final(client).pending() is None,
        final(client).node_id() == old(client).node_id(),
{
}

} // verus!
