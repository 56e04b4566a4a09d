//! What each operation of the client does, from its arguments to the bytes, errors and states that
//! come out. The operations are spoken of by their calls: `call_ensures(operation, arguments,
//! result)` says that the operation has been called and has given the result.

use vstd::prelude::*;

use crate::client::{Outcome, SdoClient};
use crate::error::{hex, hex_digit, SdoError};
use crate::frame::{CanFrame, FrameId};
use crate::pending::{Pending, PendingGuard};
use crate::request::SdoRequest;
use crate::response::{decode, signal_error, BlockAck, BlockInit, Response, Segment};
use crate::wire::{
    law_block_download_request_names_its_object, law_block_end_request_carries_the_checksum,
    law_block_segment_carries_its_bytes, law_bytes_weigh_by_position,
    law_download_request_carries_the_value, law_download_segment_carries_its_bytes,
    law_objects_are_named_by_three_bytes, law_segmented_download_request_names_its_object,
    law_upload_request_names_its_object, law_upload_segment_request_is_a_command,
};

verus! {

// The client.

/// A client can be made for the nodes up to 127, and for no others. It talks to the node it was
/// made for, and waits for nothing.
pub proof fn law_new<E>(node_id: u8, made: Result<SdoClient, SdoError<E>>)
    requires
        call_ensures(SdoClient::new::<E>, (node_id,), made),
    ensures
        node_id < 128 ==> (made matches Ok(client) && client.node_id() == node_id
            && client.pending() is None),
        node_id >= 128 ==> made == Err::<SdoClient, SdoError<E>>(SdoError::InvalidNodeId),
{
}

/// After a release the client waits for nothing, and still talks to its node.
pub proof fn law_release(client: &mut SdoClient)
    requires
        call_ensures(SdoClient::release, (client,), ()),
    ensures
        final(client).pending() is None,
        final(client).node_id() == old(client).node_id(),
{
}

/// A guard leaves the slot of the request in flight as it is until its own release, which empties
/// it.
pub proof fn law_pending_guard<'a>(slot: &'a mut Option<Pending>, guard: PendingGuard<'a>)
    requires
        call_ensures(PendingGuard::<'a>::new, (slot,), guard),
    ensures
        *old(guard.pending) == *old(slot),
        call_ensures(PendingGuard::<'a>::release, (guard,), ()) ==> *final(slot) is None,
{
}

/// An answer is handed on as it came; a refused frame and a wait in vain each have their error.
pub proof fn law_into_result<R, E>(outcome: Outcome<R, E>, result: Result<R, SdoError<E>>)
    requires
        call_ensures(Outcome::<R, E>::into_result, (outcome,), result),
    ensures
        outcome matches Outcome::Answered(answer) ==> result == answer,
        outcome matches Outcome::TransmitFailed(error) ==> result == Err::<R, SdoError<E>>(
            SdoError::TxError(error),
        ),
        outcome is TimedOut ==> result == Err::<R, SdoError<E>>(SdoError::Timeout),
{
}

/// The end of a request gives its caller the answer or the error, and the client waits for nothing
/// any more.
pub proof fn law_response<R, E>(
    client: &mut SdoClient,
    outcome: Outcome<R, E>,
    result: Result<R, SdoError<E>>,
)
    requires
        call_ensures(SdoClient::response::<R, E>, (client, outcome), result),
    ensures
        outcome matches Outcome::Answered(answer) ==> result == answer,
        outcome matches Outcome::TransmitFailed(error) ==> result == Err::<R, SdoError<E>>(
            SdoError::TxError(error),
        ),
        outcome is TimedOut ==> result == Err::<R, SdoError<E>>(SdoError::Timeout),
        final(client).pending() is None,
        final(client).node_id() == old(client).node_id(),
{
}

// The requests.

/// The upload request goes to the node and names the object that it was made for.
pub proof fn law_sdo_upload_request(client: &SdoClient, index: u16, sub: u8, frame: CanFrame)
    requires
        call_ensures(SdoClient::sdo_upload_request, (client, index, sub), frame),
    ensures
        frame.id == 0x600 + client.node_id(),
        frame.data@[0] == 0x40,
        frame.data@[1] + 0x100 * frame.data@[2] == index,
        frame.data@[3] == sub,
        forall|i: int| 4 <= i < 8 ==> frame.data@[i] == 0,
{
    law_upload_request_names_its_object(index, sub);
    assert(frame@.data == frame.data@);
}

/// The expedited download goes to the node, names its object, counts the unused bytes, and carries
/// the value with zeros behind it.
pub proof fn law_sdo_download_request(
    client: &SdoClient,
    index: u16,
    sub: u8,
    data: &[u8],
    frame: CanFrame,
)
    requires
        data.len() <= 4,
        call_ensures(SdoClient::sdo_download_request, (client, index, sub, data), frame),
    ensures
        frame.id == 0x600 + client.node_id(),
        frame.data@[0] == 0x23 + 4 * (4 - data.len()),
        frame.data@[1] + 0x100 * frame.data@[2] == index,
        frame.data@[3] == sub,
        forall|i: int|
            0 <= i < 4 ==> #[trigger] frame.data@[4 + i] == (if i < data.len() {
                data@[i]
            } else {
                0
            }),
{
    law_download_request_carries_the_value(index, sub, data@);
    assert(frame@.data == frame.data@);
    assert forall|i: int| 0 <= i < data.len() implies #[trigger] frame.data@[4 + i] == data@[i] by {
        assert(frame.data@.subrange(4, 4 + data@.len() as int)[i] == frame.data@[4 + i]);
    }
}

/// Every value that fits its frame can be sent.
pub proof fn law_what_fits_can_be_sent<'a>(
    client: &mut SdoClient,
    other: &SdoClient,
    request: SdoRequest<'a>,
    pending: Pending,
    index: u16,
    number: u8,
    bytes: &[u8],
    toggle: bool,
    last: bool,
)
    ensures
        bytes.len() <= 4 ==> call_requires(
            SdoClient::sdo_download_request,
            (other, index, number, bytes),
        ),
        bytes.len() <= 7 ==> call_requires(
            SdoClient::sdo_download_segment,
            (other, bytes, toggle, last),
        ),
        bytes.len() <= 7 ==> call_requires(
            SdoClient::block_download_segment,
            (other, bytes, number, last),
        ),
        match request {
            SdoRequest::DownloadExpedited { data, .. } => data.len() <= 4,
            SdoRequest::DownloadSegment { data, .. } => data.len() <= 7,
            _ => true,
        } ==> call_requires(SdoClient::request, (client, request, pending)),
{
}

/// The request that opens a segmented download goes to the node, names its object and gives the
/// size.
pub proof fn law_initiate_segmented_download(
    client: &SdoClient,
    index: u16,
    sub: u8,
    size: u32,
    frame: CanFrame,
)
    requires
        call_ensures(SdoClient::initiate_segmented_download, (client, index, sub, size), frame),
    ensures
        frame.id == 0x600 + client.node_id(),
        frame.data@[0] == 0x21,
        frame.data@[1] + 0x100 * frame.data@[2] == index,
        frame.data@[3] == sub,
        frame.data@[4] + 0x100 * frame.data@[5] + 0x1_0000 * frame.data@[6] + 0x100_0000
            * frame.data@[7] == size,
{
    law_segmented_download_request_names_its_object(index, sub, size);
    assert(frame@.data == frame.data@);
}

/// A segment of a download goes to the node, with the toggle bit, the count of unused bytes and
/// the mark in the command, and the bytes behind it.
pub proof fn law_sdo_download_segment(
    client: &SdoClient,
    bytes: &[u8],
    toggle: bool,
    last: bool,
    frame: CanFrame,
)
    requires
        bytes.len() <= 7,
        call_ensures(SdoClient::sdo_download_segment, (client, bytes, toggle, last), frame),
    ensures
        frame.id == 0x600 + client.node_id(),
        frame.data@[0] == 2 * (7 - bytes.len()) + (if toggle {
            16int
        } else {
            0
        }) + (if last {
            1int
        } else {
            0
        }),
        forall|i: int|
            0 <= i < 7 ==> #[trigger] frame.data@[1 + i] == (if i < bytes.len() {
                bytes@[i]
            } else {
                0
            }),
{
    law_download_segment_carries_its_bytes(toggle, last, bytes@);
    assert(frame@.data == frame.data@);
    assert forall|i: int| 0 <= i < bytes.len() implies #[trigger] frame.data@[1 + i]
        == bytes@[i] by {
        assert(frame.data@.subrange(1, 1 + bytes@.len() as int)[i] == frame.data@[1 + i]);
    }
}

/// The request for a segment goes to the node, and says nothing but the toggle bit.
pub proof fn law_sdo_request_upload_segment(client: &SdoClient, toggle: bool, frame: CanFrame)
    requires
        call_ensures(SdoClient::sdo_request_upload_segment, (client, toggle), frame),
    ensures
        frame.id == 0x600 + client.node_id(),
        frame.data@[0] == if toggle {
            0x70u8
        } else {
            0x60u8
        },
        forall|i: int| 1 <= i < 8 ==> frame.data@[i] == 0,
{
    law_upload_segment_request_is_a_command(toggle);
    assert(frame@.data == frame.data@);
}

/// The request that opens a block download goes to the node, offers a checksum or not, names its
/// object and gives the size.
pub proof fn law_initiate_block_download(
    client: &SdoClient,
    index: u16,
    sub: u8,
    size: u32,
    crc: bool,
    frame: CanFrame,
)
    requires
        call_ensures(SdoClient::initiate_block_download, (client, index, sub, size, crc), frame),
    ensures
        frame.id == 0x600 + client.node_id(),
        frame.data@[0] == if crc {
            0xC6u8
        } else {
            0xC2u8
        },
        frame.data@[1] + 0x100 * frame.data@[2] == index,
        frame.data@[3] == sub,
        frame.data@[4] + 0x100 * frame.data@[5] + 0x1_0000 * frame.data@[6] + 0x100_0000
            * frame.data@[7] == size,
{
    law_block_download_request_names_its_object(index, sub, size, crc);
    assert(frame@.data == frame.data@);
}

/// A segment of a block goes to the node, with its number and the mark in the command, and the
/// bytes behind it.
pub proof fn law_block_download_segment(
    client: &SdoClient,
    bytes: &[u8],
    seqno: u8,
    last: bool,
    frame: CanFrame,
)
    requires
        bytes.len() <= 7,
        call_ensures(SdoClient::block_download_segment, (client, bytes, seqno, last), frame),
    ensures
        frame.id == 0x600 + client.node_id(),
        frame.data@[0] % 128 == seqno % 128,
        (frame.data@[0] >= 128) == (last || seqno >= 128),
        forall|i: int|
            0 <= i < 7 ==> #[trigger] frame.data@[1 + i] == (if i < bytes.len() {
                bytes@[i]
            } else {
                0
            }),
{
    law_block_segment_carries_its_bytes(seqno, last, bytes@);
    assert(frame@.data == frame.data@);
    assert forall|i: int| 0 <= i < bytes.len() implies #[trigger] frame.data@[1 + i]
        == bytes@[i] by {
        assert(frame.data@.subrange(1, 1 + bytes@.len() as int)[i] == frame.data@[1 + i]);
    }
}

/// The request that closes a block download goes to the node, with the count of unused bytes in
/// the command, and the checksum behind it.
pub proof fn law_end_block_download(client: &SdoClient, unused: u8, crc: u16, frame: CanFrame)
    requires
        call_ensures(SdoClient::end_block_download, (client, unused, crc), frame),
    ensures
        frame.id == 0x600 + client.node_id(),
        frame.data@[0] == 0xC1 | (unused << 2),
        frame.data@[1] + 0x100 * frame.data@[2] == crc,
        forall|i: int| 3 <= i < 8 ==> frame.data@[i] == 0,
{
    law_block_end_request_carries_the_checksum(unused, crc);
    assert(frame@.data == frame.data@);
}

/// A request is sent as the frame that its kind asks for, and is then the one in flight.
pub proof fn law_request<'a>(
    client: &mut SdoClient,
    request: SdoRequest<'a>,
    pending: Pending,
    frame: CanFrame,
)
    requires
        request matches SdoRequest::DownloadExpedited { data, .. } ==> data.len() <= 4,
        request matches SdoRequest::DownloadSegment { data, .. } ==> data.len() <= 7,
        call_ensures(SdoClient::request, (client, request, pending), frame),
    ensures
        final(client).pending() == Some(pending),
        final(client).node_id() == old(client).node_id(),
        frame.id == 0x600 + old(client).node_id(),
        match request {
            SdoRequest::UploadExpedited { index, sub } => {
                &&& frame.data@[0] == 0x40
                &&& frame.data@[1] + 0x100 * frame.data@[2] == index
                &&& frame.data@[3] == sub
                &&& forall|i: int| 4 <= i < 8 ==> frame.data@[i] == 0
            },
            SdoRequest::DownloadExpedited { index, sub, data } => {
                &&& frame.data@[0] == 0x23 + 4 * (4 - data.len())
                &&& frame.data@[1] + 0x100 * frame.data@[2] == index
                &&& frame.data@[3] == sub
                &&& frame.data@.subrange(4, 4 + data.len()) == data@
                &&& forall|i: int| 4 + data.len() <= i < 8 ==> frame.data@[i] == 0
            },
            SdoRequest::InitiateSegmentedDownload { index, sub, size } => {
                &&& frame.data@[0] == 0x21
                &&& frame.data@[1] + 0x100 * frame.data@[2] == index
                &&& frame.data@[3] == sub
                &&& frame.data@[4] + 0x100 * frame.data@[5] + 0x1_0000 * frame.data@[6]
                    + 0x100_0000 * frame.data@[7] == size
            },
            SdoRequest::UploadSegment { toggle } => {
                &&& frame.data@[0] == if toggle {
                    0x70u8
                } else {
                    0x60u8
                }
                &&& forall|i: int| 1 <= i < 8 ==> frame.data@[i] == 0
            },
            SdoRequest::DownloadSegment { toggle, last, data } => {
                &&& frame.data@[0] == 2 * (7 - data.len()) + (if toggle {
                    16int
                } else {
                    0
                }) + (if last {
                    1int
                } else {
                    0
                })
                &&& frame.data@.subrange(1, 1 + data.len()) == data@
                &&& forall|i: int| 1 + data.len() <= i < 8 ==> frame.data@[i] == 0
            },
        },
{
    assert(frame@.data == frame.data@);
    match request {
        SdoRequest::UploadExpedited { index, sub } => {
            law_upload_request_names_its_object(index, sub);
        },
        SdoRequest::DownloadExpedited { index, sub, data } => {
            law_download_request_carries_the_value(index, sub, data@);
        },
        SdoRequest::InitiateSegmentedDownload { index, sub, size } => {
            law_segmented_download_request_names_its_object(index, sub, size);
        },
        SdoRequest::UploadSegment { toggle } => {
            law_upload_segment_request_is_a_command(toggle);
        },
        SdoRequest::DownloadSegment { toggle, last, data } => {
            law_download_segment_carries_its_bytes(toggle, last, data@);
        },
    }
}

/// An expedited read sends the upload request of the object, and waits for the object's answer.
pub proof fn law_read_expedited(client: &mut SdoClient, index: u16, sub: u8, frame: CanFrame)
    requires
        call_ensures(SdoClient::read_expedited, (client, index, sub), frame),
    ensures
        frame.id == 0x600 + old(client).node_id(),
        frame.data@[0] == 0x40,
        frame.data@[1] + 0x100 * frame.data@[2] == index,
        frame.data@[3] == sub,
        forall|i: int| 4 <= i < 8 ==> frame.data@[i] == 0,
        final(client).pending() == Some(Pending::ExpeditedRead { index, sub }),
        final(client).node_id() == old(client).node_id(),
{
    law_upload_request_names_its_object(index, sub);
    assert(frame@.data == frame.data@);
}

/// A segmented read starts as an expedited one: with the upload request of the object.
pub proof fn law_read_segmented(client: &mut SdoClient, index: u16, sub: u8, frame: CanFrame)
    requires
        call_ensures(SdoClient::read_segmented, (client, index, sub), frame),
    ensures
        frame.id == 0x600 + old(client).node_id(),
        frame.data@[0] == 0x40,
        frame.data@[1] + 0x100 * frame.data@[2] == index,
        frame.data@[3] == sub,
        forall|i: int| 4 <= i < 8 ==> frame.data@[i] == 0,
        final(client).pending() == Some(Pending::ExpeditedRead { index, sub }),
        final(client).node_id() == old(client).node_id(),
{
    law_upload_request_names_its_object(index, sub);
    assert(frame@.data == frame.data@);
}

/// An expedited write sends a value of one to four bytes, and waits for the object's confirmation.
/// Any other value is refused, and nothing changes.
pub proof fn law_write_expedited<E>(
    client: &mut SdoClient,
    index: u16,
    sub: u8,
    data: &[u8],
    sent: Result<CanFrame, SdoError<E>>,
)
    requires
        call_ensures(SdoClient::write_expedited::<E>, (client, index, sub, data), sent),
    ensures
        final(client).node_id() == old(client).node_id(),
        data.len() == 0 || data.len() > 4 ==> {
            &&& sent == Err::<CanFrame, SdoError<E>>(SdoError::BufferSizeWrong)
            &&& final(client).pending() == old(client).pending()
        },
        1 <= data.len() <= 4 ==> {
            &&& sent matches Ok(frame)
            &&& frame.id == 0x600 + old(client).node_id()
            &&& frame.data@[0] == 0x23 + 4 * (4 - data.len())
            &&& frame.data@[1] + 0x100 * frame.data@[2] == index
            &&& frame.data@[3] == sub
            &&& frame.data@.subrange(4, 4 + data.len()) == data@
            &&& forall|i: int| 4 + data.len() <= i < 8 ==> frame.data@[i] == 0
            &&& final(client).pending() == Some(Pending::ExpeditedWrite { index, sub })
        },
{
    if 1 <= data.len() <= 4 {
        law_download_request_carries_the_value(index, sub, data@);
        assert(sent matches Ok(frame) && frame@.data == frame.data@);
    }
}

// The answers.

/// An error comes on the signal on which the request waits.
pub proof fn law_signal_error<E>(pending: Pending, error: SdoError<E>, response: Response<E>)
    requires
        call_ensures(signal_error::<E>, (pending, error), response),
    ensures
        response == match pending {
            Pending::ExpeditedRead { .. } => Response::<E>::Word(Err(error)),
            Pending::ExpeditedWrite { .. } => Response::Ack(Err(error)),
            Pending::SegmentedDownloadInit { .. } => Response::Ack(Err(error)),
            Pending::UploadSegment { .. } => Response::Segment(Err(error)),
            Pending::DownloadSegment { .. } => Response::Ack(Err(error)),
            Pending::BlockDownloadInitiate { .. } => Response::BlockInit(Err(error)),
            Pending::BlockDownloadAck => Response::BlockAck(Err(error)),
            Pending::BlockDownloadEnd => Response::Ack(Err(error)),
        },
{
}

/// A frame that does not hold eight bytes is answered by the error for an invalid response, and
/// one with the command 0x80 by the abort code in its last four bytes, each on the signal on which
/// the request waits.
pub proof fn law_decode_failures<E>(pending: Pending, data: &[u8], response: Response<E>)
    requires
        call_ensures(decode::<E>, (pending, data), response),
        data.len() != 8 || data@[0] == 0x80,
    ensures
        ({
            let failure = match response {
                Response::Word(Err(error)) => Some(error),
                Response::Segment(Err(error)) => Some(error),
                Response::Ack(Err(error)) => Some(error),
                Response::BlockInit(Err(error)) => Some(error),
                Response::BlockAck(Err(error)) => Some(error),
                _ => None::<SdoError<E>>,
            };
            &&& data.len() != 8 ==> failure == Some(SdoError::<E>::InvalidResponse)
            &&& data.len() == 8 ==> (failure matches Some(SdoError::SdoAbort(code)) && code
                == data@[4] + 0x100 * data@[5] + 0x1_0000 * data@[6] + 0x100_0000 * data@[7])
        }),
        match pending {
            Pending::ExpeditedRead { .. } => response is Word,
            Pending::ExpeditedWrite { .. } => response is Ack,
            Pending::SegmentedDownloadInit { .. } => response is Ack,
            Pending::UploadSegment { .. } => response is Segment,
            Pending::DownloadSegment { .. } => response is Ack,
            Pending::BlockDownloadInitiate { .. } => response is BlockInit,
            Pending::BlockDownloadAck => response is BlockAck,
            Pending::BlockDownloadEnd => response is Ack,
        },
{
    if data.len() == 8 {
        law_bytes_weigh_by_position(data@.subrange(4, 8));
    }
}

/// The answer to a read: if it names the object, a value of one to four bytes, by the command, or
/// the size of a segmented transfer. Any other answer is refused.
pub proof fn law_decode_read<E>(index: u16, sub: u8, data: &[u8], response: Response<E>)
    requires
        call_ensures(decode::<E>, (Pending::ExpeditedRead { index, sub }, data), response),
        data.len() == 8,
        data@[0] != 0x80,
    ensures
        ({
            let command = data@[0];
            let named = data@[1] + 0x100 * data@[2] == index && data@[3] == sub;
            &&& response matches Response::Word(result)
            &&& named && (command == 0x43 || command == 0x41) ==> (result matches Ok(word) && word
                == data@[4] + 0x100 * data@[5] + 0x1_0000 * data@[6] + 0x100_0000 * data@[7])
            &&& named && command == 0x47 ==> (result matches Ok(word) && word == data@[4] + 0x100
                * data@[5] + 0x1_0000 * data@[6])
            &&& named && command == 0x4B ==> (result matches Ok(word) && word == data@[4] + 0x100
                * data@[5])
            &&& named && command == 0x4F ==> (result matches Ok(word) && word == data@[4])
            &&& !named || (command != 0x41 && command != 0x43 && command != 0x47 && command
                != 0x4B && command != 0x4F) ==> result == Err::<u32, SdoError<E>>(
                SdoError::InvalidResponse,
            )
        }),
{
    law_objects_are_named_by_three_bytes(data@, index, sub);
    law_bytes_weigh_by_position(data@.subrange(4, 8));
    law_bytes_weigh_by_position(data@.subrange(4, 7));
    law_bytes_weigh_by_position(data@.subrange(4, 6));
    law_bytes_weigh_by_position(data@.subrange(4, 5));
}

/// The answer to a write, or to the opening of a segmented one: only the command 0x60, with the
/// object named, confirms it.
pub proof fn law_decode_write<E>(
    pending: Pending,
    index: u16,
    sub: u8,
    data: &[u8],
    response: Response<E>,
)
    requires
        pending == (Pending::ExpeditedWrite { index, sub }) || pending
            == (Pending::SegmentedDownloadInit { index, sub }),
        call_ensures(decode::<E>, (pending, data), response),
        data.len() == 8,
        data@[0] != 0x80,
    ensures
        ({
            let confirmed = data@[0] == 0x60 && data@[1] + 0x100 * data@[2] == index && data@[3]
                == sub;
            &&& response matches Response::Ack(result)
            &&& confirmed ==> result is Ok
            &&& !confirmed ==> result == Err::<(), SdoError<E>>(SdoError::InvalidResponse)
        }),
{
    law_objects_are_named_by_three_bytes(data@, index, sub);
}

/// The answer to the request for a segment: if the three top bits of the command are zero and the
/// next one is the toggle bit, the segment, as long as the command says. Any other is refused.
pub proof fn law_decode_segment<E>(toggle: bool, data: &[u8], response: Response<E>)
    requires
        call_ensures(decode::<E>, (Pending::UploadSegment { toggle }, data), response),
        data.len() == 8,
        data@[0] != 0x80,
    ensures
        ({
            let command = data@[0];
            let fits = if toggle {
                0x10 <= command < 0x20
            } else {
                command < 0x10
            };
            &&& response matches Response::Segment(result)
            &&& !fits ==> result == Err::<Segment, SdoError<E>>(
                SdoError::InvalidResponse,
            )
            &&& fits ==> {
                &&& result matches Ok(segment)
                &&& segment.last == (command % 2 == 1)
                &&& segment.len == 7 - command / 2 % 8
                &&& forall|i: int|
                    0 <= i < 7 ==> #[trigger] segment.data@[i] == (if i < segment.len {
                        data@[1 + i]
                    } else {
                        0
                    })
            }
        }),
{
    let command = data@[0];
    let bytes = data@.subrange(1, 8 - command / 2 % 8);
    if let Response::Segment(Ok(segment)) = response {
        assert(segment@.bytes == bytes);
        assert(segment.data@.take(segment.len as int).len() == segment.len);
        assert forall|i: int| 0 <= i < segment.len implies #[trigger] segment.data@[i] == data@[1
            + i] by {
            assert(segment@.bytes[i] == segment.data@[i]);
            assert(bytes[i] == data@[1 + i]);
        }
    }
}

/// The answer to a segment: only the command 0x20, with 0x10 added for the toggle bit, confirms it.
pub proof fn law_decode_segment_confirmation<E>(toggle: bool, data: &[u8], response: Response<E>)
    requires
        call_ensures(decode::<E>, (Pending::DownloadSegment { toggle }, data), response),
        data.len() == 8,
        data@[0] != 0x80,
    ensures
        ({
            let confirmed = data@[0] == 0x20 && !toggle || data@[0] == 0x30 && toggle;
            &&& response matches Response::Ack(result)
            &&& confirmed ==> result is Ok
            &&& !confirmed ==> result == Err::<(), SdoError<E>>(SdoError::InvalidResponse)
        }),
{
}

/// The answer to the opening of a block write: with the command 0xA0, or 0xA4 if the server checks
/// a checksum, and the object named, it gives the size of the blocks. Any other is refused.
pub proof fn law_decode_block_agreement<E>(
    index: u16,
    sub: u8,
    data: &[u8],
    response: Response<E>,
)
    requires
        call_ensures(decode::<E>, (Pending::BlockDownloadInitiate { index, sub }, data), response),
        data.len() == 8,
        data@[0] != 0x80,
    ensures
        ({
            let named = data@[1] + 0x100 * data@[2] == index && data@[3] == sub;
            let agreed = named && (data@[0] == 0xA0 || data@[0] == 0xA4);
            &&& response matches Response::BlockInit(result)
            &&& agreed ==> (result matches Ok(init) && init.blksize == data@[4]
                && init.server_supports_crc == (data@[0] == 0xA4))
            &&& !agreed ==> result == Err::<BlockInit, SdoError<E>>(
                SdoError::InvalidResponse,
            )
        }),
{
    law_objects_are_named_by_three_bytes(data@, index, sub);
}

/// The answer to a block: with the command 0xA2, the number of the last segment that arrived and
/// the size of the next block. Any other is refused.
pub proof fn law_decode_block_acknowledgement<E>(data: &[u8], response: Response<E>)
    requires
        call_ensures(decode::<E>, (Pending::BlockDownloadAck, data), response),
        data.len() == 8,
        data@[0] != 0x80,
    ensures
        ({
            &&& response matches Response::BlockAck(result)
            &&& data@[0] == 0xA2 ==> (result matches Ok(ack) && ack.ackseq == data@[1]
                && ack.next_blksize == data@[2])
            &&& data@[0] != 0xA2 ==> result == Err::<BlockAck, SdoError<E>>(
                SdoError::InvalidResponse,
            )
        }),
{
}

/// The answer to the closing of a block write: only the command 0xA1 confirms it.
pub proof fn law_decode_block_end<E>(data: &[u8], response: Response<E>)
    requires
        call_ensures(decode::<E>, (Pending::BlockDownloadEnd, data), response),
        data.len() == 8,
        data@[0] != 0x80,
    ensures
        ({
            &&& response matches Response::Ack(result)
            &&& data@[0] == 0xA1 ==> result is Ok
            &&& data@[0] != 0xA1 ==> result == Err::<(), SdoError<E>>(SdoError::InvalidResponse)
        }),
{
}

/// A frame under the identifier 0x580 with the node's number added ends the flight of the request,
/// and signals to it what `decode` reads from the frame. Any other frame changes nothing and
/// signals nothing, and so does any frame while no request is in flight.
pub proof fn law_on_frame_received<E>(
    client: &mut SdoClient,
    id: FrameId,
    data: &[u8],
    signal: Option<Response<E>>,
)
    requires
        call_ensures(SdoClient::on_frame_received::<E>, (client, id, data), signal),
    ensures
        final(client).node_id() == old(client).node_id(),
        ({
            let ours = id matches FrameId::Standard(raw) && raw == 0x580 + old(client).node_id();
            &&& !ours ==> signal is None && final(client).pending() == old(client).pending()
            &&& ours ==> final(client).pending() is None
            &&& ours && old(client).pending() is None ==> signal is None
            &&& ours ==> (old(client).pending() matches Some(pending) ==> {
                &&& signal matches Some(response)
                &&& forall|read: Response<E>| #[trigger]
                    call_ensures(decode::<E>, (pending, data), read) ==> read == response
            })
        }),
{
    let ours = id matches FrameId::Standard(raw) && raw == 0x580 + old(client).node_id();
    if let (true, Some(pending), Some(response)) = (ours, old(client).pending(), signal) {
        assert forall|read: Response<E>| #[trigger]
            call_ensures(decode::<E>, (pending, data), read) implies read == response by {
            if let (Response::Ack(Ok(one)), Response::Ack(Ok(other))) = (response, read) {
                assert(one == other);
            }
            if let (Response::Segment(Ok(one)), Response::Segment(Ok(other))) = (response, read) {
                assert(one@.bytes.len() == one.len);
                assert(other@.bytes.len() == other.len);
                assert forall|i: int| 0 <= i < 7 implies one.data@[i] == other.data@[i] by {
                    if i < one.len {
                        assert(one@.bytes[i] == other@.bytes[i]);
                    }
                }
                assert(one.data@ =~= other.data@);
                assert(one.data =~= other.data);
            }
        }
    }
}

// The errors.

/// The eight hexadecimal digits of a number of 32 bits.
proof fn lemma_hex_digits(value: int)
    requires
        0 <= value < 0x1_0000_0000,
    ensures
        ({
            let digits = "0123456789ABCDEF"@;
            hex(value, 8) == seq![
                digits[value / 0x1000_0000],
                digits[value / 0x100_0000 % 16],
                digits[value / 0x10_0000 % 16],
                digits[value / 0x1_0000 % 16],
                digits[value / 0x1000 % 16],
                digits[value / 0x100 % 16],
                digits[value / 0x10 % 16],
                digits[value % 16],
            ]
        }),
{
    assert(value / 0x10 / 16 == value / 0x100);
    assert(value / 0x100 / 16 == value / 0x1000);
    assert(value / 0x1000 / 16 == value / 0x1_0000);
    assert(value / 0x1_0000 / 16 == value / 0x10_0000);
    assert(value / 0x10_0000 / 16 == value / 0x100_0000);
    assert(value / 0x100_0000 / 16 == value / 0x1000_0000);
    assert(value / 0x1000_0000 % 16 == value / 0x1000_0000);
    let top = hex(value / 0x1000_0000 / 16, 0);
    let one = hex(value / 0x1000_0000, 1);
    let two = hex(value / 0x100_0000, 2);
    let three = hex(value / 0x10_0000, 3);
    let four = hex(value / 0x1_0000, 4);
    let five = hex(value / 0x1000, 5);
    let six = hex(value / 0x100, 6);
    let seven = hex(value / 0x10, 7);
    assert(top == Seq::<char>::empty());
    assert(one == top.push(hex_digit(value / 0x1000_0000)));
    assert(two == one.push(hex_digit(value / 0x100_0000 % 16)));
    assert(three == two.push(hex_digit(value / 0x10_0000 % 16)));
    assert(four == three.push(hex_digit(value / 0x1_0000 % 16)));
    assert(five == four.push(hex_digit(value / 0x1000 % 16)));
    assert(six == five.push(hex_digit(value / 0x100 % 16)));
    assert(seven == six.push(hex_digit(value / 0x10 % 16)));
    assert(hex(value, 8) == seven.push(hex_digit(value % 16)));
}

/// An error is told by its name, and an abort by its code as well: eight hexadecimal digits, of
/// which each weighs sixteen times the one behind it.
pub proof fn law_format<E>(error: &SdoError<E>, text: String)
    requires
        call_ensures(SdoError::<E>::format, (error,), text),
    ensures
        error is Timeout ==> text@ == "Timeout"@,
        error is RequestPending ==> text@ == "RequestPending"@,
        error is TxError ==> text@ == "TxError"@,
        error is InvalidResponse ==> text@ == "InvalidResponse"@,
        error is BufferSizeWrong ==> text@ == "BufferSizeWrong"@,
        error is InvalidNodeId ==> text@ == "InvalidNodeId"@,
        error matches SdoError::SdoAbort(code) ==> {
            let value = code as int;
            let digits = "0123456789ABCDEF"@;
            text@ == "SdoAbort(0x"@ + seq![
                digits[value / 0x1000_0000],
                digits[value / 0x100_0000 % 16],
                digits[value / 0x10_0000 % 16],
                digits[value / 0x1_0000 % 16],
                digits[value / 0x1000 % 16],
                digits[value / 0x100 % 16],
                digits[value / 0x10 % 16],
                digits[value % 16],
            ] + ")"@
        },
{
    if let SdoError::SdoAbort(code) = error {
        lemma_hex_digits(*code as int);
    }
}

} // verus!
