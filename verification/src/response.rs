//! The answers of the server, and how they are read from the data of a frame.

use vstd::prelude::*;

use crate::error::SdoError;
use crate::frame::{le_value, read_le, FRAME_LEN};
use crate::pending::{Channel, Pending};

verus! {

/// A segment of a segmented read.
#[derive(Debug, Copy, Clone, PartialEq, Eq)]
pub struct Segment {
    /// Whether this is the last segment of the transfer.
    pub last: bool,
    /// How many of the bytes in `data` belong to the segment.
    pub len: usize,
    /// The bytes of the segment, followed by zeros.
    pub data: [u8; 7],
}

/// A segment as a mathematical value.
#[verifier::ext_equal]
pub struct SegmentView {
    pub last: bool,
    pub bytes: Seq<u8>,
}

impl Segment {
    /// The bytes fit the room for them, and what is left of the room is zero.
    pub open spec fn well_formed(self) -> bool {
        &&& self.len <= 7
        &&& forall|i: int| self.len <= i < 7 ==> #[trigger] self.data@[i] == 0
    }
}

impl View for Segment {
    type V = SegmentView;

    open spec fn view(&self) -> SegmentView {
        SegmentView { last: self.last, bytes: self.data@.take(self.len as int) }
    }
}

/// The server's answer to the opening of a block write.
#[derive(Debug, Clone, Copy, PartialEq, Eq)]
pub struct BlockInit {
    /// How many segments the server takes before it acknowledges them.
    pub blksize: u8,
    /// Whether the server checks a checksum.
    pub server_supports_crc: bool,
}

/// The server's acknowledgement of a block.
#[derive(Debug, Clone, Copy, PartialEq, Eq)]
pub struct BlockAck {
    /// The number of the last segment that arrived in order.
    pub ackseq: u8,
    /// How many segments the next block may hold.
    pub next_blksize: u8,
}

/// An answer, on the signal of the request that it answers.
#[derive(Debug, PartialEq)]
pub enum Response<E> {
    Word(Result<u32, SdoError<E>>),
    Segment(Result<Segment, SdoError<E>>),
    Ack(Result<(), SdoError<E>>),
    BlockInit(Result<BlockInit, SdoError<E>>),
    BlockAck(Result<BlockAck, SdoError<E>>),
}

/// What an answer says, whatever signal it comes on.
#[verifier::ext_equal]
pub enum Reply<E> {
    Word(u32),
    Segment(SegmentView),
    Ack,
    BlockInit(BlockInit),
    BlockAck(BlockAck),
    Failed(SdoError<E>),
}

impl<E> Response<E> {
    /// The signal on which the answer is delivered.
    pub open spec fn channel(self) -> Channel {
        match self {
            Response::Word(_) => Channel::Word,
            Response::Segment(_) => Channel::Segment,
            Response::Ack(_) => Channel::Ack,
            Response::BlockInit(_) => Channel::BlockInit,
            Response::BlockAck(_) => Channel::BlockAck,
        }
    }

    /// What the answer says.
    pub open spec fn reply(self) -> Reply<E> {
        match self {
            Response::Word(Ok(word)) => Reply::Word(word),
            Response::Segment(Ok(segment)) => Reply::Segment(segment@),
            Response::Ack(Ok(_)) => Reply::Ack,
            Response::BlockInit(Ok(init)) => Reply::BlockInit(init),
            Response::BlockAck(Ok(ack)) => Reply::BlockAck(ack),
            Response::Word(Err(error)) => Reply::Failed(error),
            Response::Segment(Err(error)) => Reply::Failed(error),
            Response::Ack(Err(error)) => Reply::Failed(error),
            Response::BlockInit(Err(error)) => Reply::Failed(error),
            Response::BlockAck(Err(error)) => Reply::Failed(error),
        }
    }

    /// A segment in the answer is well formed.
    pub open spec fn well_formed(self) -> bool {
        self matches Response::Segment(Ok(segment)) ==> segment.well_formed()
    }
}

/// The data of a frame names the given object.
pub open spec fn names_object(data: Seq<u8>, index: u16, sub: u8) -> bool {
    &&& le_value(data.subrange(1, 3)) == index
    &&& data[3] == sub
}

/// What the data of a frame says in answer to the request `pending`.
pub open spec fn reply_to<E>(pending: Pending, data: Seq<u8>) -> Reply<E> {
    let command = data[0];
    let invalid = Reply::Failed(SdoError::InvalidResponse);
    if data.len() != FRAME_LEN {
        invalid
    } else if command == 0x80 {
        Reply::Failed(SdoError::SdoAbort(le_value(data.subrange(4, 8)) as u32))
    } else {
        match pending {
            Pending::ExpeditedRead { index, sub } => {
                if !names_object(data, index, sub) {
                    invalid
                } else if command == 0x43 || command == 0x47 || command == 0x4B || command == 0x4F {
                    // The command counts the bytes at the end of the frame that are unused.
                    Reply::Word(le_value(data.subrange(4, 8 - (command - 0x43) / 4)) as u32)
                } else if command == 0x41 {
                    // The size of a segmented transfer.
                    Reply::Word(le_value(data.subrange(4, 8)) as u32)
                } else {
                    invalid
                }
            },
            Pending::ExpeditedWrite { index, sub } | Pending::SegmentedDownloadInit {
                index,
                sub,
            } => {
                if names_object(data, index, sub) && command == 0x60 {
                    Reply::Ack
                } else {
                    invalid
                }
            },
            Pending::UploadSegment { toggle } => {
                // 000t nnnc: the toggle bit, the count of unused bytes, the mark of the end
                if command < 0x20 && (command / 16 == 1) == toggle {
                    Reply::Segment(
                        SegmentView {
                            last: command % 2 == 1,
                            bytes: data.subrange(1, 8 - command / 2 % 8),
                        },
                    )
                } else {
                    invalid
                }
            },
            Pending::DownloadSegment { toggle } => {
                if command == (if toggle {
                    0x30u8
                } else {
                    0x20u8
                }) {
                    Reply::Ack
                } else {
                    invalid
                }
            },
            Pending::BlockDownloadInitiate { index, sub } => {
                if (command == 0xA0 || command == 0xA4) && names_object(data, index, sub) {
                    Reply::BlockInit(
                        BlockInit { blksize: data[4], server_supports_crc: command == 0xA4 },
                    )
                } else {
                    invalid
                }
            },
            Pending::BlockDownloadAck => {
                if command == 0xA2 {
                    Reply::BlockAck(BlockAck { ackseq: data[1], next_blksize: data[2] })
                } else {
                    invalid
                }
            },
            Pending::BlockDownloadEnd => {
                if command == 0xA1 {
                    Reply::Ack
                } else {
                    invalid
                }
            },
        }
    }
}

/// Delivers `error` on the signal on which the request waits.
pub fn signal_error<E>(pending: Pending, error: SdoError<E>) -> (response: Response<E>)
    ensures
        response.channel() == pending.channel(),
        response.reply() == Reply::Failed(error),
        response.well_formed(),
{
    match pending {
        Pending::ExpeditedRead { .. } => Response::Word(Err(error)),
        Pending::ExpeditedWrite { .. }
        | Pending::SegmentedDownloadInit { .. }
        | Pending::DownloadSegment { .. }
        | Pending::BlockDownloadEnd => Response::Ack(Err(error)),
        Pending::UploadSegment { .. } => Response::Segment(Err(error)),
        Pending::BlockDownloadInitiate { .. } => Response::BlockInit(Err(error)),
        Pending::BlockDownloadAck => Response::BlockAck(Err(error)),
    }
}

/// Whether the data of a frame names the given object.
fn checks_object(data: &[u8], index: u16, sub: u8) -> (same: bool)
    requires
        data.len() == FRAME_LEN,
    ensures
        same == names_object(data@, index, sub),
{
    read_le(data, 1, 2) == index as u32 && data[3] == sub
}

/// Reads the answer to an expedited read.
fn decode_word<E>(data: &[u8], index: u16, sub: u8) -> (response: Result<u32, SdoError<E>>)
    requires
        data.len() == FRAME_LEN,
        data@[0] != 0x80,
    ensures
        Response::Word(response).reply() == reply_to::<E>(
            Pending::ExpeditedRead { index, sub },
            data@,
        ),
{
    if !checks_object(data, index, sub) {
        return Err(SdoError::InvalidResponse);
    }
    let command = data[0];
    if command == 0x43 || command == 0x47 || command == 0x4B || command == 0x4F {
        let unused: usize = ((command & 0x0C) >> 2) as usize;
        proof {
            assert(unused == (command - 0x43) / 4) by {
                assert((command & 0x0C) >> 2 == (command - 0x43) / 4) by (bit_vector)
                    requires
                        command == 0x43 || command == 0x47 || command == 0x4B || command == 0x4F,
                ;
            }
        }
        Ok(read_le(data, 4, 4 - unused))
    } else if command == 0x41 {
        Ok(read_le(data, 4, 4))
    } else {
        Err(SdoError::InvalidResponse)
    }
}

/// Reads a segment of a segmented read.
fn decode_segment<E>(data: &[u8], toggle: bool) -> (response: Result<Segment, SdoError<E>>)
    requires
        data.len() == FRAME_LEN,
        data@[0] != 0x80,
    ensures
        Response::Segment(response).reply() == reply_to::<E>(
            Pending::UploadSegment { toggle },
            data@,
        ),
        Response::Segment(response).well_formed(),
{
    let command = data[0];
    proof {
        assert((command & 0xE0 == 0) == (command < 0x20)) by (bit_vector);
        assert(command < 0x20 ==> (command & 0x10 != 0) == (command / 16 == 1)) by (bit_vector);
        assert((command & 0x01 != 0) == (command % 2 == 1)) by (bit_vector);
        assert((command & 0x0E) >> 1 == command / 2 % 8) by (bit_vector);
    }
    if (command & 0xE0) != 0x00 {
        return Err(SdoError::InvalidResponse);
    }
    let response_toggle = (command & 0x10) != 0;
    if response_toggle != toggle {
        return Err(SdoError::InvalidResponse);
    }
    let last = (command & 0x01) != 0;
    let unused: usize = ((command & 0x0E) >> 1) as usize;
    let len: usize = 7 - unused;
    let mut bytes: [u8; 7] = [0u8; 7];
    let mut i: usize = 0;
    while i < len
        invariant
            i <= len <= 7,
            data.len() == FRAME_LEN,
            forall|j: int| 0 <= j < i ==> bytes@[j] == data@[1 + j],
            forall|j: int| i <= j < 7 ==> #[trigger] bytes@[j] == 0,
        decreases len - i,
    {
        bytes[i] = data[1 + i];
        i = i + 1;
    }
    let segment = Segment { last, len, data: bytes };
    proof {
        assert(segment@.bytes =~= data@.subrange(1, 1 + len));
    }
    Ok(segment)
}

/// Reads the data of a frame as the answer to the request `pending`.
pub fn decode<E>(pending: Pending, data: &[u8]) -> (response: Response<E>)
    ensures
        response.channel() == pending.channel(),
        response.reply() == reply_to::<E>(pending, data@),
        response.well_formed(),
{
    if data.len() != FRAME_LEN {
        return signal_error(pending, SdoError::InvalidResponse);
    }
    let command = data[0];
    if command == 0x80 {
        let abort_code: u32 = read_le(data, 4, 4);
        return signal_error(pending, SdoError::SdoAbort(abort_code));
    }
    match pending {
        Pending::ExpeditedRead { index, sub } => Response::Word(decode_word(data, index, sub)),
        Pending::ExpeditedWrite { index, sub } | Pending::SegmentedDownloadInit { index, sub } => {
            if checks_object(data, index, sub) && command == 0x60 {
                Response::Ack(Ok(()))
            } else {
                Response::Ack(Err(SdoError::InvalidResponse))
            }
        },
        Pending::UploadSegment { toggle } => Response::Segment(decode_segment(data, toggle)),
        Pending::DownloadSegment { toggle } => {
            proof {
                assert((command & 0b1110_1111 == 0b0010_0000) == (command == 0x20 || command
                    == 0x30)) by (bit_vector);
                assert(0x20u8 & 0b0001_0000 == 0 && 0x30u8 & 0b0001_0000 != 0) by (bit_vector);
            }
            // 001t 0000
            if (command & 0b1110_1111) == 0b0010_0000 && ((command & 0b0001_0000) != 0) == toggle {
                Response::Ack(Ok(()))
            } else {
                Response::Ack(Err(SdoError::InvalidResponse))
            }
        },
        Pending::BlockDownloadInitiate { index, sub } => {
            proof {
                assert((command & 0b1111_1011 == 0b1010_0000) == (command == 0xA0 || command
                    == 0xA4)) by (bit_vector);
                assert(0xA0u8 & 0b0000_0100 == 0 && 0xA4u8 & 0b0000_0100 != 0) by (bit_vector);
            }
            // 1010 0r00
            if (command & 0b1111_1011) == 0b1010_0000 && checks_object(data, index, sub) {
                Response::BlockInit(
                    Ok(
                        BlockInit {
                            blksize: data[4],
                            server_supports_crc: (command & 0b0000_0100) != 0,
                        },
                    ),
                )
            } else {
                Response::BlockInit(Err(SdoError::InvalidResponse))
            }
        },
        Pending::BlockDownloadAck => {
            if command == 0xA2 {
                Response::BlockAck(Ok(BlockAck { ackseq: data[1], next_blksize: data[2] }))
            } else {
                Response::BlockAck(Err(SdoError::InvalidResponse))
            }
        },
        Pending::BlockDownloadEnd => {
            if command == 0xA1 {
                Response::Ack(Ok(()))
            } else {
                Response::Ack(Err(SdoError::InvalidResponse))
            }
        },
    }
}

} // verus!
