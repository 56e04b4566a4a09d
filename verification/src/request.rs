//! The requests to the server, and the data of the frames that carry them.

use vstd::prelude::*;

use crate::client::{request_frame, SdoClient};
use crate::frame::{le16, le32, padded, u16_bytes, u32_bytes, write_at, CanFrame};

verus! {

/// A request that is sent in one frame and answered by one frame.
pub enum SdoRequest<'a> {
    /// Asks for the value of an object.
    UploadExpedited { index: u16, sub: u8 },
    /// Sends the value of an object, of at most four bytes.
    DownloadExpedited { index: u16, sub: u8, data: &'a [u8] },
    /// Announces the value of an object, which follows in segments.
    InitiateSegmentedDownload { index: u16, sub: u8, size: u32 },
    /// Asks for the next segment of a value.
    UploadSegment { toggle: bool },
    /// Sends a segment of a value, of at most seven bytes.
    DownloadSegment { toggle: bool, last: bool, data: &'a [u8] },
}

/// The data of an upload request.
pub open spec fn upload_request(index: u16, sub: u8) -> Seq<u8> {
    padded(seq![0x40u8] + le16(index) + seq![sub])
}

/// The data of an expedited download: the command counts the unused ones of four bytes.
pub open spec fn download_request(index: u16, sub: u8, bytes: Seq<u8>) -> Seq<u8> {
    padded(seq![(0x23 + 4 * (4 - bytes.len())) as u8] + le16(index) + seq![sub] + bytes)
}

/// The data of the request that opens a segmented download.
pub open spec fn segmented_download_request(index: u16, sub: u8, size: u32) -> Seq<u8> {
    padded(seq![0x21u8] + le16(index) + seq![sub] + le32(size))
}

/// The data of the request for a segment.
pub open spec fn upload_segment_request(toggle: bool) -> Seq<u8> {
    padded(
        seq![
            if toggle {
                0x70u8
            } else {
                0x60u8
            },
        ],
    )
}

/// The command of a segment: the toggle bit, the count of unused bytes, the mark of the last
/// segment.
pub open spec fn segment_command(toggle: bool, last: bool, len: nat) -> u8 {
    ((if toggle {
        16int
    } else {
        0int
    }) + 2 * (7 - len) + (if last {
        1int
    } else {
        0int
    })) as u8
}

/// The data of a segment of a segmented download.
pub open spec fn download_segment(toggle: bool, last: bool, bytes: Seq<u8>) -> Seq<u8> {
    padded(seq![segment_command(toggle, last, bytes.len())] + bytes)
}

/// The data of the request that opens a block download.
pub open spec fn block_download_request(index: u16, sub: u8, size: u32, crc: bool) -> Seq<u8> {
    padded(
        seq![
            if crc {
                0xC6u8
            } else {
                0xC2u8
            },
        ] + le16(index) + seq![sub] + le32(size),
    )
}

/// The data of a segment of a block: its number, with the top bit as the mark of the last segment
/// of the transfer.
pub open spec fn block_segment(seqno: u8, last: bool, bytes: Seq<u8>) -> Seq<u8> {
    padded(
        seq![
            if last && seqno < 0x80 {
                (seqno + 0x80) as u8
            } else {
                seqno
            },
        ] + bytes,
    )
}

/// The data of the request that closes a block download: the count of unused bytes in the last
/// segment, of which the command has room for the four lowest bits, and the checksum.
pub open spec fn block_end_request(unused: u8, crc: u16) -> Seq<u8> {
    padded(seq![(0xC1 + 4 * (unused % 16)) as u8] + le16(crc))
}

impl<'a> SdoRequest<'a> {
    /// The request's data fits in its frame.
    pub open spec fn sendable(self) -> bool {
        match self {
            SdoRequest::DownloadExpedited { index, sub, data } => data.len() <= 4,
            SdoRequest::DownloadSegment { toggle, last, data } => data.len() <= 7,
            _ => true,
        }
    }

    /// The data of the frame that carries the request.
    pub open spec fn payload(self) -> Seq<u8> {
        match self {
            SdoRequest::UploadExpedited { index, sub } => upload_request(index, sub),
            SdoRequest::DownloadExpedited { index, sub, data } => download_request(
                index,
                sub,
                data@,
            ),
            SdoRequest::InitiateSegmentedDownload { index, sub, size } => {
                segmented_download_request(index, sub, size)
            },
            SdoRequest::UploadSegment { toggle } => upload_segment_request(toggle),
            SdoRequest::DownloadSegment { toggle, last, data } => download_segment(
                toggle,
                last,
                data@,
            ),
        }
    }
}

/// The data of a frame that names an object: the command, the object, and `rest`.
fn object_payload(command: u8, index: u16, sub: u8, rest: &[u8]) -> (payload: [u8; 8])
    requires
        rest.len() <= 4,
    ensures
        payload@ == padded(seq![command] + le16(index) + seq![sub] + rest@),
{
    let mut payload: [u8; 8] = [0u8; 8];
    payload[0] = command;
    write_at(&mut payload, 1, &u16_bytes(index));
    payload[3] = sub;
    write_at(&mut payload, 4, rest);
    proof {
        assert(payload@ =~= padded(seq![command] + le16(index) + seq![sub] + rest@));
    }
    payload
}

/// The data of a frame that carries bytes of a value: the command, and `rest`.
fn segment_payload(command: u8, rest: &[u8]) -> (payload: [u8; 8])
    requires
        rest.len() <= 7,
    ensures
        payload@ == padded(seq![command] + rest@),
{
    let mut payload: [u8; 8] = [0u8; 8];
    payload[0] = command;
    write_at(&mut payload, 1, rest);
    proof {
        assert(payload@ =~= padded(seq![command] + rest@));
    }
    payload
}

impl SdoClient {
    /// The request for the value of an object.
    pub fn sdo_upload_request(&self, index: u16, subindex: u8) -> (frame: CanFrame)
        ensures
            frame@ == request_frame(self.node_id(), upload_request(index, subindex)),
    {
        let payload = object_payload(0x40, index, subindex, &[]);
        proof {
            assert(payload@ =~= upload_request(index, subindex));
        }
        self.frame(payload)
    }

    /// The request that writes a value of at most four bytes.
    pub fn sdo_download_request(&self, index: u16, subindex: u8, data: &[u8]) -> (frame: CanFrame)
        requires
            data.len() <= 4,
        ensures
            frame@ == request_frame(self.node_id(), download_request(index, subindex, data@)),
    {
        let unused: u8 = (4 - data.len()) as u8;
        proof {
            assert(unused <= 4 ==> 0b0010_0011u8 | (unused << 2) == 0x23 + 4 * unused)
                by (bit_vector);
        }
        // 0010 nn11
        self.frame(object_payload(0b0010_0011 | (unused << 2), index, subindex, data))
    }

    /// The request that announces a value of `size` bytes, to follow in segments.
    pub fn initiate_segmented_download(&self, index: u16, sub: u8, size: u32) -> (frame: CanFrame)
        ensures
            frame@ == request_frame(self.node_id(), segmented_download_request(index, sub, size)),
    {
        self.frame(object_payload(0x21, index, sub, &u32_bytes(size)))
    }

    /// A segment of a value that is being written.
    pub fn sdo_download_segment(&self, segment_data: &[u8], toggle: bool, last: bool) -> (frame:
        CanFrame)
        requires
            segment_data.len() <= 7,
        ensures
            frame@ == request_frame(self.node_id(), download_segment(toggle, last, segment_data@)),
    {
        let unused: u8 = (7 - segment_data.len()) as u8;
        // 000t nnnc
        let mut command: u8 = 0;
        if toggle {
            command = command | 0b0001_0000;
        }
        command = command | (unused << 1);
        if last {
            command = command | 0b0000_0001;
        }
        proof {
            assert(unused <= 7 ==> {
                &&& 0u8 | (unused << 1) == 2 * unused
                &&& 0u8 | (unused << 1) | 1 == 2 * unused + 1
                &&& 0u8 | 0x10 | (unused << 1) == 16 + 2 * unused
                &&& 0u8 | 0x10 | (unused << 1) | 1 == 16 + 2 * unused + 1
            }) by (bit_vector);
        }
        self.frame(segment_payload(command, segment_data))
    }

    /// The request for the next segment of a value that is being read.
    pub fn sdo_request_upload_segment(&self, toggle: bool) -> (frame: CanFrame)
        ensures
            frame@ == request_frame(self.node_id(), upload_segment_request(toggle)),
    {
        proof {
            assert(0x60u8 | 0x10 == 0x70 && 0x60u8 | 0x00 == 0x60) by (bit_vector);
        }
        // 011t 0000
        let command: u8 = 0x60 | (if toggle {
            0x10
        } else {
            0x00
        });
        let payload = segment_payload(command, &[]);
        proof {
            assert(payload@ =~= upload_segment_request(toggle));
        }
        self.frame(payload)
    }

    /// The request that announces a value of `size` bytes, to follow in blocks.
    pub fn initiate_block_download(&self, index: u16, sub: u8, size: u32, crc: bool) -> (frame:
        CanFrame)
        ensures
            frame@ == request_frame(
                self.node_id(),
                block_download_request(index, sub, size, crc),
            ),
    {
        // 1100 0rs0
        let mut command: u8 = 0b1100_0000;
        if crc {
            command = command | 0b0000_0100;
        }
        command = command | 0b0000_0010;
        proof {
            assert(0b1100_0000u8 | 0b100 | 0b10 == 0xC6 && 0b1100_0000u8 | 0b10 == 0xC2)
                by (bit_vector);
        }
        self.frame(object_payload(command, index, sub, &u32_bytes(size)))
    }

    /// A segment of a block.
    pub fn block_download_segment(
        &self,
        segment_data: &[u8],
        seqno: u8,
        last_segment: bool,
    ) -> (frame: CanFrame)
        requires
            segment_data.len() <= 7,
        ensures
            frame@ == request_frame(
                self.node_id(),
                block_segment(seqno, last_segment, segment_data@),
            ),
    {
        // cnnn nnnn
        let mut command: u8 = seqno;
        if last_segment {
            proof {
                assert(seqno | 0x80 == if seqno < 0x80 {
                    seqno + 0x80
                } else {
                    seqno as int
                }) by (bit_vector);
            }
            command = command | 0x80;
        }
        self.frame(segment_payload(command, segment_data))
    }

    /// The request that closes a block download.
    pub fn end_block_download(&self, unused_bytes: u8, crc: u16) -> (frame: CanFrame)
        ensures
            frame@ == request_frame(self.node_id(), block_end_request(unused_bytes, crc)),
    {
        proof {
            assert(0b1100_0001u8 | (unused_bytes << 2) == 0xC1 + 4 * (unused_bytes % 16))
                by (bit_vector);
        }
        // 110n nn01
        self.frame(segment_payload(0b1100_0001 | (unused_bytes << 2), &u16_bytes(crc)))
    }
}

} // verus!
