//! The block write: the client sends a value in blocks of segments, each block acknowledged as a
//! whole.

use vstd::prelude::*;

use crate::client::{request_frame, Outcome, SdoClient};
use crate::download::{
    announced_size, segment_count, segment_end, size_to_announce, SEGMENT_LEN,
};
use crate::error::SdoError;
use crate::frame::{views, CanFrame, FrameView};
use crate::pending::Pending;
use crate::request::{block_download_request, block_end_request, block_segment};
use crate::response::{BlockAck, BlockInit};

verus! {

/// The abort code for a block size outside of 1 to 127.
pub const ABORT_INVALID_BLOCK_SIZE: u32 = 0x0504_0002;

/// The largest number of segments in a block.
pub const MAX_BLOCK_SIZE: u8 = 127;

/// The generator polynomial of the checksum, without its leading term.
pub const CRC_POLYNOMIAL: u16 = 0x1021;

/// The register of the checksum after `count` more bits: each shifts the register to the left, and
/// a one that falls out at the top takes the polynomial off.
pub open spec fn crc_shifted(register: u16, count: nat) -> u16
    decreases count,
{
    if count == 0 {
        register
    } else {
        let before = crc_shifted(register, (count - 1) as nat);
        if before >= 0x8000 {
            (before << 1) ^ CRC_POLYNOMIAL
        } else {
            before << 1
        }
    }
}

/// The register of the checksum after `bytes` more, the first of them first. A byte enters at the
/// top of the register.
pub open spec fn crc_fed(register: u16, bytes: Seq<u8>) -> u16
    decreases bytes.len(),
{
    if bytes.len() == 0 {
        register
    } else {
        crc_shifted(crc_fed(register, bytes.drop_last()) ^ ((bytes.last() as u16) << 8), 8)
    }
}

/// The checksum CRC-16/XMODEM of `data`: the register starts at zero, and is the result as it is.
pub open spec fn crc_xmodem(data: Seq<u8>) -> u16 {
    crc_fed(0, data)
}

/// Calls `crc::Crc::<u16>::checksum` with the algorithm `crc::CRC_16_XMODEM`: polynomial 0x1021,
/// initial value 0, no reflection, no final exclusive or. The result is the remainder that this
/// algorithm leaves of the bytes.
#[verifier::external_body]
fn checksum(data: &[u8]) -> (crc: u16)
    ensures
        crc == crc_xmodem(data@),
{
    crc::Crc::<u16>::new(&crc::CRC_16_XMODEM).checksum(data)
}

/// A block write that the server has not agreed to yet.
pub struct BlockRequest<'a> {
    /// The value to write.
    pub data: &'a [u8],
    /// Whether the client offers to send a checksum.
    pub request_crc_support: bool,
}

/// A block write under way.
pub struct BlockDownload<'a> {
    data: &'a [u8],
    use_crc: bool,
    blksize: u8,
    start: usize,
    offset: usize,
    last_seqno: u8,
}

/// What is to be done next in a block write.
#[derive(Debug, PartialEq)]
pub enum BlockStep {
    /// Send these frames in order, and pass to `BlockDownload::transmitted` how it went.
    Transmit(Vec<CanFrame>),
    /// Send this frame, wait for the confirmation, and pass it to `BlockDownload::ended`.
    End(CanFrame),
}

/// A block write as a mathematical value.
#[verifier::ext_equal]
pub struct BlockView {
    /// The value that is written.
    pub data: Seq<u8>,
    /// Whether the checksum is sent at the end.
    pub use_crc: bool,
    /// How many segments the next block may hold.
    pub blksize: u8,
    /// Where in the data the current block starts.
    pub start: nat,
    /// Where in the data the current block ends.
    pub offset: nat,
    /// How many segments the current block holds.
    pub last_seqno: u8,
}

/// The number of segments in the block that starts at `start`, if `blksize` are allowed.
pub open spec fn block_len(len: nat, start: nat, blksize: u8) -> nat {
    let left = segment_count((len - start) as nat);
    if left < blksize {
        left
    } else {
        blksize as nat
    }
}

/// Where the block of `count` segments that starts at `start` ends.
pub open spec fn block_end(len: nat, start: nat, count: nat) -> nat {
    if start + 7 * count < len {
        start + 7 * count
    } else {
        len
    }
}

/// The bytes of a segment, counted from zero, of the block that starts at `start`.
pub open spec fn block_segment_bytes(data: Seq<u8>, start: nat, number: nat) -> Seq<u8> {
    data.subrange(
        (start + 7 * number) as int,
        segment_end(start + 7 * number, data.len()) as int,
    )
}

/// The data of the frame that carries a segment, counted from zero, of the block that starts at
/// `start`. Segments are numbered from one, and the one that ends the data is marked.
pub open spec fn nth_block_segment(data: Seq<u8>, start: nat, number: nat) -> Seq<u8> {
    block_segment(
        (number + 1) as u8,
        start + 7 * number + 7 >= data.len(),
        block_segment_bytes(data, start, number),
    )
}

/// The frames of the segments from `first` up to, but not with, `end` of the block that starts at
/// `start`.
pub open spec fn block_frames(
    node_id: u8,
    data: Seq<u8>,
    start: nat,
    first: nat,
    end: nat,
) -> Seq<FrameView> {
    Seq::new(
        (end - first) as nat,
        |i: int| request_frame(node_id, nth_block_segment(data, start, (first + i) as nat)),
    )
}

/// The number of bytes that the last segment leaves unused.
pub open spec fn unused_bytes(len: nat) -> nat {
    if len == 0 {
        7
    } else {
        (7 * segment_count(len) - len) as nat
    }
}

/// The checksum that is sent at the end.
pub open spec fn final_crc(data: Seq<u8>, use_crc: bool) -> u16 {
    if use_crc {
        crc_xmodem(data)
    } else {
        0
    }
}

impl BlockView {
    /// The state in which a block write starts.
    pub open spec fn begin(data: Seq<u8>, use_crc: bool, blksize: u8) -> BlockView {
        BlockView { data, use_crc, blksize, start: 0, offset: 0, last_seqno: 0 }
    }

    /// The block size is in range, and the current block lies in the data and ends where its
    /// segments end.
    pub open spec fn well_formed(self) -> bool {
        &&& 1 <= self.blksize <= MAX_BLOCK_SIZE
        &&& self.last_seqno <= MAX_BLOCK_SIZE
        &&& self.last_seqno == 0 ==> self.start == 0
        &&& self.last_seqno > 0 ==> self.start + 7 * (self.last_seqno - 1) < self.data.len()
        &&& self.offset == block_end(self.data.len(), self.start, self.last_seqno as nat)
    }

    /// The state with the next block as the current one.
    pub open spec fn advanced(self) -> BlockView {
        let count = block_len(self.data.len(), self.offset, self.blksize);
        BlockView {
            start: self.offset,
            offset: block_end(self.data.len(), self.offset, count),
            last_seqno: count as u8,
            ..self
        }
    }

    /// The state after the server has set the size of the next block; zero leaves it as it is.
    pub open spec fn resized(self, next_blksize: u8) -> BlockView {
        BlockView {
            blksize: if next_blksize == 0 {
                self.blksize
            } else {
                next_blksize
            },
            ..self
        }
    }

    /// The frames of the current block, from the segment `first` on, counted from zero.
    pub open spec fn frames_from(self, node_id: u8, first: nat) -> Seq<FrameView> {
        block_frames(node_id, self.data, self.start, first, self.last_seqno as nat)
    }

    /// The state in which the next block, or the end of the transfer, is sent from here.
    pub open spec fn next_state(self) -> BlockView {
        if self.offset < self.data.len() {
            self.advanced()
        } else {
            self
        }
    }

    /// What is sent from here: the next block, or the end of the transfer if no data is left.
    pub open spec fn sends_next(self, node_id: u8, step: BlockStep) -> bool {
        if self.offset < self.data.len() {
            step matches BlockStep::Transmit(frames) && views(frames@)
                == self.advanced().frames_from(node_id, 0)
        } else {
            step matches BlockStep::End(frame) && frame@ == request_frame(
                node_id,
                block_end_request(
                    unused_bytes(self.data.len()) as u8,
                    final_crc(self.data, self.use_crc),
                ),
            )
        }
    }

    /// The request in flight when that is sent: a block waits for nothing until it is out.
    pub open spec fn pending_next(self, pending: Option<Pending>) -> Option<Pending> {
        if self.offset < self.data.len() {
            pending
        } else {
            Some(Pending::BlockDownloadEnd)
        }
    }
}

impl<'a> View for BlockDownload<'a> {
    type V = BlockView;

    closed spec fn view(&self) -> BlockView {
        BlockView {
            data: self.data@,
            use_crc: self.use_crc,
            blksize: self.blksize,
            start: self.start as nat,
            offset: self.offset as nat,
            last_seqno: self.last_seqno,
        }
    }
}

impl SdoClient {
    /// Starts a block write of an object. The answer goes to `BlockRequest::initiated`.
    pub fn write_block<'a>(
        &mut self,
        index: u16,
        sub: u8,
        data: &'a [u8],
        request_crc_support: bool,
    ) -> (started: (BlockRequest<'a>, CanFrame))
        ensures
            started.0 == (BlockRequest { data, request_crc_support }),
            started.1@ == request_frame(
                old(self).node_id(),
                block_download_request(
                    index,
                    sub,
                    announced_size(data@.len()),
                    request_crc_support,
                ),
            ),
            final(self).pending() == Some(Pending::BlockDownloadInitiate { index, sub }),
            final(self).node_id() == old(self).node_id(),
    {
        self.arm(Pending::BlockDownloadInitiate { index, sub });
        let frame = self.initiate_block_download(
            index,
            sub,
            size_to_announce(data),
            request_crc_support,
        );
        (BlockRequest { data, request_crc_support }, frame)
    }
}

impl<'a> BlockRequest<'a> {
    /// Takes the server's answer to the opening of the transfer. If it agrees, and allows blocks
    /// of a valid size, gives what is to be sent first.
    pub fn initiated<E>(self, client: &mut SdoClient, outcome: Outcome<BlockInit, E>) -> (next:
        Result<(BlockDownload<'a>, BlockStep), SdoError<E>>)
        ensures
            final(client).node_id() == old(client).node_id(),
            match outcome.result() {
                Err(error) => {
                    &&& next == Err::<(BlockDownload<'a>, BlockStep), SdoError<E>>(error)
                    &&& final(client).pending() == None::<Pending>
                },
                Ok(init) if init.blksize == 0 || init.blksize > MAX_BLOCK_SIZE => {
                    &&& next == Err::<(BlockDownload<'a>, BlockStep), SdoError<E>>(
                        SdoError::SdoAbort(ABORT_INVALID_BLOCK_SIZE),
                    )
                    &&& final(client).pending() == None::<Pending>
                },
                Ok(init) => {
                    let state = BlockView::begin(
                        self.data@,
                        self.request_crc_support && init.server_supports_crc,
                        init.blksize,
                    );
                    &&& next matches Ok((transfer, step))
                    &&& transfer@ == state.next_state()
                    &&& transfer@.well_formed()
                    &&& state.sends_next(old(client).node_id(), step)
                    &&& final(client).pending() == state.pending_next(old(client).pending())
                },
            },
    {
        let init = match outcome.into_result() {
            Ok(init) => init,
            Err(error) => {
                client.release();
                return Err(error);
            },
        };
        if init.blksize == 0 || init.blksize > MAX_BLOCK_SIZE {
            client.release();
            return Err(SdoError::SdoAbort(ABORT_INVALID_BLOCK_SIZE));
        }
        let mut transfer = BlockDownload {
            data: self.data,
            use_crc: self.request_crc_support && init.server_supports_crc,
            blksize: init.blksize,
            start: 0,
            offset: 0,
            last_seqno: 0,
        };
        let step = transfer.next(client);
        Ok((transfer, step))
    }
}

impl<'a> BlockDownload<'a> {
    #[verifier::type_invariant]
    spec fn inv(self) -> bool {
        self@.well_formed()
    }

    /// The frames of the segments from `first` up to, but not with, `end` of the block that starts
    /// at `start`.
    fn frames(&self, client: &SdoClient, start: usize, first: u8, end: u8) -> (frames: Vec<
        CanFrame,
    >)
        requires
            first < end <= MAX_BLOCK_SIZE,
            start + 7 * (end - 1) < self@.data.len(),
        ensures
            views(frames@) == block_frames(
                client.node_id(),
                self@.data,
                start as nat,
                first as nat,
                end as nat,
            ),
    {
        let len: usize = self.data.len();
        let mut frames: Vec<CanFrame> = Vec::new();
        let mut seqno: u8 = first;
        let mut at: usize = start + first as usize * SEGMENT_LEN;
        proof {
            assert(views(frames@) =~= block_frames(
                client.node_id(),
                self@.data,
                start as nat,
                first as nat,
                first as nat,
            ));
        }
        while seqno < end
            invariant
                first <= seqno <= end <= MAX_BLOCK_SIZE,
                start + 7 * (end - 1) < len,
                len == self.data@.len(),
                self.data@ == self@.data,
                seqno < end ==> at == start + 7 * seqno,
                views(frames@) == block_frames(
                    client.node_id(),
                    self@.data,
                    start as nat,
                    first as nat,
                    seqno as nat,
                ),
            decreases end - seqno,
        {
            let chunk_end: usize = if len - at > SEGMENT_LEN {
                at + SEGMENT_LEN
            } else {
                len
            };
            let chunk = vstd::slice::slice_subrange(self.data, at, chunk_end);
            let frame = client.block_download_segment(chunk, seqno + 1, chunk_end == len);
            let ghost before = frames@;
            frames.push(frame);
            proof {
                assert(chunk@ =~= block_segment_bytes(self@.data, start as nat, seqno as nat));
                assert(views(frames@) =~= views(before).push(frame@));
                assert(views(frames@) =~= block_frames(
                    client.node_id(),
                    self@.data,
                    start as nat,
                    first as nat,
                    (seqno + 1) as nat,
                ));
            }
            at = chunk_end;
            seqno = seqno + 1;
        }
        frames
    }

    /// Moves on to the next block, or to the end of the transfer if no data is left.
    fn next(&mut self, client: &mut SdoClient) -> (step: BlockStep)
        ensures
            final(self)@ == old(self)@.next_state(),
            final(self)@.well_formed(),
            old(self)@.sends_next(old(client).node_id(), step),
            final(client).pending() == old(self)@.pending_next(old(client).pending()),
            final(client).node_id() == old(client).node_id(),
    {
        proof {
            use_type_invariant(&*self);
        }
        let len: usize = self.data.len();
        let start: usize = self.offset;
        if start < len {
            // How many segments the rest of the data takes, up to the size of a block.
            let left: usize = (len - start - 1) / SEGMENT_LEN + 1;
            let count: u8 = if left < self.blksize as usize {
                left as u8
            } else {
                self.blksize
            };
            let end: usize = if len - start > count as usize * SEGMENT_LEN {
                start + count as usize * SEGMENT_LEN
            } else {
                len
            };
            proof {
                assert(count == block_len(len as nat, start as nat, self.blksize));
            }
            let frames = self.frames(client, start, 0, count);
            *self = BlockDownload {
                data: self.data,
                use_crc: self.use_crc,
                blksize: self.blksize,
                start,
                offset: end,
                last_seqno: count,
            };
            BlockStep::Transmit(frames)
        } else {
            let crc: u16 = if self.use_crc {
                checksum(self.data)
            } else {
                0x0000
            };
            let unused: u8 = if len == 0 {
                7
            } else {
                let last_segment_len: usize = (len - 1) % SEGMENT_LEN + 1;
                (SEGMENT_LEN - last_segment_len) as u8
            };
            client.arm(Pending::BlockDownloadEnd);
            BlockStep::End(client.end_block_download(unused, crc))
        }
    }

    /// Takes the news that the frames of a step are out, or that one of them was refused. If they
    /// are out, the acknowledgement of the block is what the client waits for.
    pub fn transmitted<E>(&self, client: &mut SdoClient, sent: Result<(), E>) -> (result: Result<
        (),
        SdoError<E>,
    >)
        ensures
            final(client).node_id() == old(client).node_id(),
            match sent {
                Ok(_) => {
                    &&& result == Ok::<(), SdoError<E>>(())
                    &&& final(client).pending() == Some(Pending::BlockDownloadAck)
                },
                Err(error) => {
                    &&& result == Err::<(), SdoError<E>>(SdoError::TxError(error))
                    &&& final(client).pending() == None::<Pending>
                },
            },
    {
        match sent {
            Ok(()) => {
                client.arm(Pending::BlockDownloadAck);
                Ok(())
            },
            Err(error) => {
                client.release();
                Err(SdoError::TxError(error))
            },
        }
    }

    /// Takes the server's acknowledgement of the current block. If it acknowledges all segments,
    /// the transfer goes on; if it acknowledges some, the others are sent again.
    pub fn acknowledged<E>(
        &mut self,
        client: &mut SdoClient,
        outcome: Outcome<BlockAck, E>,
    ) -> (next: Result<BlockStep, SdoError<E>>)
        ensures
            final(client).node_id() == old(client).node_id(),
            final(self)@.well_formed(),
            match outcome.result() {
                Err(error) => {
                    &&& next == Err::<BlockStep, SdoError<E>>(error)
                    &&& final(self)@ == old(self)@
                    &&& final(client).pending() == None::<Pending>
                },
                Ok(ack) => if ack.ackseq > old(self)@.last_seqno {
                    &&& next == Err::<BlockStep, SdoError<E>>(SdoError::InvalidResponse)
                    &&& final(self)@ == old(self)@
                    &&& final(client).pending() == None::<Pending>
                } else if ack.ackseq < old(self)@.last_seqno {
                    &&& next matches Ok(BlockStep::Transmit(frames))
                    &&& views(frames@) == old(self)@.frames_from(
                        old(client).node_id(),
                        ack.ackseq as nat,
                    )
                    &&& final(self)@ == old(self)@
                    &&& final(client).pending() == old(client).pending()
                } else if ack.next_blksize > MAX_BLOCK_SIZE {
                    &&& next == Err::<BlockStep, SdoError<E>>(
                        SdoError::SdoAbort(ABORT_INVALID_BLOCK_SIZE),
                    )
                    &&& final(self)@ == old(self)@
                    &&& final(client).pending() == None::<Pending>
                } else {
                    let state = old(self)@.resized(ack.next_blksize);
                    &&& next matches Ok(step)
                    &&& state.sends_next(old(client).node_id(), step)
                    &&& final(self)@ == state.next_state()
                    &&& final(client).pending() == state.pending_next(old(client).pending())
                },
            },
    {
        proof {
            use_type_invariant(&*self);
        }
        let ack = match outcome.into_result() {
            Ok(ack) => ack,
            Err(error) => {
                client.release();
                return Err(error);
            },
        };
        if ack.ackseq > self.last_seqno {
            client.release();
            return Err(SdoError::InvalidResponse);
        }
        if ack.ackseq < self.last_seqno {
            let frames = self.frames(client, self.start, ack.ackseq, self.last_seqno);
            return Ok(BlockStep::Transmit(frames));
        }
        if ack.next_blksize > MAX_BLOCK_SIZE {
            client.release();
            return Err(SdoError::SdoAbort(ABORT_INVALID_BLOCK_SIZE));
        }
        if ack.next_blksize != 0 {
            self.blksize = ack.next_blksize;
        }
        Ok(self.next(client))
    }

    /// Takes the server's confirmation of the end of the transfer.
    pub fn ended<E>(self, client: &mut SdoClient, outcome: Outcome<(), E>) -> (result: Result<
        (),
        SdoError<E>,
    >)
        ensures
            result == outcome.result(),
            final(client).pending() == None::<Pending>,
            final(client).node_id() == old(client).node_id(),
    {
        client.response(outcome)
    }
}

} // verus!
