//! The segmented write: the client sends a value in segments, each of them confirmed.

use vstd::prelude::*;

use crate::client::{request_frame, Outcome, SdoClient};
use crate::error::SdoError;
use crate::frame::CanFrame;
use crate::pending::Pending;
use crate::request::{download_segment, segmented_download_request, SdoRequest};

verus! {

/// The number of bytes in a full segment.
pub const SEGMENT_LEN: usize = 7;

/// A segmented write under way.
pub struct SegmentedDownload<'a> {
    data: &'a [u8],
    offset: usize,
    toggle: bool,
}

/// A segmented write as a mathematical value.
#[verifier::ext_equal]
pub struct DownloadView {
    /// The value that is written.
    pub data: Seq<u8>,
    /// How many segments have been handed out.
    pub sent: nat,
}

/// How many segments `len` bytes take.
pub open spec fn segment_count(len: nat) -> nat {
    (len + 6) / 7
}

/// Where the segment behind the one that starts at `start` starts, or the data ends.
pub open spec fn segment_end(start: nat, len: nat) -> nat {
    if start + 7 < len {
        start + 7
    } else {
        len
    }
}

/// The bytes of a segment of `data`, counted from zero.
pub open spec fn segment_bytes(data: Seq<u8>, number: nat) -> Seq<u8> {
    data.subrange(7 * number as int, segment_end(7 * number, data.len()) as int)
}

/// The data of the frame that carries a segment of `data`, counted from zero: the toggle bit
/// alternates, and the last segment is marked.
pub open spec fn nth_segment(data: Seq<u8>, number: nat) -> Seq<u8> {
    download_segment(
        number % 2 == 1,
        number + 1 == segment_count(data.len()),
        segment_bytes(data, number),
    )
}

/// The size that is announced for a value of `len` bytes: the frame has room for 32 bits.
pub open spec fn announced_size(len: nat) -> u32 {
    (len % 0x1_0000_0000) as u32
}

/// The size to announce for `data`.
pub(crate) fn size_to_announce(data: &[u8]) -> (size: u32)
    ensures
        size == announced_size(data@.len()),
{
    let len: u64 = data.len() as u64;
    proof {
        assert(len as u32 == len % 0x1_0000_0000) by (bit_vector);
    }
    len as u32
}

impl<'a> View for SegmentedDownload<'a> {
    type V = DownloadView;

    closed spec fn view(&self) -> DownloadView {
        DownloadView { data: self.data@, sent: segment_count(self.offset as nat) }
    }
}

impl SdoClient {
    /// Starts a segmented write of an object. The answer goes to `SegmentedDownload::confirmed`.
    pub fn write_segmented<'a>(&mut self, index: u16, sub: u8, data: &'a [u8]) -> (started: (
        SegmentedDownload<'a>,
        CanFrame,
    ))
        ensures
            started.0@ == (DownloadView { data: data@, sent: 0 }),
            started.1@ == request_frame(
                old(self).node_id(),
                segmented_download_request(index, sub, announced_size(data@.len())),
            ),
            final(self).pending() == Some(Pending::SegmentedDownloadInit { index, sub }),
            final(self).node_id() == old(self).node_id(),
    {
        let frame = self.request(
            SdoRequest::InitiateSegmentedDownload { index, sub, size: size_to_announce(data) },
            Pending::SegmentedDownloadInit { index, sub },
        );
        (SegmentedDownload { data, offset: 0, toggle: false }, frame)
    }
}

impl<'a> SegmentedDownload<'a> {
    #[verifier::type_invariant]
    spec fn inv(self) -> bool {
        &&& self.offset <= self.data@.len()
        &&& self.offset < self.data@.len() ==> self.offset % 7 == 0
        &&& self.toggle == (segment_count(self.offset as nat) % 2 == 1)
    }

    /// Takes the server's confirmation of what was sent last, and gives the next segment, if there
    /// is one left.
    pub fn confirmed<E>(
        &mut self,
        client: &mut SdoClient,
        outcome: Outcome<(), E>,
    ) -> (next: Result<Option<CanFrame>, SdoError<E>>)
        ensures
            final(client).node_id() == old(client).node_id(),
            match outcome.result() {
                Err(error) => {
                    &&& next == Err::<Option<CanFrame>, SdoError<E>>(error)
                    &&& final(self)@ == old(self)@
                    &&& final(client).pending() == None::<Pending>
                },
                Ok(_) => if old(self)@.sent < segment_count(old(self)@.data.len()) {
                    let toggle = old(self)@.sent % 2 == 1;
                    &&& next matches Ok(Some(frame))
                    &&& frame@ == request_frame(
                        old(client).node_id(),
                        nth_segment(old(self)@.data, old(self)@.sent),
                    )
                    &&& final(self)@ == (DownloadView {
                        data: old(self)@.data,
                        sent: old(self)@.sent + 1,
                    })
                    &&& final(client).pending() == Some(Pending::DownloadSegment { toggle })
                } else {
                    &&& next == Ok::<Option<CanFrame>, SdoError<E>>(None)
                    &&& final(self)@ == old(self)@
                    &&& final(client).pending() == None::<Pending>
                },
            },
    {
        proof {
            use_type_invariant(&*self);
        }
        match client.response(outcome) {
            Ok(()) => {},
            Err(error) => {
                return Err(error);
            },
        }
        let len: usize = self.data.len();
        let start: usize = self.offset;
        if start >= len {
            return Ok(None);
        }
        let end: usize = if len - start > SEGMENT_LEN {
            start + SEGMENT_LEN
        } else {
            len
        };
        let toggle = self.toggle;
        let chunk = vstd::slice::slice_subrange(self.data, start, end);
        proof {
            assert(start == 7 * segment_count(start as nat));
            assert(chunk@ =~= segment_bytes(self.data@, segment_count(start as nat)));
        }
        let frame = client.request(
            SdoRequest::DownloadSegment { toggle, last: end == len, data: chunk },
            Pending::DownloadSegment { toggle },
        );
        *self = SegmentedDownload { data: self.data, offset: end, toggle: !toggle };
        Ok(Some(frame))
    }
}

} // verus!
