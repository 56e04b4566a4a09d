//! The segmented read: the server sends a value in segments, each on request.

use vstd::prelude::*;

use crate::client::{request_frame, Outcome, SdoClient};
use crate::error::SdoError;
use crate::frame::{write_at, CanFrame};
use crate::pending::Pending;
use crate::request::{upload_request, upload_segment_request, SdoRequest};
use crate::response::{Segment, SegmentView};

verus! {

/// A segmented read under way.
pub struct SegmentedUpload {
    size: usize,
    offset: usize,
    toggle: bool,
}

/// A segmented read as a mathematical value.
pub struct UploadView {
    /// How many bytes the server announced.
    pub size: nat,
    /// How many bytes have arrived.
    pub offset: nat,
    /// The toggle bit of the request in flight.
    pub toggle: bool,
}

impl View for SegmentedUpload {
    type V = UploadView;

    closed spec fn view(&self) -> UploadView {
        UploadView { size: self.size as nat, offset: self.offset as nat, toggle: self.toggle }
    }
}

/// `buf` with `bytes` written over it from `offset` on.
pub open spec fn written(buf: Seq<u8>, offset: int, bytes: Seq<u8>) -> Seq<u8> {
    buf.take(offset) + bytes + buf.skip(offset + bytes.len())
}

impl UploadView {
    /// The state in which a read of `size` bytes starts.
    pub open spec fn start(size: nat) -> UploadView {
        UploadView { size, offset: 0, toggle: false }
    }

    /// There is room for the bytes of the segment.
    pub open spec fn has_room(self, segment: SegmentView) -> bool {
        self.offset + segment.bytes.len() <= self.size
    }

    /// The state after a segment has arrived.
    pub open spec fn after(self, segment: SegmentView) -> UploadView {
        UploadView {
            offset: self.offset + segment.bytes.len(),
            toggle: if segment.last {
                self.toggle
            } else {
                !self.toggle
            },
            ..self
        }
    }
}

impl SdoClient {
    /// Starts a segmented read of an object. The server answers with the size of the value; that
    /// answer goes to `SegmentedUpload::initiated`.
    pub fn read_segmented(&mut self, index: u16, sub: u8) -> (frame: CanFrame)
        ensures
            frame@ == request_frame(old(self).node_id(), upload_request(index, sub)),
            final(self).pending() == Some(Pending::ExpeditedRead { index, sub }),
            final(self).node_id() == old(self).node_id(),
    {
        self.read_expedited(index, sub)
    }
}

impl SegmentedUpload {
    #[verifier::type_invariant]
    spec fn inv(self) -> bool {
        self.offset <= self.size
    }

    /// Takes the answer that tells the size of the value. If a buffer of `buf_len` bytes can hold
    /// it, gives the request for the first segment.
    pub fn initiated<E>(client: &mut SdoClient, buf_len: usize, outcome: Outcome<u32, E>) -> (next:
        Result<(Self, CanFrame), SdoError<E>>)
        ensures
            final(client).node_id() == old(client).node_id(),
            match outcome.result() {
                Err(error) => {
                    &&& next == Err::<(Self, CanFrame), SdoError<E>>(error)
                    &&& final(client).pending() == None::<Pending>
                },
                Ok(size) if size > buf_len => {
                    &&& next == Err::<(Self, CanFrame), SdoError<E>>(SdoError::BufferSizeWrong)
                    &&& final(client).pending() == None::<Pending>
                },
                Ok(size) => {
                    &&& next matches Ok((transfer, frame))
                    &&& transfer@ == UploadView::start(size as nat)
                    &&& frame@ == request_frame(
                        old(client).node_id(),
                        upload_segment_request(false),
                    )
                    &&& final(client).pending() == Some(Pending::UploadSegment { toggle: false })
                },
            },
    {
        let size: usize = match client.response(outcome) {
            Ok(size) => size as usize,
            Err(error) => {
                return Err(error);
            },
        };
        if size > buf_len {
            return Err(SdoError::BufferSizeWrong);
        }
        let transfer = Self { size, offset: 0, toggle: false };
        let frame = client.request(
            SdoRequest::UploadSegment { toggle: false },
            Pending::UploadSegment { toggle: false },
        );
        Ok((transfer, frame))
    }

    /// Whether the segment is one that `received` takes: its bytes are there, and they do not run
    /// past the size that the server announced.
    pub fn accepts(&self, segment: &Segment) -> (accepts: bool)
        ensures
            accepts == (segment.len <= 7 && self@.has_room(segment@)),
    {
        proof {
            use_type_invariant(self);
        }
        segment.len <= 7 && segment.len <= self.size - self.offset
    }

    /// Takes the answer to the request for a segment, and writes the segment's bytes into `buf`
    /// behind those that came before. Unless it is the last segment, gives the request for the
    /// next one, with the other toggle bit.
    pub fn received<E>(
        &mut self,
        client: &mut SdoClient,
        buf: &mut [u8],
        outcome: Outcome<Segment, E>,
    ) -> (next: Result<Option<CanFrame>, SdoError<E>>)
        requires
            old(self)@.size <= old(buf).len(),
            outcome.result() matches Ok(segment) ==> segment.len <= 7 && old(self)@.has_room(
                segment@,
            ),
        ensures
            final(client).node_id() == old(client).node_id(),
            match outcome.result() {
                Err(error) => {
                    &&& next == Err::<Option<CanFrame>, SdoError<E>>(error)
                    &&& final(self)@ == old(self)@
                    &&& final(buf)@ == old(buf)@
                    &&& final(client).pending() == None::<Pending>
                },
                Ok(segment) => {
                    &&& final(self)@ == old(self)@.after(segment@)
                    &&& final(buf)@ == written(
                        old(buf)@,
                        old(self)@.offset as int,
                        segment@.bytes,
                    )
                    &&& if segment.last {
                        &&& next == Ok::<Option<CanFrame>, SdoError<E>>(None)
                        &&& final(client).pending() == None::<Pending>
                    } else {
                        let toggle = !old(self)@.toggle;
                        &&& next matches Ok(Some(frame))
                        &&& frame@ == request_frame(
                            old(client).node_id(),
                            upload_segment_request(toggle),
                        )
                        &&& final(client).pending() == Some(Pending::UploadSegment { toggle })
                    }
                },
            },
    {
        proof {
            use_type_invariant(&*self);
        }
        let segment = match client.response(outcome) {
            Ok(segment) => segment,
            Err(error) => {
                return Err(error);
            },
        };
        let bytes = vstd::slice::slice_subrange(segment.data.as_slice(), 0, segment.len);
        proof {
            assert(bytes@ =~= segment@.bytes);
        }
        write_at(buf, self.offset, bytes);
        self.offset = self.offset + segment.len;
        if segment.last {
            return Ok(None);
        }
        self.toggle = !self.toggle;
        let frame = client.request(
            SdoRequest::UploadSegment { toggle: self.toggle },
            Pending::UploadSegment { toggle: self.toggle },
        );
        Ok(Some(frame))
    }
}

} // verus!
