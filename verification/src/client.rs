//! The client: one node, and at most one request in flight.

use vstd::prelude::*;

use crate::error::SdoError;
use crate::frame::{standard_id, CanFrame, FrameId, FrameView, MAX_STANDARD_ID};
use crate::pending::{Channel, Pending, PendingGuard};
use crate::request::{download_request, upload_request, SdoRequest};
use crate::response::{decode, reply_to, Reply, Response};

verus! {

/// With a node's number added, the identifier of the requests to it.
pub const REQUEST_BASE: u16 = 0x600;

/// With a node's number added, the identifier of its responses.
pub const RESPONSE_BASE: u16 = 0x580;

/// The largest node identifier.
pub const MAX_NODE_ID: u8 = 127;

/// A client of the SDO server on one node.
///
/// The client builds the frames that are to be sent and reads the frames that arrive. Whoever
/// owns it sends the frames, waits for the answers, and tells it how each wait ended.
pub struct SdoClient {
    node_id: u8,
    pending: Option<Pending>,
}

/// How the sending of a request, and the wait for its answer, ended.
#[derive(Debug, PartialEq)]
pub enum Outcome<R, E> {
    /// The transmitter refused the frame.
    TransmitFailed(E),
    /// No answer came in time.
    TimedOut,
    /// The answer that came.
    Answered(Result<R, SdoError<E>>),
}

impl<R, E> Outcome<R, E> {
    /// What a request that ended this way gives to its caller.
    pub open spec fn result(self) -> Result<R, SdoError<E>> {
        match self {
            Outcome::TransmitFailed(error) => Err(SdoError::TxError(error)),
            Outcome::TimedOut => Err(SdoError::Timeout),
            Outcome::Answered(answer) => answer,
        }
    }

    /// Turns the outcome into what the caller of the request gets.
    pub fn into_result(self) -> (result: Result<R, SdoError<E>>)
        ensures
            result == self.result(),
    {
        match self {
            Outcome::TransmitFailed(error) => Err(SdoError::TxError(error)),
            Outcome::TimedOut => Err(SdoError::Timeout),
            Outcome::Answered(answer) => answer,
        }
    }
}

/// The identifier of the requests to a node.
pub open spec fn request_id(node_id: u8) -> int {
    REQUEST_BASE + node_id
}

/// The identifier of the responses of a node.
pub open spec fn response_id(node_id: u8) -> int {
    RESPONSE_BASE + node_id
}

/// The frame that carries `payload` to a node.
pub open spec fn request_frame(node_id: u8, payload: Seq<u8>) -> FrameView {
    FrameView { id: request_id(node_id) as u16, data: payload }
}

/// A frame with this identifier is a response of the node.
pub open spec fn is_response(node_id: u8, id: FrameId) -> bool {
    id matches FrameId::Standard(raw) && raw == response_id(node_id)
}

/// The request in flight after a frame has arrived.
pub open spec fn pending_after(node_id: u8, pending: Option<Pending>, id: FrameId) -> Option<
    Pending,
> {
    if is_response(node_id, id) {
        None
    } else {
        pending
    }
}

/// What the arrival of a frame signals: on which channel, and what.
pub open spec fn signalled<E>(
    node_id: u8,
    pending: Option<Pending>,
    id: FrameId,
    data: Seq<u8>,
) -> Option<(Channel, Reply<E>)> {
    match pending {
        Some(request) if is_response(node_id, id) => Some(
            (request.channel(), reply_to::<E>(request, data)),
        ),
        _ => None,
    }
}

impl SdoClient {
    #[verifier::type_invariant]
    spec fn inv(self) -> bool {
        self.node_id <= MAX_NODE_ID
    }

    /// The node that the client talks to.
    pub closed spec fn node_id(self) -> u8 {
        self.node_id
    }

    /// The request that waits for its answer.
    pub closed spec fn pending(self) -> Option<Pending> {
        self.pending
    }

    /// Makes a client for a node. Node identifiers go up to 127.
    pub fn new<E>(node_id: u8) -> (client: Result<Self, SdoError<E>>)
        ensures
            node_id > MAX_NODE_ID ==> client == Err::<Self, SdoError<E>>(SdoError::InvalidNodeId),
            node_id <= MAX_NODE_ID ==> (client matches Ok(client) && client.node_id() == node_id
                && client.pending() == None::<Pending>),
    {
        if node_id > MAX_NODE_ID {
            return Err(SdoError::InvalidNodeId);
        }
        Ok(Self { node_id, pending: None })
    }

    /// The frame that carries `payload` to the node.
    pub(crate) fn frame(&self, payload: [u8; 8]) -> (frame: CanFrame)
        ensures
            frame@ == request_frame(self.node_id(), payload@),
            frame.id <= MAX_STANDARD_ID,
    {
        proof {
            use_type_invariant(self);
        }
        let raw: u16 = REQUEST_BASE + self.node_id as u16;
        let id: u16 = standard_id(raw).unwrap();
        CanFrame { id, data: payload }
    }

    /// Notes that `pending` is the request in flight.
    pub(crate) fn arm(&mut self, pending: Pending)
        ensures
            final(self).pending() == Some(pending),
            final(self).node_id() == old(self).node_id(),
    {
        proof {
            use_type_invariant(&*self);
        }
        self.pending = Some(pending);
    }

    /// Forgets the request in flight. Its answer, should it still come, is then ignored.
    pub fn release(&mut self)
        ensures
            final(self).pending() == None::<Pending>,
            final(self).node_id() == old(self).node_id(),
    {
        proof {
            use_type_invariant(&*self);
        }
        let guard = PendingGuard::new(&mut self.pending);
        guard.release();
    }

    /// Starts a request: notes it as the one in flight, and gives the frame to send.
    pub fn request(&mut self, request: SdoRequest<'_>, pending: Pending) -> (frame: CanFrame)
        requires
            request.sendable(),
        ensures
            frame@ == request_frame(old(self).node_id(), request.payload()),
            final(self).pending() == Some(pending),
            final(self).node_id() == old(self).node_id(),
    {
        self.arm(pending);
        match request {
            SdoRequest::UploadExpedited { index, sub } => self.sdo_upload_request(index, sub),
            SdoRequest::DownloadExpedited { index, sub, data } => self.sdo_download_request(
                index,
                sub,
                data,
            ),
            SdoRequest::InitiateSegmentedDownload { index, sub, size } => {
                self.initiate_segmented_download(index, sub, size)
            },
            SdoRequest::UploadSegment { toggle } => self.sdo_request_upload_segment(toggle),
            SdoRequest::DownloadSegment { toggle, last, data } => self.sdo_download_segment(
                data,
                toggle,
                last,
            ),
        }
    }

    /// Ends a request: no request is in flight any more, and its caller gets the result.
    pub fn response<R, E>(&mut self, outcome: Outcome<R, E>) -> (result: Result<R, SdoError<E>>)
        ensures
            result == outcome.result(),
            final(self).pending() == None::<Pending>,
            final(self).node_id() == old(self).node_id(),
    {
        self.release();
        outcome.into_result()
    }

    /// Starts an expedited read of an object: its answer is a value of at most four bytes. What
    /// the request gives in the end is told by `response`.
    pub fn read_expedited(&mut self, index: u16, sub: u8) -> (frame: CanFrame)
        ensures
            frame@ == request_frame(old(self).node_id(), upload_request(index, sub)),
            final(self).pending() == Some(Pending::ExpeditedRead { index, sub }),
            final(self).node_id() == old(self).node_id(),
    {
        self.request(
            SdoRequest::UploadExpedited { index, sub },
            Pending::ExpeditedRead { index, sub },
        )
    }

    /// Starts an expedited write of an object. A value of no byte, or of more than four, is
    /// refused before anything is sent. What the request gives in the end is told by `response`.
    pub fn write_expedited<E>(&mut self, index: u16, sub: u8, data: &[u8]) -> (frame: Result<
        CanFrame,
        SdoError<E>,
    >)
        ensures
            final(self).node_id() == old(self).node_id(),
            1 <= data.len() <= 4 ==> {
                &&& frame matches Ok(frame)
                &&& frame@ == request_frame(
                    old(self).node_id(),
                    download_request(index, sub, data@),
                )
                &&& final(self).pending() == Some(Pending::ExpeditedWrite { index, sub })
            },
            !(1 <= data.len() <= 4) ==> {
                &&& frame == Err::<CanFrame, SdoError<E>>(SdoError::BufferSizeWrong)
                &&& final(self).pending() == old(self).pending()
            },
    {
        if data.is_empty() || data.len() > 4 {
            return Err(SdoError::BufferSizeWrong);
        }
        Ok(
            self.request(
                SdoRequest::DownloadExpedited { index, sub, data },
                Pending::ExpeditedWrite { index, sub },
            ),
        )
    }

    /// Takes a frame that has arrived. Only a response of the node counts, and only while a
    /// request is in flight: it ends the flight, and what it says is to be signalled to the
    /// request.
    pub fn on_frame_received<E>(&mut self, id: FrameId, data: &[u8]) -> (signal: Option<
        Response<E>,
    >)
        ensures
            final(self).node_id() == old(self).node_id(),
            final(self).pending() == pending_after(old(self).node_id(), old(self).pending(), id),
            match signal {
                Some(response) => response.well_formed() && signalled::<E>(
                    old(self).node_id(),
                    old(self).pending(),
                    id,
                    data@,
                ) == Some((response.channel(), response.reply())),
                None => signalled::<E>(old(self).node_id(), old(self).pending(), id, data@)
                    == None::<(Channel, Reply<E>)>,
            },
    {
        proof {
            use_type_invariant(&*self);
        }
        let expected: u16 = RESPONSE_BASE + self.node_id as u16;
        match id {
            FrameId::Standard(raw) => {
                if raw != expected {
                    return None;
                }
            },
            FrameId::Extended(_) => {
                return None;
            },
        }
        let pending = self.pending;
        self.release();
        match pending {
            Some(request) => Some(decode(request, data)),
            None => None,
        }
    }
}

} // verus!
