//! The request that waits for its answer.

use vstd::prelude::*;

verus! {

/// The kind of request that is in flight, with what its answer is held against.
#[derive(Debug, Clone, Copy, PartialEq, Eq)]
pub enum Pending {
    /// An expedited read, or the request that opens a segmented read.
    ExpeditedRead { index: u16, sub: u8 },
    /// An expedited write.
    ExpeditedWrite { index: u16, sub: u8 },
    /// The request that opens a segmented write.
    SegmentedDownloadInit { index: u16, sub: u8 },
    /// The request for the next segment of a segmented read.
    UploadSegment { toggle: bool },
    /// A segment of a segmented write.
    DownloadSegment { toggle: bool },
    /// The request that opens a block write.
    BlockDownloadInitiate { index: u16, sub: u8 },
    /// The segments of one block of a block write.
    BlockDownloadAck,
    /// The request that closes a block write.
    BlockDownloadEnd,
}

/// The signals on which answers are delivered, one for each type of answer.
pub enum Channel {
    /// Carries a number.
    Word,
    /// Carries a segment of a segmented read.
    Segment,
    /// Carries a plain confirmation.
    Ack,
    /// Carries the answer to the opening of a block write.
    BlockInit,
    /// Carries the acknowledgement of a block.
    BlockAck,
}

impl Pending {
    /// The signal on which the request waits.
    pub open spec fn channel(self) -> Channel {
        match self {
            Pending::ExpeditedRead { .. } => Channel::Word,
            Pending::ExpeditedWrite { .. } => Channel::Ack,
            Pending::SegmentedDownloadInit { .. } => Channel::Ack,
            Pending::DownloadSegment { .. } => Channel::Ack,
            Pending::BlockDownloadEnd => Channel::Ack,
            Pending::UploadSegment { .. } => Channel::Segment,
            Pending::BlockDownloadInitiate { .. } => Channel::BlockInit,
            Pending::BlockDownloadAck => Channel::BlockAck,
        }
    }
}

/// The duty to empty the slot of the request in flight, whichever way the request ends.
pub struct PendingGuard<'a> {
    /// The slot that is emptied.
    pub pending: &'a mut Option<Pending>,
}

impl<'a> PendingGuard<'a> {
    /// Takes over the slot, and leaves it as it is until it is released.
    pub fn new(pending: &'a mut Option<Pending>) -> (guard: Self)
        ensures
            *guard.pending == *old(pending),
            *final(guard.pending) == *final(pending),
        no_unwind
    {
        Self { pending }
    }

    /// Empties the slot and gives it back.
    pub fn release(self)
        ensures
            *final(self.pending) == None::<Pending>,
        no_unwind
    {
        *self.pending = None;
    }
}

} // verus!
