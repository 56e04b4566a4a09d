//! The client side of the CANopen service data object (SDO) protocol.

pub mod block;
pub mod client;
pub mod download;
pub mod error;
pub mod frame;
pub mod laws;
pub mod operations;
pub mod pending;
pub mod request;
pub mod response;
pub mod transfers;
pub mod upload;
pub mod wire;

pub use block::{BlockDownload, BlockRequest, BlockStep};
pub use client::{Outcome, SdoClient};
pub use download::SegmentedDownload;
pub use error::SdoError;
pub use frame::{CanFrame, FrameId};
pub use pending::{Pending, PendingGuard};
pub use request::SdoRequest;
pub use response::{BlockAck, BlockInit, Response, Segment};
pub use upload::SegmentedUpload;
