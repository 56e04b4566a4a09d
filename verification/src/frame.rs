//! CAN frames, and the byte order of the numbers inside them.

use vstd::prelude::*;

verus! {

/// The largest identifier of a standard CAN frame.
pub const MAX_STANDARD_ID: u16 = 0x7FF;

/// The number of data bytes in an SDO frame.
pub const FRAME_LEN: usize = 8;

/// A standard CAN frame that carries an SDO request.
#[derive(Debug, Clone, Copy, PartialEq, Eq)]
pub struct CanFrame {
    /// The 11-bit identifier.
    pub id: u16,
    /// The data bytes.
    pub data: [u8; 8],
}

/// A frame as a mathematical value.
#[verifier::ext_equal]
pub struct FrameView {
    pub id: u16,
    pub data: Seq<u8>,
}

impl View for CanFrame {
    type V = FrameView;

    open spec fn view(&self) -> FrameView {
        FrameView { id: self.id, data: self.data@ }
    }
}

/// The frames of a list as mathematical values.
pub open spec fn views(frames: Seq<CanFrame>) -> Seq<FrameView> {
    frames.map_values(|frame: CanFrame| frame@)
}

/// The identifier of a received frame.
#[derive(Debug, Clone, Copy, PartialEq, Eq)]
pub enum FrameId {
    /// An 11-bit identifier.
    Standard(u16),
    /// A 29-bit identifier.
    Extended(u32),
}

/// The two bytes of `value`, least significant first.
pub open spec fn le16(value: u16) -> Seq<u8> {
    seq![(value % 256) as u8, (value / 256) as u8]
}

/// The four bytes of `value`, least significant first.
pub open spec fn le32(value: u32) -> Seq<u8> {
    seq![
        (value % 256) as u8,
        (value / 0x100 % 256) as u8,
        (value / 0x1_0000 % 256) as u8,
        (value / 0x100_0000) as u8,
    ]
}

/// The number whose bytes, least significant first, are `bytes`.
pub open spec fn le_value(bytes: Seq<u8>) -> nat
    decreases bytes.len(),
{
    if bytes.len() == 0 {
        0
    } else {
        bytes[0] as nat + 256 * le_value(bytes.drop_first())
    }
}

/// `bytes`, filled up with zeros to the length of a frame.
pub open spec fn padded(bytes: Seq<u8>) -> Seq<u8> {
    Seq::new(
        FRAME_LEN as nat,
        |i: int|
            if i < bytes.len() {
                bytes[i]
            } else {
                0u8
            },
    )
}

/// The smallest number that does not fit in `count` bytes.
pub open spec fn byte_range(count: nat) -> nat
    decreases count,
{
    if count == 0 {
        1
    } else {
        256 * byte_range((count - 1) as nat)
    }
}

/// A number of `bytes.len()` bytes is below `byte_range(bytes.len())`.
pub(crate) proof fn lemma_le_value_bound(bytes: Seq<u8>)
    ensures
        le_value(bytes) < byte_range(bytes.len()),
    decreases bytes.len(),
{
    if bytes.len() > 0 {
        lemma_le_value_bound(bytes.drop_first());
    }
}

/// Reading back the bytes of a 16-bit number gives the number.
pub proof fn law_le16_round_trip(value: u16)
    ensures
        le_value(le16(value)) == value,
{
    reveal_with_fuel(le_value, 3);
}

/// Reading back the bytes of a 32-bit number gives the number.
pub proof fn law_le32_round_trip(value: u32)
    ensures
        le_value(le32(value)) == value,
{
    reveal_with_fuel(le_value, 5);
}

/// The number that `len` bytes of `data` at `start` hold, least significant first.
pub(crate) fn read_le(data: &[u8], start: usize, len: usize) -> (value: u32)
    requires
        start + len <= data.len(),
        len <= 4,
    ensures
        value == le_value(data@.subrange(start as int, start + len)),
        value < byte_range(len as nat),
{
    let mut value: u32 = 0;
    let mut left: usize = len;
    proof {
        reveal_with_fuel(byte_range, 5);
        assert(data@.subrange(start + len, start + len) =~= Seq::empty());
    }
    while left > 0
        invariant
            start + len <= data.len(),
            left <= len <= 4,
            value == le_value(data@.subrange(start + left, start + len)),
            value < byte_range((len - left) as nat),
        decreases left,
    {
        left = left - 1;
        proof {
            reveal_with_fuel(byte_range, 5);
            let tail = data@.subrange(start + left, start + len);
            assert(tail.drop_first() =~= data@.subrange(start + left + 1, start + len));
        }
        value = value * 256 + data[start + left] as u32;
    }
    value
}

/// The bytes of a 16-bit number, least significant first.
pub(crate) fn u16_bytes(value: u16) -> (bytes: [u8; 2])
    ensures
        bytes@ == le16(value),
{
    [(value % 256) as u8, (value / 256) as u8]
}

/// The bytes of a 32-bit number, least significant first.
pub(crate) fn u32_bytes(value: u32) -> (bytes: [u8; 4])
    ensures
        bytes@ == le32(value),
{
    [
        (value % 256) as u8,
        (value / 0x100 % 256) as u8,
        (value / 0x1_0000 % 256) as u8,
        (value / 0x100_0000) as u8,
    ]
}

/// Writes `bytes` into `data`, starting at `start`.
pub(crate) fn write_at(data: &mut [u8], start: usize, bytes: &[u8])
    requires
        start + bytes.len() <= old(data).len(),
    ensures
        final(data)@ == old(data)@.take(start as int) + bytes@ + old(data)@.skip(
            start + bytes.len(),
        ),
{
    let ghost before = data@;
    let mut i: usize = 0;
    while i < bytes.len()
        invariant
            start + bytes.len() <= before.len(),
            data.len() == before.len(),
            i <= bytes.len(),
            forall|j: int|
                0 <= j < before.len() ==> #[trigger] data@[j] == (if start <= j < start + i {
                    bytes@[j - start]
                } else {
                    before[j]
                }),
        decreases bytes.len() - i,
    {
        data[start + i] = bytes[i];
        i = i + 1;
    }
    proof {
        assert(data@ =~= before.take(start as int) + bytes@ + before.skip(start + bytes.len()));
    }
}

/// Calls `embedded_can::StandardId::new`, and hands the accepted identifier back as the number
/// that `StandardId::as_raw` gives. `new` accepts exactly the numbers of eleven bits, and keeps
/// the number as it is.
#[verifier::external_body]
pub(crate) fn standard_id(raw: u16) -> (id: Option<u16>)
    ensures
        id == (if raw <= MAX_STANDARD_ID {
            Some(raw)
        } else {
            None
        }),
{
    embedded_can::StandardId::new(raw).map(|id| id.as_raw())
}

} // verus!
