//! What the bytes of the frames mean, position by position.

use vstd::prelude::*;

use crate::block::{crc_fed, crc_shifted, crc_xmodem, unused_bytes, BlockView};
use crate::client::request_frame;
use crate::download::{announced_size, nth_segment, segment_bytes, segment_count};
use crate::frame::{le16, le32, le_value, padded, views, CanFrame};
use crate::request::{
    block_download_request, block_end_request, block_segment, download_request, download_segment,
    segmented_download_request, upload_request, upload_segment_request,
};
use crate::response::{names_object, SegmentView};
use crate::upload::{written, UploadView};

verus! {

// Numbers.

/// A 16-bit number takes two bytes, which weigh 1 and 256.
pub proof fn law_two_bytes_make_the_number(value: u16)
    ensures
        le16(value).len() == 2,
        le16(value)[0] + 0x100 * le16(value)[1] == value,
{
}

/// A 32-bit number takes four bytes, each of which weighs 256 times the one before it.
pub proof fn law_four_bytes_make_the_number(value: u32)
    ensures
        le32(value).len() == 4,
        le32(value)[0] + 0x100 * le32(value)[1] + 0x1_0000 * le32(value)[2] + 0x100_0000
            * le32(value)[3] == value,
{
}

/// The value of up to four bytes is their sum, each weighing 256 times the one before it.
pub proof fn law_bytes_weigh_by_position(bytes: Seq<u8>)
    requires
        bytes.len() <= 4,
    ensures
        bytes.len() == 0 ==> le_value(bytes) == 0,
        bytes.len() == 1 ==> le_value(bytes) == bytes[0],
        bytes.len() == 2 ==> le_value(bytes) == bytes[0] + 0x100 * bytes[1],
        bytes.len() == 3 ==> le_value(bytes) == bytes[0] + 0x100 * bytes[1] + 0x1_0000 * bytes[2],
        bytes.len() == 4 ==> le_value(bytes) == bytes[0] + 0x100 * bytes[1] + 0x1_0000 * bytes[2]
            + 0x100_0000 * bytes[3],
{
    reveal_with_fuel(le_value, 5);
}

/// Padding keeps the bytes, puts zeros behind them, and gives eight bytes in all.
pub proof fn law_padding_adds_zeros(bytes: Seq<u8>)
    requires
        bytes.len() <= 8,
    ensures
        padded(bytes).len() == 8,
        padded(bytes).take(bytes.len() as int) == bytes,
        forall|i: int| bytes.len() <= i < 8 ==> padded(bytes)[i] == 0,
{
    assert(padded(bytes).take(bytes.len() as int) =~= bytes);
}

// Requests.

/// A request goes out under the identifier 0x600 with the node's number added, and carries its
/// data as it is.
pub proof fn law_requests_carry_their_data(node_id: u8, payload: Seq<u8>)
    ensures
        request_frame(node_id, payload).id == 0x600 + node_id,
        request_frame(node_id, payload).data == payload,
{
}

/// A list of frames holds what the frames hold, in their order.
pub proof fn law_frames_are_seen_as_they_are(frames: Seq<CanFrame>, i: int)
    requires
        0 <= i < frames.len(),
    ensures
        views(frames).len() == frames.len(),
        views(frames)[i].id == frames[i].id,
        views(frames)[i].data == frames[i].data@,
{
}

/// Where the parts of a frame that names an object stand.
proof fn lemma_object_bytes(command: u8, index: u16, sub: u8, rest: Seq<u8>)
    requires
        rest.len() <= 4,
    ensures
        ({
            let data = padded(seq![command] + le16(index) + seq![sub] + rest);
            &&& data.len() == 8
            &&& data[0] == command
            &&& data[1] + 0x100 * data[2] == index
            &&& data[3] == sub
            &&& data.subrange(4, 4 + rest.len() as int) == rest
            &&& forall|i: int| 4 + rest.len() <= i < 8 ==> data[i] == 0
        }),
{
    let data = padded(seq![command] + le16(index) + seq![sub] + rest);
    law_two_bytes_make_the_number(index);
    assert(data[1] == le16(index)[0]);
    assert(data[2] == le16(index)[1]);
    assert(data.subrange(4, 4 + rest.len() as int) =~= rest);
}

/// Where the size stands in a frame that names an object and ends with a size.
proof fn lemma_size_bytes(command: u8, index: u16, sub: u8, size: u32)
    ensures
        ({
            let data = padded(seq![command] + le16(index) + seq![sub] + le32(size));
            data[4] + 0x100 * data[5] + 0x1_0000 * data[6] + 0x100_0000 * data[7] == size
        }),
{
    let data = padded(seq![command] + le16(index) + seq![sub] + le32(size));
    lemma_object_bytes(command, index, sub, le32(size));
    law_four_bytes_make_the_number(size);
    assert(data.subrange(4, 8)[0] == data[4]);
    assert(data.subrange(4, 8)[1] == data[5]);
    assert(data.subrange(4, 8)[2] == data[6]);
    assert(data.subrange(4, 8)[3] == data[7]);
}

/// The upload request: the command 0x40, the index, the subindex, and nothing else.
pub proof fn law_upload_request_names_its_object(index: u16, sub: u8)
    ensures
        upload_request(index, sub).len() == 8,
        upload_request(index, sub)[0] == 0x40,
        upload_request(index, sub)[1] + 0x100 * upload_request(index, sub)[2] == index,
        upload_request(index, sub)[3] == sub,
        forall|i: int| 4 <= i < 8 ==> upload_request(index, sub)[i] == 0,
{
    let none = Seq::<u8>::empty();
    lemma_object_bytes(0x40, index, sub, none);
    assert(upload_request(index, sub) =~= padded(seq![0x40u8] + le16(index) + seq![sub] + none));
}

/// The expedited download: the command says how many of the four bytes for the value are unused,
/// and a server that leaves them out gets the value, of the object that the request names.
pub proof fn law_download_request_carries_the_value(index: u16, sub: u8, bytes: Seq<u8>)
    requires
        bytes.len() <= 4,
    ensures
        ({
            let data = download_request(index, sub, bytes);
            &&& data.len() == 8
            &&& data[0] == 0x33 - 4 * bytes.len()
            &&& data[1] + 0x100 * data[2] == index
            &&& data[3] == sub
            &&& data.subrange(4, 4 + bytes.len() as int) == bytes
            &&& forall|i: int| 4 + bytes.len() <= i < 8 ==> data[i] == 0
        }),
        ({
            let data = download_request(index, sub, bytes);
            bytes.len() > 0 ==> data.subrange(4, 8 - data[0] / 4 % 4) == bytes
        }),
{
    let data = download_request(index, sub, bytes);
    lemma_object_bytes((0x23 + 4 * (4 - bytes.len())) as u8, index, sub, bytes);
    if bytes.len() > 0 {
        assert(data[0] / 4 % 4 == 4 - bytes.len());
    }
}

/// The request that opens a segmented download: the command 0x21, the object, and the size.
pub proof fn law_segmented_download_request_names_its_object(index: u16, sub: u8, size: u32)
    ensures
        ({
            let data = segmented_download_request(index, sub, size);
            &&& data.len() == 8
            &&& data[0] == 0x21
            &&& data[1] + 0x100 * data[2] == index
            &&& data[3] == sub
            &&& data[4] + 0x100 * data[5] + 0x1_0000 * data[6] + 0x100_0000 * data[7] == size
        }),
{
    lemma_object_bytes(0x21, index, sub, le32(size));
    lemma_size_bytes(0x21, index, sub, size);
}

/// The request for a segment: the command 0x60, with 0x10 added if the toggle bit is set, and
/// nothing else.
pub proof fn law_upload_segment_request_is_a_command(toggle: bool)
    ensures
        upload_segment_request(toggle).len() == 8,
        !toggle ==> upload_segment_request(toggle)[0] == 0x60,
        toggle ==> upload_segment_request(toggle)[0] == 0x70,
        forall|i: int| 1 <= i < 8 ==> upload_segment_request(toggle)[i] == 0,
{
}

/// A segment of a download: from the lowest bit of the command on, the mark of the last segment,
/// the count of unused bytes in three bits, the toggle bit, and zeros. Behind it the bytes.
pub proof fn law_download_segment_carries_its_bytes(toggle: bool, last: bool, bytes: Seq<u8>)
    requires
        bytes.len() <= 7,
    ensures
        ({
            let data = download_segment(toggle, last, bytes);
            &&& data.len() == 8
            &&& (data[0] % 2 == 1) == last
            &&& data[0] / 2 % 8 + bytes.len() == 7
            &&& (data[0] / 16 == 1) == toggle
            &&& data[0] < 0x20
            &&& data.subrange(1, 1 + bytes.len() as int) == bytes
            &&& forall|i: int| 1 + bytes.len() <= i < 8 ==> data[i] == 0
        }),
{
    let data = download_segment(toggle, last, bytes);
    assert(data.subrange(1, 1 + bytes.len() as int) =~= bytes);
}

/// The request that opens a block download: the command 0xC2, with 4 added if a checksum is
/// offered, the object, and the size.
pub proof fn law_block_download_request_names_its_object(
    index: u16,
    sub: u8,
    size: u32,
    crc: bool,
)
    ensures
        ({
            let data = block_download_request(index, sub, size, crc);
            &&& data.len() == 8
            &&& !crc ==> data[0] == 0xC2
            &&& crc ==> data[0] == 0xC6
            &&& data[1] + 0x100 * data[2] == index
            &&& data[3] == sub
            &&& data[4] + 0x100 * data[5] + 0x1_0000 * data[6] + 0x100_0000 * data[7] == size
        }),
{
    let command = if crc {
        0xC6u8
    } else {
        0xC2u8
    };
    lemma_object_bytes(command, index, sub, le32(size));
    lemma_size_bytes(command, index, sub, size);
}

/// A segment of a block: the command is the segment's number, with the top bit set for the last
/// segment of the transfer. Behind it the bytes.
pub proof fn law_block_segment_carries_its_bytes(seqno: u8, last: bool, bytes: Seq<u8>)
    requires
        bytes.len() <= 7,
    ensures
        ({
            let data = block_segment(seqno, last, bytes);
            &&& data.len() == 8
            &&& data[0] % 128 == seqno % 128
            &&& (data[0] >= 128) == (last || seqno >= 128)
            &&& data.subrange(1, 1 + bytes.len() as int) == bytes
            &&& forall|i: int| 1 + bytes.len() <= i < 8 ==> data[i] == 0
        }),
{
    let data = block_segment(seqno, last, bytes);
    assert(data.subrange(1, 1 + bytes.len() as int) =~= bytes);
}

/// The request that closes a block download: the command 0xC1 with the count of unused bytes from
/// its third bit on, the checksum, and nothing else.
pub proof fn law_block_end_request_carries_the_checksum(unused: u8, crc: u16)
    ensures
        ({
            let data = block_end_request(unused, crc);
            &&& data.len() == 8
            &&& data[0] == 0xC1 | (unused << 2)
            &&& unused < 16 ==> data[0] == 0xC1 + 4 * unused
            &&& data[1] + 0x100 * data[2] == crc
            &&& forall|i: int| 3 <= i < 8 ==> data[i] == 0
        }),
{
    assert(0xC1u8 | (unused << 2) == 0xC1 + 4 * (unused % 16)) by (bit_vector);
    law_two_bytes_make_the_number(crc);
    assert(block_end_request(unused, crc)[1] == le16(crc)[0]);
    assert(block_end_request(unused, crc)[2] == le16(crc)[1]);
}

/// A frame names an object if its second and third byte make the index, and its fourth byte is the
/// subindex.
pub proof fn law_objects_are_named_by_three_bytes(data: Seq<u8>, index: u16, sub: u8)
    requires
        data.len() == 8,
    ensures
        names_object(data, index, sub) == (data[1] + 0x100 * data[2] == index && data[3] == sub),
{
    law_bytes_weigh_by_position(data.subrange(1, 3));
}

// Segmented transfers.

/// The segments are as many as it takes to hold all bytes, seven in each, and no more.
pub proof fn law_segments_are_as_few_as_possible(len: nat)
    ensures
        len <= 7 * segment_count(len) < len + 7,
{
}

/// Every byte of the value is in the segment of its seventh, at its place there, and a segment
/// holds no others. All segments but the last are full.
pub proof fn law_every_byte_is_in_its_segment(data: Seq<u8>, number: nat)
    requires
        7 * number < data.len(),
    ensures
        segment_bytes(data, number).len() == if data.len() - 7 * number < 7 {
            data.len() - 7 * number
        } else {
            7
        },
        forall|i: int|
            0 <= i < segment_bytes(data, number).len() ==> #[trigger] segment_bytes(data, number)[i]
                == data[7 * number + i],
{
}

/// The segments of a download: the toggle bit is clear in the first and turns with each, the mark
/// stands in the one that ends the value, and the bytes follow the command with zeros behind them.
pub proof fn law_segments_carry_the_value_in_order(data: Seq<u8>, number: nat)
    requires
        7 * number < data.len(),
    ensures
        ({
            let sent = nth_segment(data, number);
            let left = data.len() - 7 * number;
            &&& sent.len() == 8
            &&& sent[0] == (if left >= 7 {
                0
            } else {
                2 * (7 - left)
            }) + 16 * (number % 2) + (if left <= 7 {
                1int
            } else {
                0
            })
            &&& forall|i: int|
                0 <= i < 7 ==> #[trigger] sent[1 + i] == (if i < left {
                    data[7 * number + i]
                } else {
                    0
                })
        }),
{
    law_every_byte_is_in_its_segment(data, number);
    let bytes = segment_bytes(data, number);
    law_download_segment_carries_its_bytes(
        number % 2 == 1,
        number + 1 == segment_count(data.len()),
        bytes,
    );
    let sent = nth_segment(data, number);
    assert forall|i: int| 0 <= i < bytes.len() implies #[trigger] sent[1 + i] == data[7 * number
        + i] by {
        assert(sent.subrange(1, 1 + bytes.len() as int)[i] == sent[1 + i]);
    }
}

/// The announced size is the value's length, less what does not fit in 32 bits.
pub proof fn law_announced_size_is_the_length(len: nat)
    ensures
        announced_size(len) <= len,
        (len - announced_size(len)) % 0x1_0000_0000 == 0,
{
}

/// Writing into a buffer changes the bytes from `offset` on to `bytes`, and no others.
pub proof fn law_writing_changes_nothing_else(buf: Seq<u8>, offset: int, bytes: Seq<u8>)
    requires
        0 <= offset,
        offset + bytes.len() <= buf.len(),
    ensures
        written(buf, offset, bytes).len() == buf.len(),
        written(buf, offset, bytes).subrange(offset, offset + bytes.len()) == bytes,
        forall|i: int|
            0 <= i < offset || offset + bytes.len() <= i < buf.len() ==> #[trigger] written(
                buf,
                offset,
                bytes,
            )[i] == buf[i],
{
    assert(written(buf, offset, bytes).subrange(offset, offset + bytes.len()) =~= bytes);
}

/// A read starts with nothing arrived and the toggle bit clear. Each segment adds its bytes, and
/// turns the toggle bit unless it is the last; there is room for it as long as what has arrived
/// does not exceed what was announced.
pub proof fn law_arrived_bytes_add_up(size: nat, state: UploadView, segment: SegmentView)
    ensures
        UploadView::start(size).size == size,
        UploadView::start(size).offset == 0,
        !UploadView::start(size).toggle,
        state.after(segment).size == state.size,
        state.after(segment).offset - state.offset == segment.bytes.len(),
        (state.after(segment).toggle == state.toggle) == segment.last,
        state.has_room(segment) == (state.after(segment).offset <= state.size),
{
}

// Block transfers.

/// A new block starts where the one before it ended, and is full: it holds as many segments as the
/// server allows, unless it reaches the end of the data, and then no more than that takes.
pub proof fn law_blocks_are_full(state: BlockView)
    requires
        state.blksize >= 1,
        state.offset < state.data.len(),
    ensures
        ({
            let next = state.next_state();
            &&& next == state.advanced()
            &&& next.last_seqno == state.blksize || next.offset == state.data.len()
            &&& 1 <= next.last_seqno <= state.blksize
            &&& state.offset + 7 * (next.last_seqno - 1) < state.data.len()
            &&& next.start == state.offset
            &&& next.offset == state.offset + 7 * next.last_seqno || next.offset
                == state.data.len()
            &&& next.offset <= state.offset + 7 * next.last_seqno
            &&& next.offset <= state.data.len()
            &&& next.data == state.data
            &&& next.use_crc == state.use_crc
            &&& next.blksize == state.blksize
        }),
{
}

/// With no data left, the state of a block write stays as it is.
pub proof fn law_the_end_of_the_data_is_the_last_state(state: BlockView)
    requires
        state.offset >= state.data.len(),
    ensures
        state.next_state() == state,
{
}

/// A block write starts before the first byte, with what was agreed on.
pub proof fn law_block_writes_start_at_the_front(data: Seq<u8>, use_crc: bool, blksize: u8)
    ensures
        ({
            let state = BlockView::begin(data, use_crc, blksize);
            &&& state.data == data
            &&& state.use_crc == use_crc
            &&& state.blksize == blksize
            &&& state.start == 0
            &&& state.offset == 0
            &&& state.last_seqno == 0
        }),
{
}

/// A new block size is taken over unless it is zero, and changes nothing else.
pub proof fn law_a_new_size_changes_nothing_else(state: BlockView, next_blksize: u8)
    ensures
        ({
            let next = state.resized(next_blksize);
            &&& next_blksize > 0 ==> next.blksize == next_blksize
            &&& next_blksize == 0 ==> next.blksize == state.blksize
            &&& next.data == state.data
            &&& next.use_crc == state.use_crc
            &&& next.start == state.start
            &&& next.offset == state.offset
            &&& next.last_seqno == state.last_seqno
        }),
{
}

/// The frames of a block, from the segment `first` on: each goes to the node, is numbered by its
/// place in the block, is marked if it ends the data, and carries the seven bytes at its place,
/// with zeros where the data has ended.
pub proof fn law_block_frames_carry_the_data_in_order(
    state: BlockView,
    node_id: u8,
    first: nat,
    i: int,
)
    requires
        state.last_seqno <= 127,
        0 <= i < state.last_seqno - first,
        state.start + 7 * (first + i) < state.data.len(),
    ensures
        state.frames_from(node_id, first).len() == state.last_seqno - first,
        ({
            let frame = state.frames_from(node_id, first)[i];
            let at = state.start + 7 * (first + i);
            &&& frame.id == 0x600 + node_id
            &&& frame.data.len() == 8
            &&& frame.data[0] == first + i + 1 + (if at + 7 >= state.data.len() {
                128int
            } else {
                0
            })
            &&& forall|j: int|
                0 <= j < 7 ==> #[trigger] frame.data[1 + j] == (if at + j < state.data.len() {
                    state.data[at + j]
                } else {
                    0
                })
        }),
{
    let at = state.start + 7 * (first + i);
    let frame = state.frames_from(node_id, first)[i];
    let end = if at + 7 < state.data.len() {
        at + 7
    } else {
        state.data.len() as int
    };
    let bytes = state.data.subrange(at, end);
    law_block_segment_carries_its_bytes(
        (first + i + 1) as u8,
        at + 7 >= state.data.len(),
        bytes,
    );
    assert(frame.data == block_segment(
        (first + i + 1) as u8,
        at + 7 >= state.data.len(),
        bytes,
    ));
    assert forall|j: int| 0 <= j < bytes.len() implies #[trigger] frame.data[1 + j]
        == state.data[at + j] by {
        assert(frame.data.subrange(1, 1 + bytes.len() as int)[j] == frame.data[1 + j]);
    }
}

/// The unused bytes fill the last segment up: fewer than seven complete a multiple of seven. An
/// empty value counts all seven.
pub proof fn law_unused_bytes_fill_the_last_segment(len: nat)
    ensures
        len > 0 ==> unused_bytes(len) < 7 && (len + unused_bytes(len)) % 7 == 0,
        len == 0 ==> unused_bytes(len) == 7,
{
}

// The checksum.

/// No bytes leave the checksum's register as it is.
pub proof fn law_no_bytes_leave_the_register(register: u16)
    ensures
        crc_fed(register, Seq::empty()) == register,
        crc_xmodem(Seq::empty()) == 0,
{
}

/// One more bit doubles the register, and the overflow out of its sixteen bits comes back as
/// 0x1021.
pub proof fn law_a_bit_doubles_the_register(register: u16, count: nat)
    ensures
        crc_shifted(register, 0) == register,
        ({
            let before = crc_shifted(register, count);
            let after = crc_shifted(register, count + 1);
            &&& before < 0x8000 ==> after == 2 * before
            &&& before >= 0x8000 ==> after == ((2 * before - 0x1_0000) as u16) ^ 0x1021
        }),
{
    let before = crc_shifted(register, count);
    assert(before < 0x8000 ==> before << 1 == 2 * before) by (bit_vector);
    assert(before >= 0x8000 ==> before << 1 == 2 * before - 0x1_0000) by (bit_vector);
}

/// A byte is added to the upper half of the register and takes eight bits; the bytes before it
/// have been taken in before.
pub proof fn law_a_byte_takes_eight_bits(register: u16, bytes: Seq<u8>, byte: u8)
    ensures
        crc_fed(register, bytes.push(byte)) == crc_shifted(
            crc_fed(register, bytes) ^ ((256 * byte) as u16),
            8,
        ),
        crc_xmodem(bytes.push(byte)) == crc_shifted(crc_xmodem(bytes) ^ ((256 * byte) as u16), 8),
{
    assert(bytes.push(byte).drop_last() =~= bytes);
    assert((byte as u16) << 8 == 256 * byte) by (bit_vector);
}

/// A register whose upper half is empty is moved up by eight bits.
proof fn lemma_lower_half_moves_up(register: u16)
    requires
        register < 0x100,
    ensures
        crc_shifted(register, 8) == 256 * register,
{
    assert(crc_shifted(register, 0) == register);
    law_a_bit_doubles_the_register(register, 0);
    law_a_bit_doubles_the_register(register, 1);
    law_a_bit_doubles_the_register(register, 2);
    law_a_bit_doubles_the_register(register, 3);
    law_a_bit_doubles_the_register(register, 4);
    law_a_bit_doubles_the_register(register, 5);
    law_a_bit_doubles_the_register(register, 6);
    law_a_bit_doubles_the_register(register, 7);
}

/// A value with its own checksum behind it, upper byte first, has the checksum zero.
pub proof fn law_the_checksum_cancels_itself(data: Seq<u8>)
    ensures
        ({
            let crc = crc_xmodem(data);
            crc_xmodem(data.push((crc / 256) as u8).push((crc % 256) as u8)) == 0
        }),
{
    let crc = crc_xmodem(data);
    let upper = (crc / 256) as u8;
    let lower = (crc % 256) as u8;
    law_a_byte_takes_eight_bits(0, data, upper);
    law_a_byte_takes_eight_bits(0, data.push(upper), lower);
    assert(crc ^ (256 * (crc / 256)) as u16 == crc % 256) by (bit_vector);
    lemma_lower_half_moves_up(crc % 256);
    assert((256 * (crc % 256)) as u16 ^ (256 * (crc % 256)) as u16 == 0) by (bit_vector);
    lemma_lower_half_moves_up(0);
}

} // verus!
