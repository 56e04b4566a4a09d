use canopen_sdo::response::{decode, signal_error};
use canopen_sdo::{
    BlockAck, BlockInit, FrameId, Outcome, Pending, PendingGuard, Response, SdoClient, SdoError,
    Segment,
};

type Answer = Response<&'static str>;

const READ: Pending = Pending::ExpeditedRead { index: 0x1008, sub: 1 };
const WRITE: Pending = Pending::ExpeditedWrite { index: 0x1008, sub: 1 };
const OPEN: Pending = Pending::SegmentedDownloadInit { index: 0x1008, sub: 1 };
const BLOCK: Pending = Pending::BlockDownloadInitiate { index: 0x1008, sub: 1 };
const UPLOAD: Pending = Pending::UploadSegment { toggle: false };
const DOWNLOAD: Pending = Pending::DownloadSegment { toggle: false };

const EVERY: [Pending; 8] = [
    READ,
    WRITE,
    OPEN,
    UPLOAD,
    DOWNLOAD,
    BLOCK,
    Pending::BlockDownloadAck,
    Pending::BlockDownloadEnd,
];

fn answer(pending: Pending, data: &[u8]) -> Answer {
    decode(pending, data)
}

fn client() -> SdoClient {
    match SdoClient::new::<()>(5) {
        Ok(client) => client,
        Err(error) => panic!("{:?}", error),
    }
}

#[test]
fn expedited_values_are_read_by_their_length() {
    let data = |command: u8| [command, 0x08, 0x10, 1, 0x11, 0x22, 0x33, 0x44];
    assert_eq!(answer(READ, &data(0x43)), Response::Word(Ok(0x4433_2211)));
    assert_eq!(answer(READ, &data(0x47)), Response::Word(Ok(0x0033_2211)));
    assert_eq!(answer(READ, &data(0x4B)), Response::Word(Ok(0x0000_2211)));
    assert_eq!(answer(READ, &data(0x4F)), Response::Word(Ok(0x0000_0011)));
    assert_eq!(answer(READ, &data(0x41)), Response::Word(Ok(0x4433_2211)));
    assert_eq!(answer(READ, &data(0x42)), Response::Word(Err(SdoError::InvalidResponse)));
    assert_eq!(answer(READ, &data(0x60)), Response::Word(Err(SdoError::InvalidResponse)));
}

#[test]
fn answers_for_another_object_are_refused() {
    let refused = || SdoError::InvalidResponse;
    for object in [[0x09, 0x10, 1], [0x08, 0x11, 1], [0x08, 0x10, 2]] {
        let data = |command: u8| [command, object[0], object[1], object[2], 4, 0, 0, 0];
        assert_eq!(answer(READ, &data(0x43)), Response::Word(Err(refused())));
        assert_eq!(answer(WRITE, &data(0x60)), Response::Ack(Err(refused())));
        assert_eq!(answer(OPEN, &data(0x60)), Response::Ack(Err(refused())));
        assert_eq!(answer(BLOCK, &data(0xA0)), Response::BlockInit(Err(refused())));
    }
}

#[test]
fn writes_are_confirmed() {
    let data = [0x60, 0x08, 0x10, 1, 0, 0, 0, 0];
    assert_eq!(answer(WRITE, &data), Response::Ack(Ok(())));
    assert_eq!(answer(OPEN, &data), Response::Ack(Ok(())));
    let wrong = [0x61, 0x08, 0x10, 1, 0, 0, 0, 0];
    assert_eq!(answer(WRITE, &wrong), Response::Ack(Err(SdoError::InvalidResponse)));
}

#[test]
fn segments_are_read_with_length_and_mark() {
    let full = Segment { last: false, len: 7, data: [1, 2, 3, 4, 5, 6, 7] };
    assert_eq!(answer(UPLOAD, &[0x00, 1, 2, 3, 4, 5, 6, 7]), Response::Segment(Ok(full)));
    let short = Segment { last: true, len: 2, data: [1, 2, 0, 0, 0, 0, 0] };
    assert_eq!(answer(UPLOAD, &[0x0B, 1, 2, 3, 4, 5, 6, 7]), Response::Segment(Ok(short)));
    let empty = Segment { last: true, len: 0, data: [0; 7] };
    assert_eq!(answer(UPLOAD, &[0x0F, 1, 2, 3, 4, 5, 6, 7]), Response::Segment(Ok(empty)));
    let other = Pending::UploadSegment { toggle: true };
    assert_eq!(answer(other, &[0x10, 1, 2, 3, 4, 5, 6, 7]), Response::Segment(Ok(full)));
}

#[test]
fn segments_with_the_wrong_toggle_are_refused() {
    let refused: Answer = Response::Segment(Err(SdoError::InvalidResponse));
    assert_eq!(answer(UPLOAD, &[0x10, 1, 2, 3, 4, 5, 6, 7]), refused);
    assert_eq!(
        answer(Pending::UploadSegment { toggle: true }, &[0x00, 1, 2, 3, 4, 5, 6, 7]),
        refused
    );
    assert_eq!(answer(UPLOAD, &[0x20, 1, 2, 3, 4, 5, 6, 7]), refused);
}

#[test]
fn confirmations_of_segments_repeat_the_toggle() {
    let other = Pending::DownloadSegment { toggle: true };
    let data = |command: u8| [command, 0, 0, 0, 0, 0, 0, 0];
    assert_eq!(answer(DOWNLOAD, &data(0x20)), Response::Ack(Ok(())));
    assert_eq!(answer(other, &data(0x30)), Response::Ack(Ok(())));
    assert_eq!(answer(DOWNLOAD, &data(0x30)), Response::Ack(Err(SdoError::InvalidResponse)));
    assert_eq!(answer(other, &data(0x20)), Response::Ack(Err(SdoError::InvalidResponse)));
    assert_eq!(answer(DOWNLOAD, &data(0x21)), Response::Ack(Err(SdoError::InvalidResponse)));
}

#[test]
fn block_answers_are_read() {
    assert_eq!(
        answer(BLOCK, &[0xA4, 0x08, 0x10, 1, 127, 0, 0, 0]),
        Response::BlockInit(Ok(BlockInit { blksize: 127, server_supports_crc: true }))
    );
    assert_eq!(
        answer(BLOCK, &[0xA0, 0x08, 0x10, 1, 3, 0, 0, 0]),
        Response::BlockInit(Ok(BlockInit { blksize: 3, server_supports_crc: false }))
    );
    assert_eq!(
        answer(BLOCK, &[0xA2, 0x08, 0x10, 1, 3, 0, 0, 0]),
        Response::BlockInit(Err(SdoError::InvalidResponse))
    );
    assert_eq!(
        answer(Pending::BlockDownloadAck, &[0xA2, 9, 20, 0, 0, 0, 0, 0]),
        Response::BlockAck(Ok(BlockAck { ackseq: 9, next_blksize: 20 }))
    );
    assert_eq!(
        answer(Pending::BlockDownloadAck, &[0xA1, 9, 20, 0, 0, 0, 0, 0]),
        Response::BlockAck(Err(SdoError::InvalidResponse))
    );
    assert_eq!(
        answer(Pending::BlockDownloadEnd, &[0xA1, 0, 0, 0, 0, 0, 0, 0]),
        Response::Ack(Ok(()))
    );
    assert_eq!(
        answer(Pending::BlockDownloadEnd, &[0xA2, 0, 0, 0, 0, 0, 0, 0]),
        Response::Ack(Err(SdoError::InvalidResponse))
    );
}

#[test]
fn aborts_reach_every_request() {
    for pending in EVERY {
        assert_eq!(
            answer(pending, &[0x80, 0x08, 0x10, 1, 0x02, 0x00, 0x01, 0x06]),
            signal_error(pending, SdoError::SdoAbort(0x0601_0002))
        );
    }
}

#[test]
fn frames_of_another_length_are_refused() {
    for pending in EVERY {
        for data in [&[][..], &[0x80], &[0x60, 0x08, 0x10, 1, 0, 0, 0]] {
            assert_eq!(
                answer(pending, data),
                signal_error(pending, SdoError::InvalidResponse)
            );
        }
    }
}

#[test]
fn errors_go_to_the_signal_of_the_request() {
    let timeout = || SdoError::<()>::Timeout;
    assert_eq!(signal_error(READ, timeout()), Response::Word(Err(timeout())));
    assert_eq!(signal_error(WRITE, timeout()), Response::Ack(Err(timeout())));
    assert_eq!(signal_error(OPEN, timeout()), Response::Ack(Err(timeout())));
    assert_eq!(signal_error(DOWNLOAD, timeout()), Response::Ack(Err(timeout())));
    assert_eq!(signal_error(UPLOAD, timeout()), Response::Segment(Err(timeout())));
    assert_eq!(signal_error(BLOCK, timeout()), Response::BlockInit(Err(timeout())));
    assert_eq!(
        signal_error(Pending::BlockDownloadAck, timeout()),
        Response::BlockAck(Err(timeout()))
    );
    assert_eq!(signal_error(Pending::BlockDownloadEnd, timeout()), Response::Ack(Err(timeout())));
}

#[test]
fn a_request_is_answered_once() {
    let mut client = client();
    client.read_expedited(0x1008, 1);
    let data = [0x4F, 0x08, 0x10, 1, 42, 0, 0, 0];
    let id = FrameId::Standard(0x585);
    let first: Option<Answer> = client.on_frame_received(id, &data);
    assert_eq!(first, Some(Response::Word(Ok(42))));
    let second: Option<Answer> = client.on_frame_received(id, &data);
    assert_eq!(second, None);
}

#[test]
fn frames_of_others_are_ignored() {
    let mut client = client();
    let request = client.read_expedited(0x1008, 1);
    let data = [0x4F, 0x08, 0x10, 1, 42, 0, 0, 0];
    for id in [
        FrameId::Standard(0x584),
        FrameId::Standard(0x586),
        FrameId::Standard(request.id),
        FrameId::Extended(0x585),
    ] {
        let signal: Option<Answer> = client.on_frame_received(id, &data);
        assert_eq!(signal, None);
    }
    let signal: Option<Answer> = client.on_frame_received(FrameId::Standard(0x585), &data);
    assert_eq!(signal, Some(Response::Word(Ok(42))));
}

#[test]
fn frames_without_a_request_are_ignored() {
    let mut client = client();
    let signal: Option<Answer> = client.on_frame_received(FrameId::Standard(0x585), &[0x80; 8]);
    assert_eq!(signal, None);
}

#[test]
fn late_answers_are_ignored() {
    let mut client = client();
    client.read_expedited(0x1008, 1);
    let outcome: Outcome<u32, &'static str> = Outcome::TimedOut;
    assert_eq!(client.response(outcome), Err(SdoError::Timeout));
    let data = [0x4F, 0x08, 0x10, 1, 42, 0, 0, 0];
    let signal: Option<Answer> = client.on_frame_received(FrameId::Standard(0x585), &data);
    assert_eq!(signal, None);
}

#[test]
fn released_slots_are_empty() {
    let mut slot = Some(READ);
    let guard = PendingGuard::new(&mut slot);
    assert_eq!(*guard.pending, Some(READ));
    guard.release();
    assert_eq!(slot, None);
}

#[test]
fn outcomes_become_results() {
    let failed: Outcome<u8, &'static str> = Outcome::TransmitFailed("bus off");
    assert_eq!(failed.into_result(), Err(SdoError::TxError("bus off")));
    let timed_out: Outcome<u8, ()> = Outcome::TimedOut;
    assert_eq!(timed_out.into_result(), Err(SdoError::Timeout));
    let answered: Outcome<u8, ()> = Outcome::Answered(Ok(3));
    assert_eq!(answered.into_result(), Ok(3));
    let refused: Outcome<u8, ()> = Outcome::Answered(Err(SdoError::SdoAbort(1)));
    assert_eq!(refused.into_result(), Err(SdoError::SdoAbort(1)));
}

#[test]
fn expedited_writes_take_one_to_four_bytes() {
    let mut client = client();
    for len in 1..=4usize {
        let frame = client.write_expedited::<()>(0x2000, 0, &[7; 4][..len]);
        assert_eq!(frame, Ok(client.sdo_download_request(0x2000, 0, &[7; 4][..len])));
        let signal: Option<Answer> =
            client.on_frame_received(FrameId::Standard(0x585), &[0x60, 0, 0x20, 0, 0, 0, 0, 0]);
        assert_eq!(signal, Some(Response::Ack(Ok(()))));
    }
    for len in [0usize, 5, 8] {
        let frame = client.write_expedited::<()>(0x2000, 0, &[7; 8][..len]);
        assert_eq!(frame, Err(SdoError::BufferSizeWrong));
        let signal: Option<Answer> =
            client.on_frame_received(FrameId::Standard(0x585), &[0x60, 0, 0x20, 0, 0, 0, 0, 0]);
        assert_eq!(signal, None);
    }
}

#[test]
fn an_expedited_read_gives_back_the_write() {
    let mut client = client();
    for bytes in [&[0xFE][..], &[0x34, 0x12], &[1, 2, 3], &[0xFF, 0xFF, 0xFF, 0xFF]] {
        let mut value: u32 = 0;
        for byte in bytes.iter().rev() {
            value = value * 256 + *byte as u32;
        }
        let mut data = client.sdo_download_request(0x2001, 3, bytes).data;
        data[0] += 0x20;
        client.read_expedited(0x2001, 3);
        let signal: Option<Answer> = client.on_frame_received(FrameId::Standard(0x585), &data);
        assert_eq!(signal, Some(Response::Word(Ok(value))));
    }
}
