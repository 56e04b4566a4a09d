use canopen_sdo::{
    BlockAck, BlockDownload, BlockInit, BlockStep, CanFrame, FrameId, Outcome, Response, SdoClient,
    SdoError,
};

type Wait<R> = Outcome<R, &'static str>;

fn client() -> SdoClient {
    match SdoClient::new::<()>(2) {
        Ok(client) => client,
        Err(error) => panic!("{:?}", error),
    }
}

fn agree(blksize: u8, server_supports_crc: bool) -> Wait<BlockInit> {
    Outcome::Answered(Ok(BlockInit { blksize, server_supports_crc }))
}

fn ack(ackseq: u8, next_blksize: u8) -> Wait<BlockAck> {
    Outcome::Answered(Ok(BlockAck { ackseq, next_blksize }))
}

fn start<'a>(
    client: &mut SdoClient,
    data: &'a [u8],
    crc: bool,
    answer: Wait<BlockInit>,
) -> Result<(BlockDownload<'a>, BlockStep), SdoError<&'static str>> {
    let (request, _) = client.write_block(0x1F50, 1, data, crc);
    request.initiated(client, answer)
}

fn started<'a>(
    client: &mut SdoClient,
    data: &'a [u8],
    crc: bool,
    answer: Wait<BlockInit>,
) -> (BlockDownload<'a>, BlockStep) {
    match start(client, data, crc, answer) {
        Ok(started) => started,
        Err(error) => panic!("{:?}", error),
    }
}

fn block(step: BlockStep) -> Vec<CanFrame> {
    match step {
        BlockStep::Transmit(frames) => frames,
        BlockStep::End(frame) => panic!("{:?}", frame),
    }
}

fn closing(step: BlockStep) -> CanFrame {
    match step {
        BlockStep::End(frame) => frame,
        BlockStep::Transmit(frames) => panic!("{:?}", frames),
    }
}

fn signal(client: &mut SdoClient, data: &[u8]) -> Option<Response<&'static str>> {
    client.on_frame_received(FrameId::Standard(0x582), data)
}

fn commands(frames: &[CanFrame]) -> Vec<u8> {
    frames.iter().map(|frame| frame.data[0]).collect()
}

fn numbered(len: usize) -> Vec<u8> {
    (0..len).map(|i| (i + 1) as u8).collect()
}

#[test]
fn a_block_write_opens_with_size_and_offer() {
    let mut client = client();
    let data = [0; 20];
    let (request, frame) = client.write_block(0x1F50, 1, &data, true);
    assert_eq!(frame, CanFrame { id: 0x602, data: [0xC6, 0x50, 0x1F, 1, 20, 0, 0, 0] });
    assert!(request.request_crc_support);
    assert_eq!(
        signal(&mut client, &[0xA4, 0x50, 0x1F, 1, 4, 0, 0, 0]),
        Some(Response::BlockInit(Ok(BlockInit { blksize: 4, server_supports_crc: true })))
    );
}

#[test]
fn block_sizes_outside_of_1_to_127_abort() {
    let mut client = client();
    for blksize in [0, 128, 255] {
        match start(&mut client, &[1; 9], true, agree(blksize, true)) {
            Err(error) => assert_eq!(error, SdoError::SdoAbort(0x0504_0002)),
            Ok(_) => panic!("the block size is out of range"),
        }
    }
    for blksize in [1, 127] {
        assert!(start(&mut client, &[1; 9], true, agree(blksize, true)).is_ok());
    }
}

#[test]
fn an_error_in_place_of_the_agreement_ends_the_write() {
    let mut client = client();
    match start(&mut client, &[1; 9], true, Outcome::TimedOut) {
        Err(error) => assert_eq!(error, SdoError::Timeout),
        Ok(_) => panic!("the server has not agreed"),
    }
    match start(&mut client, &[1; 9], true, Outcome::TransmitFailed("bus off")) {
        Err(error) => assert_eq!(error, SdoError::TxError("bus off")),
        Ok(_) => panic!("nothing was sent"),
    }
    assert_eq!(signal(&mut client, &[0xA4, 0x50, 0x1F, 1, 4, 0, 0, 0]), None);
}

#[test]
fn a_block_holds_as_many_segments_as_the_server_allows() {
    let mut client = client();
    let data = numbered(30);
    let (mut download, step) = started(&mut client, &data, false, agree(2, false));
    let frames = block(step);
    assert_eq!(commands(&frames), vec![1, 2]);
    assert_eq!(frames[0].data, [1, 1, 2, 3, 4, 5, 6, 7]);
    assert_eq!(frames[1].data, [2, 8, 9, 10, 11, 12, 13, 14]);

    let frames = match download.acknowledged(&mut client, ack(2, 100)) {
        Ok(step) => block(step),
        Err(error) => panic!("{:?}", error),
    };
    assert_eq!(commands(&frames), vec![1, 2, 0x83]);
    assert_eq!(frames[0].data, [1, 15, 16, 17, 18, 19, 20, 21]);
    assert_eq!(frames[2].data, [0x83, 29, 30, 0, 0, 0, 0, 0]);

    let frame = match download.acknowledged(&mut client, ack(3, 0)) {
        Ok(step) => closing(step),
        Err(error) => panic!("{:?}", error),
    };
    assert_eq!(frame, CanFrame { id: 0x602, data: [0xC1 + 4 * 5, 0, 0, 0, 0, 0, 0, 0] });
    assert_eq!(
        signal(&mut client, &[0xA1, 0, 0, 0, 0, 0, 0, 0]),
        Some(Response::Ack(Ok(())))
    );
    let confirmed: Wait<()> = Outcome::Answered(Ok(()));
    assert_eq!(download.ended(&mut client, confirmed), Ok(()));
}

#[test]
fn a_next_size_of_zero_keeps_the_size() {
    let mut client = client();
    let data = numbered(60);
    let (mut download, step) = started(&mut client, &data, false, agree(3, false));
    assert_eq!(commands(&block(step)), vec![1, 2, 3]);
    match download.acknowledged(&mut client, ack(3, 0)) {
        Ok(step) => assert_eq!(commands(&block(step)), vec![1, 2, 3]),
        Err(error) => panic!("{:?}", error),
    }
}

#[test]
fn a_next_size_above_127_aborts() {
    let mut client = client();
    let data = numbered(60);
    let (mut download, _) = started(&mut client, &data, false, agree(3, false));
    match download.acknowledged(&mut client, ack(3, 128)) {
        Err(error) => assert_eq!(error, SdoError::SdoAbort(0x0504_0002)),
        Ok(_) => panic!("the block size is out of range"),
    }
}

#[test]
fn an_acknowledgement_of_unsent_segments_is_refused() {
    let mut client = client();
    let data = numbered(60);
    let (mut download, _) = started(&mut client, &data, false, agree(3, false));
    match download.acknowledged(&mut client, ack(4, 3)) {
        Err(error) => assert_eq!(error, SdoError::InvalidResponse),
        Ok(_) => panic!("the fourth segment was not sent"),
    }
}

#[test]
fn unacknowledged_segments_are_sent_again() {
    let mut client = client();
    let data = numbered(30);
    let (mut download, step) = started(&mut client, &data, false, agree(10, false));
    let frames = block(step);
    assert_eq!(commands(&frames), vec![1, 2, 3, 4, 0x85]);
    for ackseq in [0u8, 2, 4] {
        let again = match download.acknowledged(&mut client, ack(ackseq, 1)) {
            Ok(step) => block(step),
            Err(error) => panic!("{:?}", error),
        };
        assert_eq!(again, frames[ackseq as usize..].to_vec());
    }
    match download.acknowledged(&mut client, ack(5, 10)) {
        Ok(step) => assert_eq!(closing(step).data[0], 0xC1 + 4 * 5),
        Err(error) => panic!("{:?}", error),
    }
}

#[test]
fn acknowledgements_count_only_once_the_block_is_out() {
    let mut client = client();
    let data = numbered(30);
    client.release();
    let (request, _) = client.write_block(0x1F50, 1, &data, false);
    let init = match signal(&mut client, &[0xA0, 0x50, 0x1F, 1, 9, 0, 0, 0]) {
        Some(Response::BlockInit(init)) => Outcome::Answered(init),
        other => panic!("{:?}", other),
    };
    let (download, _) = match request.initiated(&mut client, init) {
        Ok(started) => started,
        Err(error) => panic!("{:?}", error),
    };
    assert_eq!(signal(&mut client, &[0xA2, 5, 9, 0, 0, 0, 0, 0]), None);
    let sent: Result<(), &'static str> = Ok(());
    assert_eq!(download.transmitted(&mut client, sent), Ok(()));
    assert_eq!(
        signal(&mut client, &[0xA2, 5, 9, 0, 0, 0, 0, 0]),
        Some(Response::BlockAck(Ok(BlockAck { ackseq: 5, next_blksize: 9 })))
    );
}

#[test]
fn a_refused_frame_ends_the_write() {
    let mut client = client();
    let data = numbered(30);
    let (download, _) = started(&mut client, &data, false, agree(9, false));
    assert_eq!(
        download.transmitted(&mut client, Err("bus off")),
        Err(SdoError::TxError("bus off"))
    );
    assert_eq!(signal(&mut client, &[0xA2, 5, 9, 0, 0, 0, 0, 0]), None);
}

#[test]
fn an_error_in_place_of_the_acknowledgement_ends_the_write() {
    let mut client = client();
    let data = numbered(30);
    let (mut download, _) = started(&mut client, &data, false, agree(9, false));
    let timed_out: Wait<BlockAck> = Outcome::TimedOut;
    match download.acknowledged(&mut client, timed_out) {
        Err(error) => assert_eq!(error, SdoError::Timeout),
        Ok(_) => panic!("nothing was acknowledged"),
    }
}

#[test]
fn the_end_is_confirmed_or_fails() {
    let mut client = client();
    let (download, _) = started(&mut client, &[], false, agree(9, false));
    let aborted: Wait<()> = Outcome::Answered(Err(SdoError::SdoAbort(0x0504_0004)));
    assert_eq!(download.ended(&mut client, aborted), Err(SdoError::SdoAbort(0x0504_0004)));
}

#[test]
fn the_checksum_is_sent_if_both_sides_support_it() {
    let mut client = client();
    for (offered, supported, crc) in [
        (true, true, [0xC3, 0x31]),
        (true, false, [0, 0]),
        (false, true, [0, 0]),
        (false, false, [0, 0]),
    ] {
        let (mut download, _) = started(&mut client, b"123456789", offered, agree(9, supported));
        let frame = match download.acknowledged(&mut client, ack(2, 9)) {
            Ok(step) => closing(step),
            Err(error) => panic!("{:?}", error),
        };
        assert_eq!(frame.data, [0xC1 + 4 * 5, crc[0], crc[1], 0, 0, 0, 0, 0]);
    }
}

#[test]
fn the_checksum_does_not_depend_on_blocks_or_repeats() {
    let mut client = client();
    let data = numbered(200);
    let algorithm = crc::Crc::<u16>::new(&crc::CRC_16_XMODEM);
    let mut pieces = algorithm.digest();
    for piece in data.chunks(7) {
        pieces.update(piece);
    }
    let digest = pieces.finalize();
    for blksize in [1u8, 4, 127] {
        let (mut download, mut step) = started(&mut client, &data, true, agree(blksize, true));
        let frame = loop {
            match step {
                BlockStep::Transmit(frames) => {
                    let last = frames[frames.len() - 1].data[0] & 0x7F;
                    if let Err(error) = download.acknowledged(&mut client, ack(0, 0)) {
                        panic!("{:?}", error);
                    }
                    step = match download.acknowledged(&mut client, ack(last, 0)) {
                        Ok(step) => step,
                        Err(error) => panic!("{:?}", error),
                    };
                }
                BlockStep::End(frame) => break frame,
            }
        };
        assert_eq!(frame.data[1] as u16 + 256 * frame.data[2] as u16, digest);
    }
}

#[test]
fn an_empty_value_goes_straight_to_the_end() {
    let mut client = client();
    let (_, step) = started(&mut client, &[], true, agree(9, true));
    assert_eq!(closing(step).data, [0xDD, 0, 0, 0, 0, 0, 0, 0]);
}

#[test]
fn the_checksum_of_one_byte_is_exact() {
    let mut client = client();
    let (mut download, _) = started(&mut client, b"1", true, agree(9, true));
    match download.acknowledged(&mut client, ack(1, 9)) {
        Ok(step) => assert_eq!(closing(step).data, [0xD9, 0x72, 0x26, 0, 0, 0, 0, 0]),
        Err(error) => panic!("{:?}", error),
    }
}

#[test]
fn a_block_write_carries_the_value() {
    let mut client = client();
    for len in [1usize, 7, 8, 14, 100, 889, 890, 1000] {
        let data: Vec<u8> = (0..len).map(|i| (i * 7 + 3) as u8).collect();
        let sizes = [1u8, 0, 5, 127, 3];
        let (mut download, mut step) = started(&mut client, &data, true, agree(2, true));
        let mut bodies: Vec<u8> = Vec::new();
        let mut marks: Vec<bool> = Vec::new();
        let mut blocks = 0usize;
        let frame = loop {
            match step {
                BlockStep::Transmit(frames) => {
                    for (number, frame) in frames.iter().enumerate() {
                        assert_eq!((frame.data[0] & 0x7F) as usize, number + 1);
                        marks.push(frame.data[0] >= 0x80);
                        bodies.extend_from_slice(&frame.data[1..]);
                    }
                    let half = frames.len() / 2;
                    if half < frames.len() {
                        let again = match download.acknowledged(&mut client, ack(half as u8, 9)) {
                            Ok(step) => block(step),
                            Err(error) => panic!("{:?}", error),
                        };
                        assert_eq!(again, frames[half..].to_vec());
                    }
                    let next = sizes[blocks % sizes.len()];
                    blocks += 1;
                    step = match download.acknowledged(&mut client, ack(frames.len() as u8, next)) {
                        Ok(step) => step,
                        Err(error) => panic!("{:?}", error),
                    };
                }
                BlockStep::End(frame) => break frame,
            }
        };
        let unused = ((frame.data[0] - 0xC1) / 4) as usize;
        assert_eq!(bodies.len(), 7 * ((len + 6) / 7));
        bodies.truncate(bodies.len() - unused);
        assert_eq!(bodies, data);
        let crc = crc::Crc::<u16>::new(&crc::CRC_16_XMODEM).checksum(&bodies);
        assert_eq!(frame.data[1..], [crc as u8, (crc >> 8) as u8, 0, 0, 0, 0, 0]);
        assert_eq!(marks.iter().filter(|mark| **mark).count(), 1);
        assert!(marks[marks.len() - 1]);
    }
}
