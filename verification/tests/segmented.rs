use canopen_sdo::{
    CanFrame, FrameId, Outcome, Response, SdoClient, SdoError, Segment, SegmentedDownload,
    SegmentedUpload,
};

type Wait<R> = Outcome<R, &'static str>;

fn client() -> SdoClient {
    match SdoClient::new::<()>(9) {
        Ok(client) => client,
        Err(error) => panic!("{:?}", error),
    }
}

fn confirm(download: &mut SegmentedDownload<'_>, client: &mut SdoClient) -> Option<CanFrame> {
    let done: Wait<()> = Outcome::Answered(Ok(()));
    match download.confirmed(client, done) {
        Ok(next) => next,
        Err(error) => panic!("{:?}", error),
    }
}

fn segments_of(client: &mut SdoClient, data: &[u8]) -> Vec<CanFrame> {
    let (mut download, _) = client.write_segmented(0x2000, 0, data);
    let mut frames = Vec::new();
    while let Some(frame) = confirm(&mut download, client) {
        frames.push(frame);
    }
    frames
}

fn signal(client: &mut SdoClient, data: &[u8]) -> Option<Response<&'static str>> {
    client.on_frame_received(FrameId::Standard(0x589), data)
}

#[test]
fn a_segmented_write_announces_the_size() {
    let mut client = client();
    let (_, frame) = client.write_segmented(0x2000, 1, &[0; 300]);
    assert_eq!(frame.data, [0x21, 0x00, 0x20, 1, 0x2C, 0x01, 0, 0]);
    let confirmed = signal(&mut client, &[0x60, 0x00, 0x20, 1, 0, 0, 0, 0]);
    assert_eq!(confirmed, Some(Response::Ack(Ok(()))));
}

#[test]
fn a_segmented_write_alternates_the_toggle_and_marks_the_end() {
    let mut client = client();
    let frames = segments_of(&mut client, b"ABCDEFGHIJKLMNOP");
    assert_eq!(frames.len(), 3);
    assert_eq!(&frames[0].data, b"\x00ABCDEFG");
    assert_eq!(&frames[1].data, b"\x10HIJKLMN");
    assert_eq!(&frames[2].data, b"\x0BOP\0\0\0\0\0");
}

#[test]
fn a_segmented_write_of_full_segments_marks_the_last() {
    let mut client = client();
    let frames = segments_of(&mut client, &[3; 14]);
    assert_eq!(frames.len(), 2);
    assert_eq!(frames[0].data[0], 0x00);
    assert_eq!(frames[1].data[0], 0x11);
}

#[test]
fn a_segmented_write_of_nothing_sends_no_segment() {
    let mut client = client();
    assert_eq!(segments_of(&mut client, &[]), vec![]);
}

#[test]
fn a_segmented_write_ends_with_the_first_error() {
    let mut client = client();
    let (mut download, _) = client.write_segmented(0x2000, 0, &[1; 20]);
    assert!(confirm(&mut download, &mut client).is_some());
    let timed_out: Wait<()> = Outcome::TimedOut;
    assert_eq!(download.confirmed(&mut client, timed_out), Err(SdoError::Timeout));
    assert_eq!(signal(&mut client, &[0x20, 0, 0, 0, 0, 0, 0, 0]), None);
    let failed: Wait<()> = Outcome::TransmitFailed("bus off");
    assert_eq!(download.confirmed(&mut client, failed), Err(SdoError::TxError("bus off")));
    let aborted: Wait<()> = Outcome::Answered(Err(SdoError::SdoAbort(5)));
    assert_eq!(download.confirmed(&mut client, aborted), Err(SdoError::SdoAbort(5)));
}

#[test]
fn a_segment_waits_for_its_own_toggle() {
    let mut client = client();
    let (mut download, _) = client.write_segmented(0x2000, 0, &[1; 20]);
    confirm(&mut download, &mut client);
    confirm(&mut download, &mut client);
    let wrong = signal(&mut client, &[0x20, 0, 0, 0, 0, 0, 0, 0]);
    assert_eq!(wrong, Some(Response::Ack(Err(SdoError::InvalidResponse))));
}

#[test]
fn a_value_larger_than_the_buffer_is_refused() {
    let mut client = client();
    client.read_segmented(0x2000, 0);
    let size: Wait<u32> = Outcome::Answered(Ok(11));
    match SegmentedUpload::initiated(&mut client, 10, size) {
        Err(error) => assert_eq!(error, SdoError::BufferSizeWrong),
        Ok(_) => panic!("the value does not fit"),
    }
    assert_eq!(signal(&mut client, &[0x00; 8]), None);
}

#[test]
fn an_error_in_place_of_the_size_ends_the_read() {
    let mut client = client();
    client.read_segmented(0x2000, 0);
    let timed_out: Wait<u32> = Outcome::TimedOut;
    match SegmentedUpload::initiated(&mut client, 10, timed_out) {
        Err(error) => assert_eq!(error, SdoError::Timeout),
        Ok(_) => panic!("there is no size"),
    }
}

#[test]
fn segments_past_the_announced_size_are_not_accepted() {
    let mut client = client();
    client.read_segmented(0x2000, 0);
    let size: Wait<u32> = Outcome::Answered(Ok(9));
    let (mut upload, first) = match SegmentedUpload::initiated(&mut client, 100, size) {
        Ok(started) => started,
        Err(error) => panic!("{:?}", error),
    };
    assert_eq!(first.data[0], 0x60);
    let mut buf = [0xEE; 12];
    let segment = Segment { last: false, len: 7, data: [1, 2, 3, 4, 5, 6, 7] };
    assert!(upload.accepts(&segment));
    let answer: Wait<Segment> = Outcome::Answered(Ok(segment));
    let next = match upload.received(&mut client, &mut buf, answer) {
        Ok(Some(next)) => next,
        other => panic!("{:?}", other),
    };
    assert_eq!(next.data[0], 0x70);
    assert_eq!(buf, [1, 2, 3, 4, 5, 6, 7, 0xEE, 0xEE, 0xEE, 0xEE, 0xEE]);
    assert!(!upload.accepts(&segment));
    assert!(!upload.accepts(&Segment { last: true, len: 3, data: [0; 7] }));
    assert!(!upload.accepts(&Segment { last: true, len: 8, data: [0; 7] }));
    assert!(upload.accepts(&Segment { last: true, len: 2, data: [0; 7] }));
}

#[test]
fn an_error_in_place_of_a_segment_leaves_the_buffer() {
    let mut client = client();
    client.read_segmented(0x2000, 0);
    let size: Wait<u32> = Outcome::Answered(Ok(4));
    let (mut upload, _) = match SegmentedUpload::initiated(&mut client, 4, size) {
        Ok(started) => started,
        Err(error) => panic!("{:?}", error),
    };
    let mut buf = [9; 4];
    let refused: Wait<Segment> = Outcome::Answered(Err(SdoError::InvalidResponse));
    assert_eq!(
        upload.received(&mut client, &mut buf, refused),
        Err(SdoError::InvalidResponse)
    );
    assert_eq!(buf, [9; 4]);
}

#[test]
fn a_segmented_read_gives_back_the_write() {
    let mut client = client();
    for len in [1usize, 6, 7, 8, 13, 14, 15, 100] {
        let mut data: Vec<u8> = Vec::new();
        for i in 0..len {
            data.push((i * 3 + 1) as u8);
        }
        let frames = segments_of(&mut client, &data);
        assert_eq!(frames.len(), (len + 6) / 7);

        let (_, opening) = client.write_segmented(0x2000, 0, &data);
        let mut answer = opening.data;
        answer[0] = 0x41;
        client.read_segmented(0x2000, 0);
        let size: Wait<u32> = match signal(&mut client, &answer) {
            Some(Response::Word(size)) => Outcome::Answered(size),
            other => panic!("{:?}", other),
        };
        let mut buf = vec![0xA5; len + 5];
        let (mut upload, _) = match SegmentedUpload::initiated(&mut client, buf.len(), size) {
            Ok(started) => started,
            Err(error) => panic!("{:?}", error),
        };
        for (number, frame) in frames.iter().enumerate() {
            let segment: Wait<Segment> = match signal(&mut client, &frame.data) {
                Some(Response::Segment(segment)) => Outcome::Answered(segment),
                other => panic!("{:?}", other),
            };
            let next = match upload.received(&mut client, &mut buf, segment) {
                Ok(next) => next,
                Err(error) => panic!("{:?}", error),
            };
            assert_eq!(next.is_none(), number + 1 == frames.len());
        }
        assert_eq!(&buf[..len], &data[..]);
        assert_eq!(&buf[len..], &[0xA5; 5]);
    }
}
