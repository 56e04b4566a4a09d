use canopen_sdo::{CanFrame, Pending, SdoClient, SdoError, SdoRequest};

fn client(node_id: u8) -> SdoClient {
    match SdoClient::new::<()>(node_id) {
        Ok(client) => client,
        Err(error) => panic!("{:?}", error),
    }
}

fn frame(id: u16, data: [u8; 8]) -> CanFrame {
    CanFrame { id, data }
}

#[test]
fn node_identifiers_go_up_to_127() {
    assert!(SdoClient::new::<()>(0).is_ok());
    assert!(SdoClient::new::<()>(127).is_ok());
    assert!(matches!(SdoClient::new::<()>(128), Err(SdoError::InvalidNodeId)));
    assert!(matches!(SdoClient::new::<()>(255), Err(SdoError::InvalidNodeId)));
}

#[test]
fn requests_carry_the_identifier_of_the_node() {
    assert_eq!(client(0).sdo_upload_request(0, 0).id, 0x600);
    assert_eq!(client(5).sdo_upload_request(0, 0).id, 0x605);
    assert_eq!(client(127).sdo_upload_request(0, 0).id, 0x67F);
}

#[test]
fn upload_request_names_the_object() {
    assert_eq!(
        client(1).sdo_upload_request(0x1018, 2),
        frame(0x601, [0x40, 0x18, 0x10, 2, 0, 0, 0, 0])
    );
}

#[test]
fn download_request_counts_the_unused_bytes() {
    let client = client(1);
    assert_eq!(
        client.sdo_download_request(0x2000, 1, &[0xAA]),
        frame(0x601, [0x2F, 0x00, 0x20, 1, 0xAA, 0, 0, 0])
    );
    assert_eq!(
        client.sdo_download_request(0x2000, 1, &[0xAA, 0xBB]),
        frame(0x601, [0x2B, 0x00, 0x20, 1, 0xAA, 0xBB, 0, 0])
    );
    assert_eq!(
        client.sdo_download_request(0x2000, 1, &[1, 2, 3]),
        frame(0x601, [0x27, 0x00, 0x20, 1, 1, 2, 3, 0])
    );
    assert_eq!(
        client.sdo_download_request(0x2000, 1, &[1, 2, 3, 4]),
        frame(0x601, [0x23, 0x00, 0x20, 1, 1, 2, 3, 4])
    );
    assert_eq!(client.sdo_download_request(0x2000, 1, &[]).data[0], 0x33);
}

#[test]
fn segmented_download_request_announces_the_size() {
    assert_eq!(
        client(1).initiate_segmented_download(0xABCD, 0xEF, 0x0403_0201),
        frame(0x601, [0x21, 0xCD, 0xAB, 0xEF, 1, 2, 3, 4])
    );
}

#[test]
fn segment_command_holds_toggle_length_and_mark() {
    let client = client(1);
    assert_eq!(
        client.sdo_download_segment(&[1, 2, 3, 4, 5, 6, 7], false, false),
        frame(0x601, [0x00, 1, 2, 3, 4, 5, 6, 7])
    );
    assert_eq!(
        client.sdo_download_segment(&[1, 2], true, true),
        frame(0x601, [0x1B, 1, 2, 0, 0, 0, 0, 0])
    );
    assert_eq!(client.sdo_download_segment(&[], false, true).data[0], 0x0F);
    assert_eq!(client.sdo_download_segment(&[9; 7], true, false).data[0], 0x10);
}

#[test]
fn upload_segment_request_holds_the_toggle() {
    let client = client(1);
    assert_eq!(client.sdo_request_upload_segment(false), frame(0x601, [0x60, 0, 0, 0, 0, 0, 0, 0]));
    assert_eq!(client.sdo_request_upload_segment(true), frame(0x601, [0x70, 0, 0, 0, 0, 0, 0, 0]));
}

#[test]
fn block_download_request_offers_the_checksum() {
    let client = client(1);
    assert_eq!(
        client.initiate_block_download(0x1F50, 1, 0x0001_0000, true),
        frame(0x601, [0xC6, 0x50, 0x1F, 1, 0, 0, 1, 0])
    );
    assert_eq!(client.initiate_block_download(0x1F50, 1, 9, false).data[0], 0xC2);
}

#[test]
fn block_segment_holds_number_and_mark() {
    let client = client(1);
    assert_eq!(
        client.block_download_segment(&[1, 2, 3, 4, 5, 6, 7], 1, false),
        frame(0x601, [0x01, 1, 2, 3, 4, 5, 6, 7])
    );
    assert_eq!(
        client.block_download_segment(&[8], 127, true),
        frame(0x601, [0xFF, 8, 0, 0, 0, 0, 0, 0])
    );
    assert_eq!(client.block_download_segment(&[], 0x85, true).data[0], 0x85);
}

#[test]
fn closing_request_holds_unused_bytes_and_checksum() {
    let client = client(1);
    assert_eq!(
        client.end_block_download(5, 0x31C3),
        frame(0x601, [0xD5, 0xC3, 0x31, 0, 0, 0, 0, 0])
    );
    assert_eq!(client.end_block_download(0, 0).data[0], 0xC1);
    assert_eq!(client.end_block_download(7, 0).data[0], 0xDD);
    assert_eq!(client.end_block_download(15, 0).data[0], 0xFD);
    assert_eq!(client.end_block_download(0xF7, 0).data[0], 0xDD);
}

#[test]
fn request_builds_the_frame_of_each_kind() {
    let mut client = client(3);
    let pending = Pending::BlockDownloadEnd;
    assert_eq!(
        client.request(SdoRequest::UploadExpedited { index: 1, sub: 2 }, pending),
        client.sdo_upload_request(1, 2)
    );
    assert_eq!(
        client.request(SdoRequest::DownloadExpedited { index: 1, sub: 2, data: &[3] }, pending),
        client.sdo_download_request(1, 2, &[3])
    );
    assert_eq!(
        client.request(
            SdoRequest::InitiateSegmentedDownload { index: 1, sub: 2, size: 3 },
            pending
        ),
        client.initiate_segmented_download(1, 2, 3)
    );
    assert_eq!(
        client.request(SdoRequest::UploadSegment { toggle: true }, pending),
        client.sdo_request_upload_segment(true)
    );
    assert_eq!(
        client.request(
            SdoRequest::DownloadSegment { toggle: true, last: false, data: &[4, 5] },
            pending
        ),
        client.sdo_download_segment(&[4, 5], true, false)
    );
}

#[test]
fn no_two_requests_look_the_same() {
    let mut client = client(3);
    let mut seen: Vec<CanFrame> = Vec::new();
    let requests = [
        SdoRequest::UploadExpedited { index: 0x2000, sub: 1 },
        SdoRequest::UploadExpedited { index: 0x2000, sub: 2 },
        SdoRequest::UploadExpedited { index: 0x2100, sub: 1 },
        SdoRequest::DownloadExpedited { index: 0x2000, sub: 1, data: &[] },
        SdoRequest::DownloadExpedited { index: 0x2000, sub: 1, data: &[0] },
        SdoRequest::DownloadExpedited { index: 0x2000, sub: 1, data: &[0, 0] },
        SdoRequest::DownloadExpedited { index: 0x2000, sub: 1, data: &[0, 1] },
        SdoRequest::InitiateSegmentedDownload { index: 0x2000, sub: 1, size: 0 },
        SdoRequest::InitiateSegmentedDownload { index: 0x2000, sub: 1, size: 0x100 },
        SdoRequest::UploadSegment { toggle: false },
        SdoRequest::UploadSegment { toggle: true },
        SdoRequest::DownloadSegment { toggle: false, last: false, data: &[] },
        SdoRequest::DownloadSegment { toggle: false, last: true, data: &[] },
        SdoRequest::DownloadSegment { toggle: true, last: false, data: &[] },
        SdoRequest::DownloadSegment { toggle: false, last: false, data: &[0] },
        SdoRequest::DownloadSegment { toggle: false, last: false, data: &[0, 0] },
    ];
    for request in requests {
        let frame = client.request(request, Pending::BlockDownloadEnd);
        assert!(!seen.contains(&frame));
        seen.push(frame);
    }
}
