use canopen_sdo::SdoError;

fn text(error: SdoError<u8>) -> String {
    error.format()
}

#[test]
fn each_error_shows_its_name() {
    assert_eq!(text(SdoError::Timeout), "Timeout");
    assert_eq!(text(SdoError::RequestPending), "RequestPending");
    assert_eq!(text(SdoError::TxError(7)), "TxError");
    assert_eq!(text(SdoError::InvalidResponse), "InvalidResponse");
    assert_eq!(text(SdoError::BufferSizeWrong), "BufferSizeWrong");
    assert_eq!(text(SdoError::InvalidNodeId), "InvalidNodeId");
}

#[test]
fn an_abort_shows_its_code() {
    assert_eq!(text(SdoError::SdoAbort(0x0504_0002)), "SdoAbort(0x05040002)");
    assert_eq!(text(SdoError::SdoAbort(0)), "SdoAbort(0x00000000)");
    assert_eq!(text(SdoError::SdoAbort(0xFEDC_BA98)), "SdoAbort(0xFEDCBA98)");
    assert_eq!(text(SdoError::SdoAbort(0x1234_567F)), "SdoAbort(0x1234567F)");
}
