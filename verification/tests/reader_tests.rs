use rtcm_view::reader::{
    connection_failed_text, decoder_failed_text, reader_step, ReadOutcome, ReaderStep,
};

#[test]
fn reader_stops_when_asked() {
    assert!(matches!(reader_step(ReadOutcome::StopRequested), ReaderStep::Close));
}

#[test]
fn reader_stops_on_empty_read() {
    assert!(matches!(reader_step(ReadOutcome::Bytes(vec![])), ReaderStep::Close));
}

#[test]
fn reader_forwards_bytes() {
    match reader_step(ReadOutcome::Bytes(vec![0xd3, 0x00, 0x13])) {
        ReaderStep::Forward(d) => assert_eq!(d, vec![0xd3, 0x00, 0x13]),
        _ => panic!("expected Forward"),
    }
}

#[test]
fn reader_retries_after_timeout() {
    assert!(matches!(reader_step(ReadOutcome::TimedOut), ReaderStep::Retry));
}

#[test]
fn reader_fails_with_read_error_text() {
    match reader_step(ReadOutcome::Failed("connection reset by peer".to_string())) {
        ReaderStep::Fail(msg) => assert_eq!(msg, "Read error: connection reset by peer"),
        _ => panic!("expected Fail"),
    }
}

#[test]
fn failure_texts() {
    assert_eq!(connection_failed_text("refused"), "Connection failed: refused");
    assert_eq!(decoder_failed_text(), "Failed to initialize RTCM decoder");
}
