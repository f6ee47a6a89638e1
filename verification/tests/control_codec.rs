use scrape_server::{ack_token, decode_control, encode_control, CommsOp, ScrapeError, ScrapeJob};

fn job(url: &str, referer: &str, output: &str) -> ScrapeJob {
    ScrapeJob { url: url.to_string(), referer: referer.to_string(), output: output.to_string() }
}

#[test]
fn encode_job_exact() {
    let op = CommsOp::Job(job("https://x/a", "https://x/", "/tmp/a.bin"));
    assert_eq!(
        encode_control(&op),
        "{\"Job\":{\"url\":\"https://x/a\",\"referer\":\"https://x/\",\"output\":\"/tmp/a.bin\"}}"
    );
}

#[test]
fn encode_terminate_exact() {
    assert_eq!(encode_control(&CommsOp::Terminate), "{\"Terminate\":null}");
}

#[test]
fn round_trip_job() {
    let op = CommsOp::Job(job("https://x/a", "https://x/", "/tmp/a.bin"));
    let msg = encode_control(&op);
    assert_eq!(decode_control(&msg), Ok(op));
}

#[test]
fn round_trip_terminate() {
    let msg = encode_control(&CommsOp::Terminate);
    assert_eq!(decode_control(&msg), Ok(CommsOp::Terminate));
}

#[test]
fn escapes_in_fields() {
    let op = CommsOp::Job(job("a\"b\\c", "r\nr", "o\0o"));
    let msg = encode_control(&op);
    assert_eq!(
        msg,
        "{\"Job\":{\"url\":\"a\\\"b\\\\c\",\"referer\":\"r\\u000ar\",\"output\":\"o\\u0000o\"}}"
    );
    assert_eq!(decode_control(&msg), Ok(op));
}

#[test]
fn round_trip_empty_fields() {
    let op = CommsOp::Job(job("", "", ""));
    let msg = encode_control(&op);
    assert_eq!(decode_control(&msg), Ok(op));
}

#[test]
fn decode_rejects_garbage() {
    assert!(matches!(decode_control("hello"), Err(ScrapeError::MessageDecode { .. })));
    assert!(matches!(decode_control(""), Err(ScrapeError::MessageDecode { .. })));
    assert!(matches!(
        decode_control("{\"Job\":{\"url\":\"x\"}}"),
        Err(ScrapeError::MessageDecode { .. })
    ));
}

#[test]
fn decode_rejects_trailing_data() {
    let op = CommsOp::Job(job("u", "r", "o"));
    let mut msg = encode_control(&op);
    msg.push(' ');
    assert!(matches!(decode_control(&msg), Err(ScrapeError::MessageDecode { .. })));
}

#[test]
fn decode_rejects_raw_control_character() {
    // a raw (unescaped) newline inside a string field is not valid JSON
    let msg = "{\"Job\":{\"url\":\"a\nb\",\"referer\":\"r\",\"output\":\"o\"}}";
    assert!(matches!(decode_control(msg), Err(ScrapeError::MessageDecode { .. })));
}

#[test]
fn decode_error_carries_message() {
    match decode_control("nonsense") {
        Err(ScrapeError::MessageDecode { raw }) => assert_eq!(raw, "nonsense"),
        other => panic!("expected a decode error, got {:?}", other),
    }
}

#[test]
fn ack_token_is_eight_ff_bytes() {
    assert_eq!(ack_token(), vec![0xffu8; 8]);
    assert_eq!(u64::from_be_bytes(ack_token().try_into().unwrap()), u64::MAX);
}
