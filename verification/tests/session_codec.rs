use scrape_server::{
    format_duration, parse_u16, split_once, u64_to_decimal, ClientOp, ScrapeError, ScrapeJob,
    ServerOp,
};

#[test]
fn server_op_encode_scrape() {
    let op = ServerOp::Scrape { url: "https://x/a".to_string(), referer: "https://x/".to_string() };
    assert_eq!(op.encode(), "scrape\0https://x/a\0https://x/");
}

#[test]
fn server_op_encode_debug() {
    let op = ServerOp::Debug { text: "thanks".to_string() };
    assert_eq!(op.encode(), "debug\0thanks");
}

#[test]
fn client_op_parse_init() {
    assert_eq!(
        ClientOp::parse("init\0page1"),
        Ok(ClientOp::Init { current_page: "page1".to_string() })
    );
}

#[test]
fn client_op_parse_content() {
    assert_eq!(
        ClientOp::parse("content\0200\0Content-Type: text/plain"),
        Ok(ClientOp::Content { headers_raw: "200\0Content-Type: text/plain".to_string() })
    );
}

#[test]
fn client_op_parse_unknown_op() {
    match ClientOp::parse("navigate\0somewhere") {
        Err(ScrapeError::MessageDecode { raw }) => assert_eq!(raw, "navigate\0somewhere"),
        other => panic!("expected a decode error, got {:?}", other),
    }
}

#[test]
fn client_op_parse_missing_separator() {
    match ClientOp::parse("init page1") {
        Err(ScrapeError::SplitFailed { content, separator }) => {
            assert_eq!(content, "init page1");
            assert_eq!(separator, '\0');
        },
        other => panic!("expected a split failure, got {:?}", other),
    }
}

#[test]
fn split_once_splits_at_first_separator_only() {
    // the header block may itself contain null bytes; only the first one splits
    let (status, headers) = split_once("200\0a: b\0c: d", '\0').unwrap();
    assert_eq!(status, "200");
    assert_eq!(headers, "a: b\0c: d");
}

#[test]
fn split_once_missing_separator() {
    match split_once("no separator here", '\0') {
        Err(ScrapeError::SplitFailed { content, separator }) => {
            assert_eq!(content, "no separator here");
            assert_eq!(separator, '\0');
        },
        other => panic!("expected a split failure, got {:?}", other),
    }
}

#[test]
fn parse_u16_values() {
    assert_eq!(parse_u16("0"), Some(0));
    assert_eq!(parse_u16("200"), Some(200));
    assert_eq!(parse_u16("0200"), Some(200));
    assert_eq!(parse_u16("65535"), Some(65535));
    assert_eq!(parse_u16("65536"), None);
    assert_eq!(parse_u16("99999"), None);
    assert_eq!(parse_u16("notanumber"), None);
    assert_eq!(parse_u16(""), None);
    assert_eq!(parse_u16("-1"), None);
    assert_eq!(parse_u16("2 0"), None);
}

#[test]
fn format_duration_is_decimal_seconds() {
    assert_eq!(format_duration(0), "0");
    assert_eq!(format_duration(5), "5");
    assert_eq!(format_duration(12345), "12345");
    assert_eq!(u64_to_decimal(u64::MAX), "18446744073709551615");
}

#[test]
fn derived_artifact_paths() {
    let j = ScrapeJob {
        url: "https://x/a".to_string(),
        referer: "https://x/".to_string(),
        output: "/tmp/a.bin".to_string(),
    };
    assert_eq!(j.output_with_suffix("status"), "/tmp/a.bin.status");
    assert_eq!(j.status_path(), "/tmp/a.bin.status");
    assert_eq!(j.headers_path(), "/tmp/a.bin.headers.response");
}
