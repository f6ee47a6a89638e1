use scrape_server::{
    encode_control, intake_step, Action, CommsOp, Coordinator, IntakeReaction, ScrapeError,
    ScrapeJob,
};

fn job(url: &str, referer: &str, output: &str) -> ScrapeJob {
    ScrapeJob { url: url.to_string(), referer: referer.to_string(), output: output.to_string() }
}

fn submit(c: &mut Coordinator, j: ScrapeJob) {
    let msg = encode_control(&CommsOp::Job(j));
    assert_eq!(intake_step(c, &msg), Ok(IntakeReaction::Submitted));
}

#[test]
fn scenario_single_job() {
    let mut c = Coordinator::new();
    submit(&mut c, job("https://x/a", "https://x/", "/tmp/a.bin"));
    assert_eq!(c.pending_count(), 1);

    // the agent connects; the coordinator takes the first job and waits
    // for the handshake
    assert_eq!(c.next_job(), None);
    assert!(c.has_active());

    // init: the scrape request goes out
    let acts = c.on_text_message("init\0page1").unwrap();
    assert_eq!(
        acts,
        vec![Action::SendScrape {
            url: "https://x/a".to_string(),
            referer: "https://x/".to_string(),
        }]
    );

    // headers arrive: both header artifacts are handed out
    let acts = c.on_text_message("content\0200\0Content-Type: text/plain").unwrap();
    assert_eq!(
        acts,
        vec![
            Action::WriteHeaders {
                path: "/tmp/a.bin.headers.response".to_string(),
                text: "Content-Type: text/plain".to_string(),
            },
            Action::WriteStatus { path: "/tmp/a.bin.status".to_string(), text: "200".to_string() },
        ]
    );
    assert!(c.expects_binary());

    // the binary body arrives: content persisted, then the completion fires
    let acts = c.on_binary(b"hello".to_vec()).unwrap();
    assert_eq!(
        acts,
        vec![
            Action::WriteContent { path: "/tmp/a.bin".to_string(), content: b"hello".to_vec() },
            Action::FireCompletion,
            Action::Throttle,
        ]
    );
    assert!(!c.has_active());
}

#[test]
fn scenario_invalid_status_is_fatal_and_writes_nothing() {
    let mut c = Coordinator::new();
    submit(&mut c, job("https://x/a", "https://x/", "/tmp/a.bin"));
    assert_eq!(c.next_job(), None);
    c.on_text_message("init\0page1").unwrap();

    match c.on_text_message("content\0notanumber\0headers") {
        Err(ScrapeError::InvalidStatus { raw_str }) => {
            assert_eq!(raw_str, "notanumber\0headers");
        },
        other => panic!("expected an invalid status error, got {:?}", other),
    }
    // no artifact was handed out and no binary frame is expected
    assert!(!c.expects_binary());
}

#[test]
fn scenario_back_to_back_jobs_without_new_init() {
    let mut c = Coordinator::new();
    submit(&mut c, job("https://x/1", "https://x/", "/tmp/1.bin"));
    submit(&mut c, job("https://x/2", "https://x/", "/tmp/2.bin"));
    assert_eq!(c.pending_count(), 2);

    assert_eq!(c.next_job(), None);
    c.on_text_message("init\0page1").unwrap();
    c.on_text_message("content\0200\0h: v").unwrap();
    let acts = c.on_binary(b"one".to_vec()).unwrap();
    // the caller persists, fires the completion, throttles...
    assert_eq!(acts[1], Action::FireCompletion);
    assert_eq!(acts[2], Action::Throttle);

    // ...and the next job's scrape request goes out with no new init
    let op = c.next_job().unwrap();
    assert_eq!(op.encode(), "scrape\0https://x/2\0https://x/");
    let acts = c.on_text_message("content\0404\0h: v").unwrap();
    assert_eq!(
        acts[1],
        Action::WriteStatus { path: "/tmp/2.bin.status".to_string(), text: "404".to_string() }
    );
}

#[test]
fn scenario_terminate_leaves_queue_untouched() {
    let mut c = Coordinator::new();
    submit(&mut c, job("https://x/a", "https://x/", "/tmp/a.bin"));

    // a control client terminates: only its connection closes
    let msg = encode_control(&CommsOp::Terminate);
    assert_eq!(intake_step(&mut c, &msg), Ok(IntakeReaction::Closed));

    // the queued job is still there and is served as usual
    assert_eq!(c.pending_count(), 1);
    assert_eq!(c.next_job(), None);
    let acts = c.on_text_message("init\0page1").unwrap();
    assert_eq!(acts.len(), 1);
}

#[test]
fn fifo_service_order() {
    let mut c = Coordinator::new();
    let urls = ["https://x/1", "https://x/2", "https://x/3"];
    for (i, u) in urls.iter().enumerate() {
        submit(&mut c, job(u, "https://x/", &format!("/tmp/{}.bin", i)));
    }

    let mut seen: Vec<String> = Vec::new();
    assert_eq!(c.next_job(), None);
    let acts = c.on_text_message("init\0p").unwrap();
    match &acts[0] {
        Action::SendScrape { url, .. } => seen.push(url.clone()),
        other => panic!("expected a scrape request, got {:?}", other),
    }
    for _ in 0..2 {
        c.on_text_message("content\0200\0h: v").unwrap();
        c.on_binary(b"body".to_vec()).unwrap();
        match c.next_job().unwrap() {
            scrape_server::ServerOp::Scrape { url, .. } => seen.push(url),
            other => panic!("expected a scrape request, got {:?}", other),
        }
    }
    assert_eq!(seen, urls.iter().map(|u| u.to_string()).collect::<Vec<_>>());
}

#[test]
fn repeated_init_is_idempotent() {
    let mut c = Coordinator::new();
    submit(&mut c, job("https://x/a", "https://x/", "/tmp/a.bin"));
    assert_eq!(c.next_job(), None);
    let first = c.on_text_message("init\0page1").unwrap();
    assert_eq!(first.len(), 1);
    // no second scrape request before the job's payload was persisted
    let again = c.on_text_message("init\0page1").unwrap();
    assert_eq!(again, vec![]);
}

#[test]
fn binary_frame_out_of_sequence() {
    let mut c = Coordinator::new();
    submit(&mut c, job("https://x/a", "https://x/", "/tmp/a.bin"));
    assert_eq!(c.next_job(), None);
    c.on_text_message("init\0page1").unwrap();
    match c.on_binary(b"early".to_vec()) {
        Err(ScrapeError::ContentNotText { raw }) => assert_eq!(raw, b"early".to_vec()),
        other => panic!("expected a framing error, got {:?}", other),
    }
}

#[test]
fn text_frame_when_binary_expected() {
    let mut c = Coordinator::new();
    submit(&mut c, job("https://x/a", "https://x/", "/tmp/a.bin"));
    assert_eq!(c.next_job(), None);
    c.on_text_message("init\0page1").unwrap();
    c.on_text_message("content\0200\0h: v").unwrap();
    match c.on_text_message("init\0page2") {
        Err(ScrapeError::ContentNotText { raw }) => assert_eq!(raw, b"init\0page2".to_vec()),
        other => panic!("expected a framing error, got {:?}", other),
    }
}

#[test]
fn content_before_handshake_is_a_violation() {
    let mut c = Coordinator::new();
    submit(&mut c, job("https://x/a", "https://x/", "/tmp/a.bin"));
    assert_eq!(c.next_job(), None);
    match c.on_text_message("content\0200\0h: v") {
        Err(ScrapeError::MessageDecode { raw }) => assert_eq!(raw, "content\0200\0h: v"),
        other => panic!("expected a protocol violation, got {:?}", other),
    }
}

#[test]
fn content_data_without_separator() {
    let mut c = Coordinator::new();
    submit(&mut c, job("https://x/a", "https://x/", "/tmp/a.bin"));
    assert_eq!(c.next_job(), None);
    c.on_text_message("init\0page1").unwrap();
    match c.on_text_message("content\0just200") {
        Err(ScrapeError::SplitFailed { content, separator }) => {
            assert_eq!(content, "just200");
            assert_eq!(separator, '\0');
        },
        other => panic!("expected a split failure, got {:?}", other),
    }
}

#[test]
fn header_block_with_null_bytes_is_not_mis_split() {
    let mut c = Coordinator::new();
    submit(&mut c, job("https://x/a", "https://x/", "/tmp/a.bin"));
    assert_eq!(c.next_job(), None);
    c.on_text_message("init\0page1").unwrap();
    let acts = c.on_text_message("content\0200\0a: b\0c: d").unwrap();
    assert_eq!(
        acts[0],
        Action::WriteHeaders {
            path: "/tmp/a.bin.headers.response".to_string(),
            text: "a: b\0c: d".to_string(),
        }
    );
}

#[test]
fn intake_rejects_undecodable_message() {
    let mut c = Coordinator::new();
    match intake_step(&mut c, "not a control message") {
        Err(ScrapeError::MessageDecode { raw }) => assert_eq!(raw, "not a control message"),
        other => panic!("expected a decode error, got {:?}", other),
    }
    assert_eq!(c.pending_count(), 0);
}
