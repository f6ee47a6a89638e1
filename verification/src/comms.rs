use vstd::prelude::*;
use vstd::string::StringExecFns;
use vstd::string::StrSliceExecFns;
use crate::err::{ScrapeError, ScrapeResult};
use crate::escape::{escape_chars, escape_json, parse_json_string, unescape_prefix};
use crate::escape::{lemma_unescape_complete, lemma_unescape_sound};
use crate::jobs::{JobView, ScrapeJob};

verus! {

/// An operation submitted over the control connection.
#[derive(Debug, Clone, PartialEq, Eq)]
pub enum CommsOp {
    /// Submit one scrape job; the submitter is acknowledged once the job's
    /// artifacts are persisted.
    Job(ScrapeJob),
    /// Close this control connection; jobs already queued stay queued.
    Terminate,
}

/// The mathematical content of a `CommsOp`.
pub ghost enum CommsOpView {
    Job(JobView),
    Terminate,
}

impl View for CommsOp {
    type V = CommsOpView;

    open spec fn view(&self) -> CommsOpView {
        match self {
            CommsOp::Job(j) => CommsOpView::Job(j@),
            CommsOp::Terminate => CommsOpView::Terminate,
        }
    }
}

/// The characters that open a job message, up to the url field's opening
/// quote.
pub open spec fn job_open() -> Seq<char> {
    seq!['{', '"', 'J', 'o', 'b', '"', ':', '{', '"', 'u', 'r', 'l', '"', ':', '"']
}

/// The characters between the url field and the referer field's opening
/// quote.
pub open spec fn referer_mid() -> Seq<char> {
    seq![',', '"', 'r', 'e', 'f', 'e', 'r', 'e', 'r', '"', ':', '"']
}

/// The characters between the referer field and the output field's opening
/// quote.
pub open spec fn output_mid() -> Seq<char> {
    seq![',', '"', 'o', 'u', 't', 'p', 'u', 't', '"', ':', '"']
}

/// The characters that close a job message after the output field.
pub open spec fn job_close() -> Seq<char> {
    seq!['}', '}']
}

/// The whole terminate message.
pub open spec fn terminate_msg() -> Seq<char> {
    seq!['{', '"', 'T', 'e', 'r', 'm', 'i', 'n', 'a', 't', 'e', '"', ':', 'n', 'u', 'l', 'l', '}']
}

/// The canonical control wire text of an operation: a JSON object of the
/// fixed shape `{"Job":{"url":...,"referer":...,"output":...}}` or
/// `{"Terminate":null}`, with string fields written as [`escape_chars`]
/// does.
pub open spec fn encode_comms_op(op: CommsOpView) -> Seq<char> {
    match op {
        CommsOpView::Job(j) => job_open() + escape_chars(j.url) + seq!['"'] + referer_mid()
            + escape_chars(j.referer) + seq!['"'] + output_mid() + escape_chars(j.output)
            + seq!['"'] + job_close(),
        CommsOpView::Terminate => terminate_msg(),
    }
}

spec fn p_after_url(j: JobView) -> int {
    16 + escape_chars(j.url).len() as int
}

spec fn p_ref(j: JobView) -> int {
    p_after_url(j) + 12
}

spec fn p_after_ref(j: JobView) -> int {
    p_ref(j) + escape_chars(j.referer).len() as int + 1
}

spec fn p_out(j: JobView) -> int {
    p_after_ref(j) + 11
}

spec fn p_after_out(j: JobView) -> int {
    p_out(j) + escape_chars(j.output).len() as int + 1
}

spec fn job_msg_len(j: JobView) -> int {
    p_after_out(j) + 2
}

/// Where each part of a job message stands, as forced by its encoding.
#[verifier::rlimit(100)]
#[verifier::spinoff_prover]
proof fn lemma_job_positions(m: Seq<char>, j: JobView)
    requires
        m == encode_comms_op(CommsOpView::Job(j)),
    ensures
        m.len() == job_msg_len(j),
        m.subrange(0, 15) == job_open(),
        unescape_prefix(m.skip(15)) == Some((j.url, escape_chars(j.url).len() + 1 as int)),
        m.subrange(p_after_url(j), p_ref(j)) == referer_mid(),
        unescape_prefix(m.skip(p_ref(j))) == Some(
            (j.referer, escape_chars(j.referer).len() + 1 as int),
        ),
        m.subrange(p_after_ref(j), p_out(j)) == output_mid(),
        unescape_prefix(m.skip(p_out(j))) == Some(
            (j.output, escape_chars(j.output).len() + 1 as int),
        ),
        m.subrange(p_after_out(j), job_msg_len(j)) == job_close(),
{
    let eu = escape_chars(j.url);
    let er = escape_chars(j.referer);
    let eo = escape_chars(j.output);
    let rest1 = referer_mid() + er + seq!['"'] + output_mid() + eo + seq!['"'] + job_close();
    let rest2 = output_mid() + eo + seq!['"'] + job_close();
    assert(m.len() == job_msg_len(j));
    assert(m.subrange(0, 15) =~= job_open());
    assert(m.skip(15) =~= eu + seq!['"'] + rest1);
    lemma_unescape_complete(j.url, rest1);
    assert(m.subrange(p_after_url(j), p_ref(j)) =~= referer_mid());
    assert(m.skip(p_ref(j)) =~= er + seq!['"'] + rest2);
    lemma_unescape_complete(j.referer, rest2);
    assert(m.subrange(p_after_ref(j), p_out(j)) =~= output_mid());
    assert(m.skip(p_out(j)) =~= eo + seq!['"'] + job_close());
    lemma_unescape_complete(j.output, job_close());
    assert(m.subrange(p_after_out(j), job_msg_len(j)) =~= job_close());
}

/// The control encoding never writes two different operations the same
/// way. Together with the contracts of `encode_control` and
/// `decode_control`, this is what makes the encode/decode pair lossless:
/// decoding an encoded operation yields an equal operation.
pub proof fn lemma_encode_control_injective(a: CommsOpView, b: CommsOpView)
    requires
        encode_comms_op(a) == encode_comms_op(b),
    ensures
        a == b,
{
    let m = encode_comms_op(a);
    match a {
        CommsOpView::Terminate => {
            if let CommsOpView::Job(jb) = b {
                lemma_job_positions(m, jb);
                assert(m[2] == 'T');
                assert(m.subrange(0, 15)[2] == m[2]);
                assert(false);
            }
        },
        CommsOpView::Job(ja) => {
            match b {
                CommsOpView::Terminate => {
                    lemma_job_positions(m, ja);
                    assert(m[2] == 'J');
                    assert(m.subrange(0, 15)[2] == m[2]);
                    assert(false);
                },
                CommsOpView::Job(jb) => {
                    lemma_job_positions(m, ja);
                    lemma_job_positions(m, jb);
                    assert(ja.url == jb.url && escape_chars(ja.url).len() == escape_chars(
                        jb.url,
                    ).len());
                    assert(ja.referer == jb.referer && escape_chars(ja.referer).len()
                        == escape_chars(jb.referer).len());
                    assert(ja.output == jb.output);
                    assert(ja == jb);
                },
            }
        },
    }
}

/// Whether `msg` holds `lit` at character position `pos`; on success the
/// returned position points one past the literal.
fn expect_lit(msg: &str, pos: usize, lit: &str) -> (r: Option<usize>)
    requires
        pos <= msg@.len(),
    ensures
        match r {
            Some(p) => {
                &&& p == pos + lit@.len()
                &&& p <= msg@.len()
                &&& msg@.subrange(pos as int, p as int) == lit@
            },
            None => !(pos + lit@.len() <= msg@.len() && msg@.subrange(
                pos as int,
                pos + lit@.len(),
            ) == lit@),
        },
{
    let n = msg.unicode_len();
    let m = lit.unicode_len();
    if n - pos < m {
        return None;
    }
    let mut k: usize = 0;
    while k < m
        invariant
            n == msg@.len(),
            m == lit@.len(),
            pos + m <= n,
            0 <= k <= m,
            forall|t: int| 0 <= t < k ==> msg@[pos + t] == lit@[t],
        decreases m - k,
    {
        if msg.get_char(pos + k) != lit.get_char(k) {
            proof {
                if msg@.subrange(pos as int, pos + m as int) == lit@ {
                    assert(msg@.subrange(pos as int, pos + m as int)[k as int] == msg@[pos + k]);
                    assert(false);
                }
            }
            return None;
        }
        k += 1;
    }
    proof {
        assert(msg@.subrange(pos as int, pos + m as int) =~= lit@);
    }
    Some(pos + m)
}

/// Render a control operation in the control wire format (without the
/// trailing null delimiter byte, which belongs to the transport framing).
pub fn encode_control(op: &CommsOp) -> (r: String)
    ensures
        r@ == encode_comms_op(op@),
{
    match op {
        CommsOp::Job(job) => {
            proof {
                reveal_strlit("{\"Job\":{\"url\":\"");
                reveal_strlit("\",\"referer\":\"");
                reveal_strlit("\",\"output\":\"");
                reveal_strlit("\"}}");
                assert("{\"Job\":{\"url\":\""@ =~= job_open());
                assert("\",\"referer\":\""@ =~= seq!['"'] + referer_mid());
                assert("\",\"output\":\""@ =~= seq!['"'] + output_mid());
                assert("\"}}"@ =~= seq!['"'] + job_close());
            }
            let mut r = String::from_str("{\"Job\":{\"url\":\"");
            let eu = escape_json(job.url.as_str());
            r.append(eu.as_str());
            r.append("\",\"referer\":\"");
            let er = escape_json(job.referer.as_str());
            r.append(er.as_str());
            r.append("\",\"output\":\"");
            let eo = escape_json(job.output.as_str());
            r.append(eo.as_str());
            r.append("\"}}");
            proof {
                assert(r@ =~= encode_comms_op(op@));
            }
            r
        },
        CommsOp::Terminate => {
            proof {
                reveal_strlit("{\"Terminate\":null}");
                assert("{\"Terminate\":null}"@ =~= terminate_msg());
            }
            String::from_str("{\"Terminate\":null}")
        },
    }
}

/// Stitches the parsed pieces of a job message back into the statement
/// that the whole message is the canonical encoding of the parsed job.
#[verifier::rlimit(100)]
#[verifier::spinoff_prover]
proof fn lemma_job_stitch(
    m: Seq<char>,
    p2: int,
    p4: int,
    p6: int,
    url: Seq<char>,
    referer: Seq<char>,
    output: Seq<char>,
)
    requires
        15 <= p2 <= p2 + 12 <= p4 <= p4 + 11 <= p6 <= m.len(),
        m.len() == p6 + 2,
        m.subrange(0, 15) == job_open(),
        m.subrange(15, p2) == escape_chars(url) + seq!['"'],
        m.subrange(p2, p2 + 12) == referer_mid(),
        m.subrange(p2 + 12, p4) == escape_chars(referer) + seq!['"'],
        m.subrange(p4, p4 + 11) == output_mid(),
        m.subrange(p4 + 11, p6) == escape_chars(output) + seq!['"'],
        m.subrange(p6, p6 + 2) == job_close(),
    ensures
        m == encode_comms_op(CommsOpView::Job(JobView { url, referer, output })),
{
    let eu = escape_chars(url);
    let er = escape_chars(referer);
    let eo = escape_chars(output);
    assert(m.take(p2) =~= m.subrange(0, 15) + m.subrange(15, p2));
    assert(m.take(p2) =~= job_open() + eu + seq!['"']);
    assert(m.take(p2 + 12) =~= m.take(p2) + m.subrange(p2, p2 + 12));
    assert(m.take(p2 + 12) =~= job_open() + eu + seq!['"'] + referer_mid());
    assert(m.take(p4) =~= m.take(p2 + 12) + m.subrange(p2 + 12, p4));
    assert(m.take(p4) =~= job_open() + eu + seq!['"'] + referer_mid() + er + seq!['"']);
    assert(m.take(p4 + 11) =~= m.take(p4) + m.subrange(p4, p4 + 11));
    assert(m.take(p4 + 11) =~= job_open() + eu + seq!['"'] + referer_mid() + er + seq!['"']
        + output_mid());
    assert(m.take(p6) =~= m.take(p4 + 11) + m.subrange(p4 + 11, p6));
    assert(m.take(p6) =~= job_open() + eu + seq!['"'] + referer_mid() + er + seq!['"']
        + output_mid() + eo + seq!['"']);
    assert(m =~= m.take(p6) + m.subrange(p6, p6 + 2));
    assert(m =~= job_open() + eu + seq!['"'] + referer_mid() + er + seq!['"'] + output_mid() + eo
        + seq!['"'] + job_close());
}

/// Read the three fields of a job message; `None` when `msg` is not the
/// canonical encoding of any job operation.
#[verifier::rlimit(100)]
#[verifier::spinoff_prover]
fn parse_job(msg: &str) -> (r: Option<(String, String, String)>)
    ensures
        match r {
            Some(v) => msg@ == encode_comms_op(
                CommsOpView::Job(JobView { url: v.0@, referer: v.1@, output: v.2@ }),
            ),
            None => forall|j: JobView| msg@ != encode_comms_op(CommsOpView::Job(j)),
        },
{
    let n = msg.unicode_len();
    proof {
        reveal_strlit("{\"Job\":{\"url\":\"");
        reveal_strlit(",\"referer\":\"");
        reveal_strlit(",\"output\":\"");
        reveal_strlit("}}");
        assert("{\"Job\":{\"url\":\""@ =~= job_open());
        assert(",\"referer\":\""@ =~= referer_mid());
        assert(",\"output\":\""@ =~= output_mid());
        assert("}}"@ =~= job_close());
    }
    let p1 = match expect_lit(msg, 0, "{\"Job\":{\"url\":\"") {
        Some(p) => p,
        None => {
            proof {
                assert forall|j: JobView| msg@ != encode_comms_op(CommsOpView::Job(j)) by {
                    if msg@ == encode_comms_op(CommsOpView::Job(j)) {
                        lemma_job_positions(msg@, j);
                    }
                }
            }
            return None;
        },
    };
    let (url, p2) = match parse_json_string(msg, p1) {
        Some(v) => v,
        None => {
            proof {
                assert forall|j: JobView| msg@ != encode_comms_op(CommsOpView::Job(j)) by {
                    if msg@ == encode_comms_op(CommsOpView::Job(j)) {
                        lemma_job_positions(msg@, j);
                    }
                }
            }
            return None;
        },
    };
    let p3 = match expect_lit(msg, p2, ",\"referer\":\"") {
        Some(p) => p,
        None => {
            proof {
                assert forall|j: JobView| msg@ != encode_comms_op(CommsOpView::Job(j)) by {
                    if msg@ == encode_comms_op(CommsOpView::Job(j)) {
                        lemma_job_positions(msg@, j);
                        assert(p2 == p_after_url(j));
                    }
                }
            }
            return None;
        },
    };
    let (referer, p4) = match parse_json_string(msg, p3) {
        Some(v) => v,
        None => {
            proof {
                assert forall|j: JobView| msg@ != encode_comms_op(CommsOpView::Job(j)) by {
                    if msg@ == encode_comms_op(CommsOpView::Job(j)) {
                        lemma_job_positions(msg@, j);
                        assert(p2 == p_after_url(j));
                        assert(p3 == p_ref(j));
                    }
                }
            }
            return None;
        },
    };
    let p5 = match expect_lit(msg, p4, ",\"output\":\"") {
        Some(p) => p,
        None => {
            proof {
                assert forall|j: JobView| msg@ != encode_comms_op(CommsOpView::Job(j)) by {
                    if msg@ == encode_comms_op(CommsOpView::Job(j)) {
                        lemma_job_positions(msg@, j);
                        assert(p2 == p_after_url(j));
                        assert(p3 == p_ref(j));
                        assert(p4 == p_after_ref(j));
                    }
                }
            }
            return None;
        },
    };
    let (output, p6) = match parse_json_string(msg, p5) {
        Some(v) => v,
        None => {
            proof {
                assert forall|j: JobView| msg@ != encode_comms_op(CommsOpView::Job(j)) by {
                    if msg@ == encode_comms_op(CommsOpView::Job(j)) {
                        lemma_job_positions(msg@, j);
                        assert(p2 == p_after_url(j));
                        assert(p3 == p_ref(j));
                        assert(p4 == p_after_ref(j));
                        assert(p5 == p_out(j));
                    }
                }
            }
            return None;
        },
    };
    let p7 = match expect_lit(msg, p6, "}}") {
        Some(p) => p,
        None => {
            proof {
                assert forall|j: JobView| msg@ != encode_comms_op(CommsOpView::Job(j)) by {
                    if msg@ == encode_comms_op(CommsOpView::Job(j)) {
                        lemma_job_positions(msg@, j);
                        assert(p2 == p_after_url(j));
                        assert(p3 == p_ref(j));
                        assert(p4 == p_after_ref(j));
                        assert(p5 == p_out(j));
                        assert(p6 == p_after_out(j));
                    }
                }
            }
            return None;
        },
    };
    if p7 != n {
        proof {
            assert forall|j: JobView| msg@ != encode_comms_op(CommsOpView::Job(j)) by {
                if msg@ == encode_comms_op(CommsOpView::Job(j)) {
                    lemma_job_positions(msg@, j);
                    assert(p2 == p_after_url(j));
                    assert(p3 == p_ref(j));
                    assert(p4 == p_after_ref(j));
                    assert(p5 == p_out(j));
                    assert(p6 == p_after_out(j));
                    assert(p7 == job_msg_len(j));
                }
            }
        }
        return None;
    }
    proof {
        lemma_unescape_sound(msg@.skip(p1 as int));
        lemma_unescape_sound(msg@.skip(p3 as int));
        lemma_unescape_sound(msg@.skip(p5 as int));
        assert(msg@.skip(p1 as int).take(p2 - p1) =~= msg@.subrange(p1 as int, p2 as int));
        assert(msg@.skip(p3 as int).take(p4 - p3) =~= msg@.subrange(p3 as int, p4 as int));
        assert(msg@.skip(p5 as int).take(p6 - p5) =~= msg@.subrange(p5 as int, p6 as int));
        lemma_job_stitch(msg@, p2 as int, p4 as int, p6 as int, url@, referer@, output@);
    }
    Some((url, referer, output))
}

/// Decode one control message. Exactly the canonical texts that
/// [`encode_comms_op`] describes are accepted: decoding yields `Ok(op)`
/// precisely when the message is the encoding of `op`, so an encoded
/// operation always decodes back to an equal operation.
pub fn decode_control(msg: &str) -> (r: ScrapeResult<CommsOp>)
    ensures
        r matches Ok(op) ==> msg@ == encode_comms_op(op@),
        forall|ov: CommsOpView| msg@ == encode_comms_op(ov) ==> (r matches Ok(op) && op@ == ov),
        r matches Err(e) ==> (e matches ScrapeError::MessageDecode { raw } && raw@ == msg@),
{
    proof {
        reveal_strlit("{\"Terminate\":null}");
        assert("{\"Terminate\":null}"@ =~= terminate_msg());
    }
    if crate::utils::str_eq(msg, "{\"Terminate\":null}") {
        let r = Ok(CommsOp::Terminate);
        proof {
            assert forall|ov: CommsOpView| msg@ == encode_comms_op(ov) implies (r matches Ok(op)
                && op@ == ov) by {
                lemma_encode_control_injective(ov, CommsOpView::Terminate);
            }
        }
        return r;
    }
    match parse_job(msg) {
        Some((url, referer, output)) => {
            let r = Ok(CommsOp::Job(ScrapeJob { url, referer, output }));
            proof {
                assert forall|ov: CommsOpView| msg@ == encode_comms_op(ov) implies (r matches Ok(
                    op,
                ) && op@ == ov) by {
                    let parsed = r->Ok_0;
                    lemma_encode_control_injective(ov, parsed@);
                }
            }
            r
        },
        None => {
            proof {
                assert forall|ov: CommsOpView| msg@ != encode_comms_op(ov) by {
                    if msg@ == encode_comms_op(ov) {
                        match ov {
                            CommsOpView::Terminate => {
                                assert(false);
                            },
                            CommsOpView::Job(j) => {
                                assert(false);
                            },
                        }
                    }
                }
            }
            Err(ScrapeError::MessageDecode { raw: msg.to_owned() })
        },
    }
}

/// The fixed acknowledgment token written to a control client once its
/// job's artifacts are persisted: the largest 64-bit value, as eight
/// big-endian bytes.
pub fn ack_token() -> (r: Vec<u8>)
    ensures
        r@ == seq![0xffu8, 0xff, 0xff, 0xff, 0xff, 0xff, 0xff, 0xff],
{
    let mut v: Vec<u8> = Vec::new();
    v.push(0xff);
    v.push(0xff);
    v.push(0xff);
    v.push(0xff);
    v.push(0xff);
    v.push(0xff);
    v.push(0xff);
    v.push(0xff);
    proof {
        assert(v@ =~= seq![0xffu8, 0xff, 0xff, 0xff, 0xff, 0xff, 0xff, 0xff]);
    }
    v
}

} // verus!
