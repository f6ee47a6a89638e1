use vstd::prelude::*;
use vstd::string::StringExecFns;
use crate::err::{ScrapeError, ScrapeResult};

verus! {

/// The leading characters of an agent `init` message: the op tag and the
/// field separator.
pub open spec fn init_prefix() -> Seq<char> {
    seq!['i', 'n', 'i', 't', '\0']
}

/// The leading characters of an agent `content` message.
pub open spec fn content_prefix() -> Seq<char> {
    seq!['c', 'o', 'n', 't', 'e', 'n', 't', '\0']
}

/// The leading characters of a server `scrape` message.
pub open spec fn scrape_prefix() -> Seq<char> {
    seq!['s', 'c', 'r', 'a', 'p', 'e', '\0']
}

/// The leading characters of a server `debug` message.
pub open spec fn debug_prefix() -> Seq<char> {
    seq!['d', 'e', 'b', 'u', 'g', '\0']
}

/// An operation sent by the browser agent over the session connection,
/// as a text frame of null-separated fields.
#[derive(Debug, Clone, PartialEq, Eq)]
pub enum ClientOp {
    /// The agent announces the page it currently shows.
    Init { current_page: String },
    /// The agent hands over `<statusDecimal>\0<headerBlock>` for the
    /// active job; the binary body follows in the next frame.
    Content { headers_raw: String },
}

impl ClientOp {
    /// Parse one agent text frame: the part before the first null byte is
    /// the op tag, everything after it is the op's data.
    ///
    /// A frame without a null byte fails the field split; a frame whose op
    /// tag is neither `init` nor `content` is a protocol violation.
    pub fn parse(raw: &str) -> (r: ScrapeResult<ClientOp>)
        ensures
            match r {
                Ok(op) => match op {
                    ClientOp::Init { current_page } => raw@ == init_prefix() + current_page@,
                    ClientOp::Content { headers_raw } => raw@ == content_prefix() + headers_raw@,
                },
                Err(e) => match e {
                    ScrapeError::SplitFailed { content, separator } => {
                        &&& !raw@.contains('\0')
                        &&& content@ == raw@
                        &&& separator == '\0'
                    },
                    ScrapeError::MessageDecode { raw: r2 } => {
                        &&& r2@ == raw@
                        &&& raw@.contains('\0')
                        &&& forall|page: Seq<char>| raw@ != init_prefix() + page
                        &&& forall|data: Seq<char>| raw@ != content_prefix() + data
                    },
                    _ => false,
                },
            },
    {
        let split = crate::utils::split_once(raw, '\0');
        match split {
            Err(e) => Err(e),
            Ok((op_str, data_str)) => {
                proof {
                    reveal_strlit("init");
                    reveal_strlit("content");
                }
                proof {
                    assert("init"@ =~= seq!['i', 'n', 'i', 't']);
                    assert("content"@ =~= seq!['c', 'o', 'n', 't', 'e', 'n', 't']);
                }
                if crate::utils::str_eq(op_str, "init") {
                    let op = ClientOp::Init { current_page: data_str.to_owned() };
                    proof {
                        assert(raw@ =~= init_prefix() + data_str@);
                    }
                    Ok(op)
                } else if crate::utils::str_eq(op_str, "content") {
                    let op = ClientOp::Content { headers_raw: data_str.to_owned() };
                    proof {
                        assert(raw@ =~= content_prefix() + data_str@);
                    }
                    Ok(op)
                } else {
                    proof {
                        lemma_unknown_op(raw@, op_str@, data_str@);
                        assert(raw@.contains('\0')) by {
                            assert(raw@[op_str@.len() as int] == '\0');
                        }
                    }
                    Err(ScrapeError::MessageDecode { raw: raw.to_owned() })
                }
            },
        }
    }
}

/// If the part of `raw` before its first null byte is neither `init` nor
/// `content`, then `raw` is no well-formed agent message at all.
proof fn lemma_unknown_op(raw: Seq<char>, op: Seq<char>, data: Seq<char>)
    requires
        raw == op + seq!['\0'] + data,
        !op.contains('\0'),
        op != seq!['i', 'n', 'i', 't'],
        op != seq!['c', 'o', 'n', 't', 'e', 'n', 't'],
    ensures
        forall|page: Seq<char>| raw != init_prefix() + page,
        forall|data2: Seq<char>| raw != content_prefix() + data2,
{
    assert forall|j: int| 0 <= j < op.len() implies raw[j] == op[j] by {
        assert(raw[j] == (op + seq!['\0'] + data)[j]);
    }
    assert(raw[op.len() as int] == '\0');
    assert forall|page: Seq<char>| raw != init_prefix() + page by {
        if raw == init_prefix() + page {
            // the first null byte of an init message sits at index 4,
            // so the op tag must have length 4 and spell out "init"
            if op.len() > 4 {
                assert(op[4] == raw[4]);
                assert(raw[4] == init_prefix()[4]);
                assert(op.contains('\0')) by {
                    assert(op[4] == '\0');
                }
                assert(false);
            }
            assert(init_prefix()[0] == 'i' && init_prefix()[1] == 'n' && init_prefix()[2] == 'i'
                && init_prefix()[3] == 't' && init_prefix()[4] == '\0');
            assert(raw[op.len() as int] == init_prefix()[op.len() as int]);
            assert(op.len() == 4);
            assert(op =~= seq!['i', 'n', 'i', 't']);
            assert(false);
        }
    }
    assert forall|data2: Seq<char>| raw != content_prefix() + data2 by {
        if raw == content_prefix() + data2 {
            if op.len() > 7 {
                assert(op[7] == raw[7]);
                assert(raw[7] == content_prefix()[7]);
                assert(op.contains('\0')) by {
                    assert(op[7] == '\0');
                }
                assert(false);
            }
            assert(content_prefix()[0] == 'c' && content_prefix()[1] == 'o'
                && content_prefix()[2] == 'n' && content_prefix()[3] == 't'
                && content_prefix()[4] == 'e' && content_prefix()[5] == 'n'
                && content_prefix()[6] == 't' && content_prefix()[7] == '\0');
            assert(raw[op.len() as int] == content_prefix()[op.len() as int]);
            assert(op.len() == 7);
            assert(op =~= seq!['c', 'o', 'n', 't', 'e', 'n', 't']);
            assert(false);
        }
    }
}

/// An operation sent by this server to the browser agent over the session
/// connection, as a text frame of null-separated fields.
#[derive(Debug, Clone, PartialEq, Eq)]
pub enum ServerOp {
    /// Ask the agent to navigate to `url` presenting `referer`.
    Scrape { url: String, referer: String },
    /// A diagnostic payload.
    Debug { text: String },
}

impl ServerOp {
    /// Render the operation in the session wire format.
    pub fn encode(&self) -> (r: String)
        ensures
            match self {
                ServerOp::Scrape { url, referer } => r@ == scrape_prefix() + url@ + seq!['\0'] + referer@,
                ServerOp::Debug { text } => r@ == debug_prefix() + text@,
            },
    {
        match self {
            ServerOp::Scrape { url, referer } => {
                proof {
                    reveal_strlit("scrape\0");
                    reveal_strlit("\0");
                }
                let mut r = String::from_str("scrape\0");
                r.append(url.as_str());
                r.append("\0");
                r.append(referer.as_str());
                proof {
                    assert(r@ =~= scrape_prefix() + url@ + seq!['\0'] + referer@);
                }
                r
            },
            ServerOp::Debug { text } => {
                proof {
                    reveal_strlit("debug\0");
                }
                let mut r = String::from_str("debug\0");
                r.append(text.as_str());
                proof {
                    assert(r@ =~= debug_prefix() + text@);
                }
                r
            },
        }
    }
}

} // verus!
