use vstd::prelude::*;

verus! {

/// The error kinds the library distinguishes.
///
/// The intake side recovers from any of these by dropping the offending
/// control connection; the session side treats every one of them as fatal
/// to the whole process, because a half-completed exchange with the single
/// browser agent has no recovery state.
#[derive(Debug, Clone, PartialEq, Eq)]
pub enum ScrapeError {
    /// An expected separator was missing in a protocol field.
    SplitFailed { content: String, separator: char },
    /// The underlying session transport failed; `detail` is free-form text.
    SessionTransport { detail: String },
    /// A frame of the wrong kind (text vs. binary) arrived out of sequence.
    ContentNotText { raw: Vec<u8> },
    /// The status field of a `content` message was not an unsigned
    /// 16-bit decimal number.
    InvalidStatus { raw_str: String },
    /// A control or session message failed to parse.
    MessageDecode { raw: String },
    /// A socket-level failure; `addr` is the textual remote address.
    NetIo { addr: String, detail: String },
    /// Persisting an artifact to `path` failed.
    FileIo { path: String, detail: String },
}

pub type ScrapeResult<T> = Result<T, ScrapeError>;

} // verus!
