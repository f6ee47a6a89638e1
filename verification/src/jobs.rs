use vstd::prelude::*;
use vstd::string::StringExecFns;

verus! {

/// One scrape request: the page to fetch, the referer to present, and the
/// base path under which the job's artifacts are persisted.
///
/// A job is immutable once built from a submitted control message; the
/// session coordinator consumes it exactly once.
#[derive(Debug, Clone, PartialEq, Eq)]
pub struct ScrapeJob {
    pub url: String,
    pub referer: String,
    pub output: String,
}

/// The mathematical content of a `ScrapeJob`: its fields as character
/// sequences.
pub ghost struct JobView {
    pub url: Seq<char>,
    pub referer: Seq<char>,
    pub output: Seq<char>,
}

impl View for ScrapeJob {
    type V = JobView;

    open spec fn view(&self) -> JobView {
        JobView { url: self.url@, referer: self.referer@, output: self.output@ }
    }
}

impl ScrapeJob {
    /// The derived artifact path `output` + `"."` + `extension`.
    pub fn output_with_suffix(&self, extension: &str) -> (r: String)
        ensures
            r@ == self.output@ + seq!['.'] + extension@,
    {
        proof {
            reveal_strlit(".");
            assert("."@ =~= seq!['.']);
        }
        let mut r = self.output.clone();
        r.append(".");
        r.append(extension);
        proof {
            assert(r@ =~= self.output@ + seq!['.'] + extension@);
        }
        r
    }

    /// Path of the artifact that holds the decimal status text.
    pub fn status_path(&self) -> (r: String)
        ensures
            r@ == self.output@ + seq!['.', 's', 't', 'a', 't', 'u', 's'],
    {
        let r = self.output_with_suffix("status");
        proof {
            reveal_strlit("status");
            assert(r@ =~= self.output@ + seq!['.', 's', 't', 'a', 't', 'u', 's']);
        }
        r
    }

    /// Path of the artifact that holds the raw response header block.
    pub fn headers_path(&self) -> (r: String)
        ensures
            r@ == self.output@ + seq!['.', 'h', 'e', 'a', 'd', 'e', 'r', 's', '.', 'r', 'e', 's', 'p', 'o', 'n', 's', 'e'],
    {
        let r = self.output_with_suffix("headers.response");
        proof {
            reveal_strlit("headers.response");
            assert(r@ =~= self.output@
                + seq!['.', 'h', 'e', 'a', 'd', 'e', 'r', 's', '.', 'r', 'e', 's', 'p', 'o', 'n', 's', 'e']);
        }
        r
    }
}

/// Coordinator configuration. `request_throttle` is the mandatory delay,
/// in whole seconds, inserted between consecutive jobs on one session
/// connection.
#[derive(Debug, Clone, PartialEq, Eq)]
pub struct ScrapeConfig {
    pub request_throttle: u64,
}

} // verus!
