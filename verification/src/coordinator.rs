use vstd::prelude::*;
use vstd::string::StrSliceExecFns;
use vstd::string::StringSliceAdditionalSpecFns;
use crate::comms::{encode_comms_op, terminate_msg, CommsOp, CommsOpView};
use crate::err::{ScrapeError, ScrapeResult};
use crate::jobs::{JobView, ScrapeJob};
use crate::session::{content_prefix, init_prefix, ClientOp, ServerOp};
use crate::utils::{all_digits, decimal_chars, decimal_val};

verus! {

/// One externally visible effect that the caller of the coordinator must
/// perform, in the order the actions are returned: send a frame to the
/// agent, persist an artifact, fire the active job's completion signal, or
/// sleep for the configured throttle.
#[derive(Debug, Clone, PartialEq, Eq)]
pub enum Action {
    /// Send `scrape\0<url>\0<referer>` to the agent.
    SendScrape { url: String, referer: String },
    /// Overwrite the file at `path` with `text`.
    WriteHeaders { path: String, text: String },
    /// Overwrite the file at `path` with `text`.
    WriteStatus { path: String, text: String },
    /// Overwrite the file at `path` with `content`.
    WriteContent { path: String, content: Vec<u8> },
    /// Fire the completion signal of the oldest uncompleted job, which
    /// unblocks the control connection that submitted it.
    FireCompletion,
    /// Sleep for the configured request throttle.
    Throttle,
}

/// What an intake step asks the control connection handler to do next.
#[derive(Debug, Clone, Copy, PartialEq, Eq)]
pub enum IntakeReaction {
    /// A job was queued: wait for its completion signal, then write the
    /// ack token and read the next message.
    Submitted,
    /// The client asked to terminate: close this control connection; the
    /// queue is untouched.
    Closed,
}

/// The job-intake and scrape-session state machine.
///
/// The coordinator holds the FIFO job queue shared between the control
/// side (`submit`) and the single agent session (`next_job`,
/// `on_text_message`, `on_binary`). It decides everything; the caller
/// performs the returned [`Action`]s in order and feeds back what arrives
/// on the sockets. The ghost fields record the full history of the run:
/// every job ever submitted, every scrape request issued, and every
/// artifact handed out for persistence, so that the queueing and
/// acknowledgment laws below are invariants of `wf`.
pub struct Coordinator {
    pending: Vec<ScrapeJob>,
    active: Option<ScrapeJob>,
    initialized: bool,
    scrape_sent: bool,
    awaiting_payload: bool,
    last_status: Option<u16>,
    submitted: Ghost<Seq<JobView>>,
    scraped: Ghost<Seq<JobView>>,
    hdrs: Ghost<Seq<(u16, Seq<char>)>>,
    contents: Ghost<Seq<Seq<u8>>>,
    completed: Ghost<nat>,
}

impl Coordinator {
    /// Every job ever submitted, in submission order.
    pub closed spec fn submitted_jobs(self) -> Seq<JobView> {
        self.submitted@
    }

    /// The jobs for which a scrape request has been issued, in order.
    pub closed spec fn scraped_jobs(self) -> Seq<JobView> {
        self.scraped@
    }

    /// Per job, in job order: the status and header block handed out for
    /// persistence.
    pub closed spec fn persisted_headers(self) -> Seq<(u16, Seq<char>)> {
        self.hdrs@
    }

    /// Per job, in job order: the binary payload handed out for
    /// persistence.
    pub closed spec fn persisted_contents(self) -> Seq<Seq<u8>> {
        self.contents@
    }

    /// How many completion signals have been fired.
    pub closed spec fn completions(self) -> nat {
        self.completed@
    }

    /// The jobs still queued, oldest first.
    pub closed spec fn pending_views(self) -> Seq<JobView> {
        self.pending@.map_values(|j: ScrapeJob| j@)
    }

    /// The job currently being serviced.
    pub closed spec fn active_job(self) -> Option<JobView> {
        match self.active {
            Some(j) => Some(j@),
            None => None,
        }
    }

    /// How many jobs have been dequeued so far.
    pub closed spec fn taken(self) -> nat {
        (self.submitted@.len() - self.pending@.len()) as nat
    }

    /// Whether the agent has completed its `init` handshake.
    pub closed spec fn is_initialized(self) -> bool {
        self.initialized
    }

    /// Whether the scrape request for the active job has been issued.
    pub closed spec fn has_sent_scrape(self) -> bool {
        self.scrape_sent
    }

    /// Whether the next frame from the agent must be the binary payload.
    pub closed spec fn is_awaiting_payload(self) -> bool {
        self.awaiting_payload
    }

    /// The status most recently received for the active job.
    pub closed spec fn last_status_of(self) -> Option<u16> {
        self.last_status
    }

    /// The coordinator's invariant.
    pub closed spec fn wf(self) -> bool {
        &&& self.pending@.len() <= self.submitted@.len()
        &&& self.pending_views() == self.submitted@.skip(self.taken() as int)
        &&& self.completed@ == self.contents@.len()
        &&& self.taken() == self.completed@ + (if self.active is Some {
            1nat
        } else {
            0nat
        })
        &&& (self.active matches Some(j) ==> j@ == self.submitted@[self.taken() - 1])
        &&& (self.active is None ==> !self.awaiting_payload && !self.scrape_sent
            && self.last_status is None)
        &&& self.scraped@ == self.submitted@.take(self.scraped@.len() as int)
        &&& (self.scrape_sent ==> self.scraped@.len() == self.completed@ + 1)
        &&& (!self.scrape_sent ==> self.scraped@.len() == self.completed@)
        &&& self.hdrs@.len() == self.completed@ + (if self.awaiting_payload {
            1nat
        } else {
            0nat
        })
        &&& (self.awaiting_payload ==> self.active is Some && self.scrape_sent)
        &&& (self.awaiting_payload <==> self.last_status is Some)
        &&& (self.last_status matches Some(s) ==> self.hdrs@.len() > 0 && self.hdrs@.last().0 == s)
        &&& (self.scrape_sent ==> self.initialized && self.active is Some)
    }

    /// A fresh coordinator: nothing submitted, no agent session.
    pub fn new() -> (c: Coordinator)
        ensures
            c.wf(),
            c.submitted_jobs() == Seq::<JobView>::empty(),
            c.scraped_jobs() == Seq::<JobView>::empty(),
            c.persisted_headers() == Seq::<(u16, Seq<char>)>::empty(),
            c.persisted_contents() == Seq::<Seq<u8>>::empty(),
            c.completions() == 0,
            c.active_job() is None,
            c.pending_views() == Seq::<JobView>::empty(),
            !c.is_initialized(),
    {
        let c = Coordinator {
            pending: Vec::new(),
            active: None,
            initialized: false,
            scrape_sent: false,
            awaiting_payload: false,
            last_status: None,
            submitted: Ghost(Seq::empty()),
            scraped: Ghost(Seq::empty()),
            hdrs: Ghost(Seq::empty()),
            contents: Ghost(Seq::empty()),
            completed: Ghost(0nat),
        };
        proof {
            assert(c.pending_views() =~= Seq::<JobView>::empty());
            assert(c.scraped@ =~= c.submitted@.take(0));
        }
        c
    }

    /// Whether a job is currently being serviced.
    pub fn has_active(&self) -> (r: bool)
        ensures
            r == (self.active_job() is Some),
    {
        self.active.is_some()
    }

    /// How many jobs are queued and not yet dequeued.
    pub fn pending_count(&self) -> (r: usize)
        ensures
            r == self.pending_views().len(),
    {
        self.pending.len()
    }

    /// Whether the next agent frame must be binary.
    pub fn expects_binary(&self) -> (r: bool)
        ensures
            r == self.is_awaiting_payload(),
    {
        self.awaiting_payload
    }

    /// Queue one job. The queue is unbounded; the submitter is never
    /// blocked by agent throughput.
    pub fn submit(&mut self, job: ScrapeJob)
        requires
            old(self).wf(),
        ensures
            final(self).wf(),
            final(self).submitted_jobs() == old(self).submitted_jobs().push(job@),
            final(self).pending_views() == old(self).pending_views().push(job@),
            final(self).scraped_jobs() == old(self).scraped_jobs(),
            final(self).persisted_headers() == old(self).persisted_headers(),
            final(self).persisted_contents() == old(self).persisted_contents(),
            final(self).completions() == old(self).completions(),
            final(self).active_job() == old(self).active_job(),
            final(self).is_awaiting_payload() == old(self).is_awaiting_payload(),
            final(self).is_initialized() == old(self).is_initialized(),
            final(self).has_sent_scrape() == old(self).has_sent_scrape(),
            final(self).last_status_of() == old(self).last_status_of(),
    {
        self.pending.push(job);
        proof {
            self.submitted@ = self.submitted@.push(job@);
        }
        proof {
            let f = |j: ScrapeJob| j@;
            assert(self.pending@.map_values(f) =~= old(self).pending@.map_values(f).push(job@));
            assert(self.pending_views() =~= self.submitted@.skip(self.taken() as int));
            assert(self.scraped@ =~= self.submitted@.take(self.scraped@.len() as int));
        }
    }

    /// Dequeue the oldest job and make it active. For every job after the
    /// agent's handshake, the scrape request is issued right away; the very
    /// first job waits for the agent's `init`.
    pub fn next_job(&mut self) -> (r: Option<ServerOp>)
        requires
            old(self).wf(),
            old(self).active_job() is None,
            old(self).pending_views().len() > 0,
        ensures
            final(self).wf(),
            final(self).submitted_jobs() == old(self).submitted_jobs(),
            final(self).persisted_headers() == old(self).persisted_headers(),
            final(self).persisted_contents() == old(self).persisted_contents(),
            final(self).completions() == old(self).completions(),
            final(self).pending_views() == old(self).pending_views().drop_first(),
            final(self).active_job() == Some(old(self).pending_views()[0]),
            !final(self).is_awaiting_payload(),
            final(self).is_initialized() == old(self).is_initialized(),
            final(self).has_sent_scrape() == old(self).is_initialized(),
            old(self).is_initialized() ==> ({
                &&& final(self).scraped_jobs() == old(self).scraped_jobs().push(
                    old(self).pending_views()[0],
                )
                &&& (r matches Some(op) && op matches ServerOp::Scrape { url, referer }
                    && url@ == old(self).pending_views()[0].url
                    && referer@ == old(self).pending_views()[0].referer)
            }),
            !old(self).is_initialized() ==> r is None && final(self).scraped_jobs() == old(
                self,
            ).scraped_jobs(),
    {
        let job = self.pending.remove(0);
        let ghost oldself = *old(self);
        proof {
            let f = |j: ScrapeJob| j@;
            assert(self.pending@.map_values(f) =~= oldself.pending@.map_values(f).drop_first());
            assert(oldself.pending@.map_values(f)[0] == job@);
        }
        let r: Option<ServerOp>;
        if self.initialized {
            let op = ServerOp::Scrape { url: job.url.clone(), referer: job.referer.clone() };
            self.scrape_sent = true;
            proof {
                self.scraped@ = self.scraped@.push(job@);
            }
            r = Some(op);
        } else {
            r = None;
        }
        self.active = Some(job);
        proof {
            assert(self.taken() == oldself.taken() + 1);
            assert(self.pending_views() =~= self.submitted@.skip(self.taken() as int));
            if oldself.initialized {
                assert(oldself.pending_views()[0] == oldself.submitted@[oldself.taken() as int]);
                assert(self.scraped@ =~= self.submitted@.take(self.scraped@.len() as int));
            }
        }
        r
    }

    /// Handle one text frame from the agent.
    ///
    /// A text frame while the binary payload is due is a framing violation.
    /// Otherwise the frame is parsed: `init` completes the handshake and,
    /// if the active job's scrape request is still unsent, issues it (a
    /// repeated `init` is idempotent); `content` carries
    /// `<statusDecimal>\0<headerBlock>` for the active job, whose artifacts
    /// are handed out for persistence. A `content` frame before the active
    /// job's scrape request was issued is a protocol violation. Every error
    /// leaves the coordinator unchanged; the session treats it as fatal.
    pub fn on_text_message(&mut self, raw: &str) -> (r: ScrapeResult<Vec<Action>>)
        requires
            old(self).wf(),
            old(self).active_job() is Some,
        ensures
            final(self).wf(),
            final(self).submitted_jobs() == old(self).submitted_jobs(),
            final(self).pending_views() == old(self).pending_views(),
            final(self).active_job() == old(self).active_job(),
            final(self).completions() == old(self).completions(),
            final(self).persisted_contents() == old(self).persisted_contents(),
            r is Err ==> *final(self) == *old(self),
            // a text frame while the binary payload is due
            old(self).is_awaiting_payload() ==> (r matches Err(e) && (
            e matches ScrapeError::ContentNotText { raw: b } && b@ == raw.spec_bytes())),
            // init: handshake, and the first scrape request for the active job
            forall|page: Seq<char>|
                (!old(self).is_awaiting_payload() && raw@ == init_prefix() + page) ==> ({
                    &&& final(self).is_initialized()
                    &&& !final(self).is_awaiting_payload()
                    &&& final(self).persisted_headers() == old(self).persisted_headers()
                    &&& if old(self).has_sent_scrape() {
                        &&& r matches Ok(acts) && acts@.len() == 0
                        &&& final(self).scraped_jobs() == old(self).scraped_jobs()
                    } else {
                        &&& final(self).scraped_jobs() == old(self).scraped_jobs().push(
                            old(self).active_job()->Some_0,
                        )
                        &&& final(self).has_sent_scrape()
                        &&& (r matches Ok(acts) && acts@.len() == 1 && (
                        acts@[0] matches Action::SendScrape { url, referer }
                            && url@ == old(self).active_job()->Some_0.url
                            && referer@ == old(self).active_job()->Some_0.referer))
                    }
                }),
            // content: split the first field off, parse the status, hand out
            // the two header artifacts
            forall|st: Seq<char>, hd: Seq<char>|
                (!old(self).is_awaiting_payload() && old(self).has_sent_scrape()
                    && raw@ == content_prefix() + st + seq!['\0'] + hd && !st.contains('\0'))
                    ==> ({
                    &&& if st.len() > 0 && all_digits(st) && decimal_val(st) <= 0xffff {
                        &&& (r matches Ok(acts) && acts@.len() == 2 && (
                        acts@[0] matches Action::WriteHeaders { path, text } && path@ == old(
                            self,
                        ).active_job()->Some_0.output + seq!['.', 'h', 'e', 'a', 'd', 'e', 'r', 's', '.', 'r', 'e', 's', 'p', 'o', 'n', 's', 'e']
                            && text@ == hd) && (
                        acts@[1] matches Action::WriteStatus { path, text } && path@ == old(
                            self,
                        ).active_job()->Some_0.output + seq!['.', 's', 't', 'a', 't', 'u', 's']
                            && text@ == decimal_chars(decimal_val(st))))
                        &&& final(self).is_awaiting_payload()
                        &&& final(self).last_status_of() == Some(decimal_val(st) as u16)
                        &&& final(self).persisted_headers() == old(self).persisted_headers().push(
                            ((decimal_val(st) as u16), hd),
                        )
                        &&& final(self).scraped_jobs() == old(self).scraped_jobs()
                    } else {
                        r matches Err(e) && (e matches ScrapeError::InvalidStatus { raw_str }
                            && raw_str@ == st + seq!['\0'] + hd)
                    }
                }),
            // a content frame whose data has no separator between status
            // and header block
            forall|data: Seq<char>|
                (!old(self).is_awaiting_payload() && old(self).has_sent_scrape()
                    && raw@ == content_prefix() + data && !data.contains('\0')) ==> (
                r matches Err(e) && (e matches ScrapeError::SplitFailed { content, separator }
                    && content@ == data && separator == '\0')),
            // a content frame before the active job's scrape request
            forall|data: Seq<char>|
                (!old(self).is_awaiting_payload() && !old(self).has_sent_scrape()
                    && raw@ == content_prefix() + data) ==> (r matches Err(e) && (
                e matches ScrapeError::MessageDecode { raw: r2 } && r2@ == raw@)),
            // no field separator at all
            (!old(self).is_awaiting_payload() && !raw@.contains('\0')) ==> (r matches Err(e) && (
            e matches ScrapeError::SplitFailed { content, separator } && content@ == raw@
                && separator == '\0')),
            // an unknown op tag
            (!old(self).is_awaiting_payload() && raw@.contains('\0') && (forall|page: Seq<char>|
                raw@ != init_prefix() + page) && (forall|data: Seq<char>|
                raw@ != content_prefix() + data)) ==> (r matches Err(e) && (
            e matches ScrapeError::MessageDecode { raw: r2 } && r2@ == raw@)),
    {
        if self.awaiting_payload {
            return Err(ScrapeError::ContentNotText { raw: raw.as_bytes_vec() });
        }
        let parsed = ClientOp::parse(raw);
        match parsed {
            Err(e) => {
                proof {
                    match e {
                        ScrapeError::SplitFailed { .. } => {
                            assert forall|page: Seq<char>| raw@ != init_prefix() + page by {
                                if raw@ == init_prefix() + page {
                                    assert(raw@.len() == 5 + page.len());
                                    assert(raw@[4] == '\0');
                                    assert(raw@.contains('\0'));
                                }
                            }
                            assert forall|data: Seq<char>| raw@ != content_prefix() + data by {
                                if raw@ == content_prefix() + data {
                                    assert(raw@.len() == 8 + data.len());
                                    assert(raw@[7] == '\0');
                                    assert(raw@.contains('\0'));
                                }
                            }
                            assert forall|st: Seq<char>, hd: Seq<char>|
                                raw@ != content_prefix() + st + seq!['\0'] + hd by {
                                if raw@ == content_prefix() + st + seq!['\0'] + hd {
                                    assert(raw@.len() == 8 + st.len() + 1 + hd.len());
                                    assert(raw@[7] == '\0');
                                    assert(raw@.contains('\0'));
                                }
                            }
                        },
                        ScrapeError::MessageDecode { .. } => {
                            assert forall|st: Seq<char>, hd: Seq<char>|
                                raw@ != content_prefix() + st + seq!['\0'] + hd by {
                                if raw@ == content_prefix() + st + seq!['\0'] + hd {
                                    assert(content_prefix() + st + seq!['\0'] + hd
                                        =~= content_prefix() + (st + seq!['\0'] + hd));
                                    assert(raw@ == content_prefix() + (st + seq!['\0'] + hd));
                                }
                            }
                        },
                        _ => {
                            assert(false);
                        },
                    }
                }
                Err(e)
            },
            Ok(op) => {
                match op {
                    ClientOp::Init { current_page } => {
                        proof {
                            lemma_init_not_content(raw@, current_page@);
                            assert(raw@.len() == 5 + current_page@.len());
                            assert(raw@[4] == '\0');
                            assert(raw@.contains('\0'));
                        }
                        let _ = current_page;
                        self.initialized = true;
                        if self.scrape_sent {
                            Ok(Vec::new())
                        } else {
                            let job = self.active.as_ref().unwrap();
                            let op = ServerOp::Scrape {
                                url: job.url.clone(),
                                referer: job.referer.clone(),
                            };
                            self.scrape_sent = true;
                            proof {
                                self.scraped@ = self.scraped@.push(
                                    self.active_job()->Some_0,
                                );
                            }
                            let mut acts: Vec<Action> = Vec::new();
                            match op {
                                ServerOp::Scrape { url, referer } => {
                                    acts.push(Action::SendScrape { url, referer });
                                },
                                ServerOp::Debug { .. } => {},
                            }
                            proof {
                                assert(self.scraped@ =~= self.submitted@.take(
                                    self.scraped@.len() as int,
                                ));
                            }
                            Ok(acts)
                        }
                    },
                    ClientOp::Content { headers_raw } => {
                        proof {
                            lemma_content_not_init(raw@, headers_raw@);
                            assert(raw@.len() == 8 + headers_raw@.len());
                            assert(raw@[7] == '\0');
                            assert(raw@.contains('\0'));
                            lemma_content_data_unique(raw@, headers_raw@);
                        }
                        if !self.scrape_sent {
                            return Err(ScrapeError::MessageDecode { raw: raw.to_owned() });
                        }
                        let sp = crate::utils::split_once(headers_raw.as_str(), '\0');
                        let (status_str, headers) = match sp {
                            Ok(p) => p,
                            Err(_) => {
                                proof {
                                    assert forall|st: Seq<char>, hd: Seq<char>|
                                        raw@ != content_prefix() + st + seq!['\0'] + hd by {
                                        if raw@ == content_prefix() + st + seq!['\0'] + hd {
                                            assert(content_prefix() + st + seq!['\0'] + hd
                                                =~= content_prefix() + (st + seq!['\0'] + hd));
                                            assert(headers_raw@ == st + seq!['\0'] + hd);
                                            assert(headers_raw@[st.len() as int] == '\0');
                                            assert(headers_raw@.contains('\0'));
                                        }
                                    }
                                }
                                return Err(
                                    ScrapeError::SplitFailed {
                                        content: headers_raw,
                                        separator: '\0',
                                    },
                                );
                            },
                        };
                        proof {
                            lemma_first_split_unique(headers_raw@, '\0', status_str@, headers@);
                            assert(headers_raw@.contains('\0')) by {
                                assert(headers_raw@.len() == status_str@.len() + 1 + headers@.len());
                                assert(headers_raw@[status_str@.len() as int] == '\0');
                            }
                            assert forall|st: Seq<char>, hd: Seq<char>|
                                (raw@ == content_prefix() + st + seq!['\0'] + hd && !st.contains(
                                    '\0',
                                )) implies (st == status_str@ && hd == headers@) by {
                                assert(content_prefix() + st + seq!['\0'] + hd =~= content_prefix()
                                    + (st + seq!['\0'] + hd));
                                assert(headers_raw@ == st + seq!['\0'] + hd);
                            }
                        }
                        let status = match crate::utils::parse_u16(status_str) {
                            Some(v) => v,
                            None => {
                                return Err(ScrapeError::InvalidStatus { raw_str: headers_raw });
                            },
                        };
                        let job = self.active.as_ref().unwrap();
                        let hpath = job.headers_path();
                        let spath = job.status_path();
                        let stext = crate::utils::u64_to_decimal(status as u64);
                        let htext = headers.to_owned();
                        self.awaiting_payload = true;
                        self.last_status = Some(status);
                        proof {
                            self.hdrs@ = self.hdrs@.push((status, htext@));
                        }
                        let mut acts: Vec<Action> = Vec::new();
                        acts.push(Action::WriteHeaders { path: hpath, text: htext });
                        acts.push(Action::WriteStatus { path: spath, text: stext });
                        proof {
                            assert(self.scraped@ =~= self.submitted@.take(
                                self.scraped@.len() as int,
                            ));
                        }
                        Ok(acts)
                    },
                }
            },
        }
    }

    /// Handle one binary frame from the agent: the payload of the active
    /// job. The content artifact is handed out for persistence first, then
    /// the job's completion signal is fired, then the caller throttles.
    /// A binary frame at any other time is a framing violation that leaves
    /// the coordinator unchanged.
    pub fn on_binary(&mut self, content: Vec<u8>) -> (r: ScrapeResult<Vec<Action>>)
        requires
            old(self).wf(),
            old(self).active_job() is Some,
        ensures
            final(self).wf(),
            final(self).submitted_jobs() == old(self).submitted_jobs(),
            final(self).pending_views() == old(self).pending_views(),
            final(self).scraped_jobs() == old(self).scraped_jobs(),
            final(self).persisted_headers() == old(self).persisted_headers(),
            final(self).is_initialized() == old(self).is_initialized(),
            !old(self).is_awaiting_payload() ==> (*final(self) == *old(self) && (
            r matches Err(e) && (e matches ScrapeError::ContentNotText { raw } && raw@
                == content@))),
            old(self).is_awaiting_payload() ==> ({
                &&& (r matches Ok(acts) && acts@.len() == 3 && (
                acts@[0] matches Action::WriteContent { path, content: c2 } && path@ == old(
                    self,
                ).active_job()->Some_0.output && c2@ == content@) && acts@[1]
                    == Action::FireCompletion && acts@[2] == Action::Throttle)
                &&& final(self).persisted_contents() == old(self).persisted_contents().push(
                    content@,
                )
                &&& final(self).completions() == old(self).completions() + 1
                &&& final(self).active_job() is None
                &&& !final(self).is_awaiting_payload()
            }),
    {
        if !self.awaiting_payload {
            return Err(ScrapeError::ContentNotText { raw: content });
        }
        let job = match self.active.take() {
            Some(j) => j,
            None => {
                proof {
                    assert(false);
                }
                return Err(ScrapeError::ContentNotText { raw: content });
            },
        };
        self.awaiting_payload = false;
        self.scrape_sent = false;
        self.last_status = None;
        proof {
            self.contents@ = self.contents@.push(content@);
            self.completed@ = self.completed@ + 1;
        }
        let mut acts: Vec<Action> = Vec::new();
        let path = job.output;
        acts.push(Action::WriteContent { path, content });
        acts.push(Action::FireCompletion);
        acts.push(Action::Throttle);
        proof {
            assert(self.scraped@ =~= self.submitted@.take(self.scraped@.len() as int));
        }
        Ok(acts)
    }
}

/// An init message is never a content message.
proof fn lemma_init_not_content(raw: Seq<char>, page: Seq<char>)
    requires
        raw == init_prefix() + page,
    ensures
        forall|data: Seq<char>| raw != content_prefix() + data,
        forall|st: Seq<char>, hd: Seq<char>| raw != content_prefix() + st + seq!['\0'] + hd,
{
    assert(raw[0] == 'i');
    assert forall|data: Seq<char>| raw != content_prefix() + data by {
        if raw == content_prefix() + data {
            assert(raw[0] == 'c');
        }
    }
    assert forall|st: Seq<char>, hd: Seq<char>| raw != content_prefix() + st + seq!['\0'] + hd by {
        if raw == content_prefix() + st + seq!['\0'] + hd {
            assert(raw[0] == 'c');
        }
    }
}

/// A content message is never an init message.
proof fn lemma_content_not_init(raw: Seq<char>, data: Seq<char>)
    requires
        raw == content_prefix() + data,
    ensures
        forall|page: Seq<char>| raw != init_prefix() + page,
{
    assert(raw[0] == 'c');
    assert forall|page: Seq<char>| raw != init_prefix() + page by {
        if raw == init_prefix() + page {
            assert(raw[0] == 'i');
        }
    }
}

/// The data of a content message is determined by the whole message.
proof fn lemma_content_data_unique(raw: Seq<char>, data: Seq<char>)
    requires
        raw == content_prefix() + data,
    ensures
        forall|d2: Seq<char>| raw == content_prefix() + d2 ==> d2 == data,
{
    assert forall|d2: Seq<char>| raw == content_prefix() + d2 implies d2 == data by {
        assert(content_prefix().len() == 8);
        assert((content_prefix() + d2).len() == 8 + d2.len());
        assert((content_prefix() + data).len() == 8 + data.len());
        assert(d2.len() == data.len());
        assert forall|i: int| 0 <= i < data.len() implies d2[i] == data[i] by {
            assert(d2[i] == (content_prefix() + d2)[8 + i]);
            assert(data[i] == (content_prefix() + data)[8 + i]);
        }
        assert(d2 =~= data);
    }
}

/// Splitting at the first separator is unambiguous: there is only one way
/// to write a sequence as a separator-free part, the separator, and a
/// remainder.
proof fn lemma_first_split_unique(
    x: Seq<char>,
    sep: char,
    a: Seq<char>,
    b: Seq<char>,
)
    requires
        x == a + seq![sep] + b,
        !a.contains(sep),
    ensures
        forall|c: Seq<char>, d: Seq<char>|
            (x == c + seq![sep] + d && !c.contains(sep)) ==> (c == a && d == b),
{
    assert forall|c: Seq<char>, d: Seq<char>|
        (x == c + seq![sep] + d && !c.contains(sep)) implies (c == a && d == b) by {
        if a.len() < c.len() {
            assert(x[a.len() as int] == sep);
            assert(x[a.len() as int] == c[a.len() as int]);
            assert(c.contains(sep)) by {
                assert(c[a.len() as int] == sep);
            }
            assert(false);
        }
        if c.len() < a.len() {
            assert(x[c.len() as int] == sep);
            assert(x[c.len() as int] == a[c.len() as int]);
            assert(a.contains(sep)) by {
                assert(a[c.len() as int] == sep);
            }
            assert(false);
        }
        assert((a + seq![sep] + b).len() == a.len() + 1 + b.len());
        assert((c + seq![sep] + d).len() == c.len() + 1 + d.len());
        assert(c.len() == a.len());
        assert forall|i: int| 0 <= i < a.len() implies c[i] == a[i] by {
            assert(c[i] == x[i]);
            assert(a[i] == x[i]);
        }
        assert(c =~= a);
        assert(d.len() == b.len());
        assert forall|i: int| 0 <= i < b.len() implies d[i] == b[i] by {
            assert(d[i] == x[a.len() + 1 + i]);
            assert(b[i] == x[a.len() + 1 + i]);
        }
        assert(d =~= b);
    }
}

/// Decide one control message: a job submission is queued, a terminate
/// closes the control connection and leaves the queue untouched, anything
/// else is a decode error that also leaves the coordinator unchanged.
pub fn intake_step(coord: &mut Coordinator, msg: &str) -> (r: ScrapeResult<IntakeReaction>)
    requires
        old(coord).wf(),
    ensures
        final(coord).wf(),
        match r {
            Ok(IntakeReaction::Submitted) => {
                &&& final(coord).submitted_jobs().len() == old(coord).submitted_jobs().len() + 1
                &&& final(coord).submitted_jobs() == old(coord).submitted_jobs().push(
                    final(coord).submitted_jobs().last(),
                )
                &&& msg@ == encode_comms_op(CommsOpView::Job(final(coord).submitted_jobs().last()))
                &&& final(coord).pending_views() == old(coord).pending_views().push(
                    final(coord).submitted_jobs().last(),
                )
                &&& final(coord).scraped_jobs() == old(coord).scraped_jobs()
                &&& final(coord).completions() == old(coord).completions()
                &&& final(coord).persisted_headers() == old(coord).persisted_headers()
                &&& final(coord).persisted_contents() == old(coord).persisted_contents()
                &&& final(coord).active_job() == old(coord).active_job()
            },
            Ok(IntakeReaction::Closed) => {
                &&& msg@ == terminate_msg()
                &&& *final(coord) == *old(coord)
            },
            Err(e) => {
                &&& *final(coord) == *old(coord)
                &&& (e matches ScrapeError::MessageDecode { raw } && raw@ == msg@)
                &&& forall|ov: CommsOpView| msg@ != encode_comms_op(ov)
            },
        },
{
    match crate::comms::decode_control(msg) {
        Ok(CommsOp::Job(job)) => {
            coord.submit(job);
            Ok(IntakeReaction::Submitted)
        },
        Ok(CommsOp::Terminate) => Ok(IntakeReaction::Closed),
        Err(e) => Err(e),
    }
}

/// FIFO: the scrape requests issued so far address exactly the first
/// submitted jobs, in submission order — jobs are never reordered,
/// skipped, or invented, whichever control connections they came from.
pub proof fn lemma_fifo(c: Coordinator)
    requires
        c.wf(),
    ensures
        c.scraped_jobs() == c.submitted_jobs().take(c.scraped_jobs().len() as int),
        c.scraped_jobs().len() <= c.submitted_jobs().len(),
{
}

/// At most one job in flight: the coordinator never issues a second
/// scrape request before the binary payload of the previous job has been
/// received and handed out for persistence.
pub proof fn lemma_at_most_one_in_flight(c: Coordinator)
    requires
        c.wf(),
    ensures
        c.scraped_jobs().len() <= c.persisted_contents().len() + 1,
{
}

/// Ack after persist: every completion signal fired so far belongs to a
/// job whose status, header block and binary content had already been
/// handed out for persistence (and `on_binary` orders the content write
/// before the completion signal within its returned actions).
pub proof fn lemma_ack_after_persist(c: Coordinator)
    requires
        c.wf(),
    ensures
        c.completions() == c.persisted_contents().len(),
        c.completions() <= c.persisted_headers().len(),
{
}

} // verus!
