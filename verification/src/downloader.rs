//! The decision logic of the two-stage download.
//!
//! A download first resolves the bootstrap "status" document — from the
//! in-memory cache, from the cache file, or from the network — then
//! selects the first listed feed URL and fetches the feed from it.  The
//! decisions live here, verified; the I/O lives with the caller, which
//! performs each requested [`Step`] and reports its outcome as an
//! [`Event`].  The transition relation [`step_sig`] pins every decision
//! down, and the proof functions at the end state the pipeline's laws.

use vstd::pervasive::unreached;
use vstd::prelude::*;
use vstd::string::StringExecFns;
use crate::codec::decode_status;
use crate::codec::enc_status;
use crate::codec::encode_status;
use crate::data::Datafeed;
use crate::data::Status;
use crate::data::StatusModel;

verus! {

/// Where the resolver keeps the bootstrap document between uses.
#[derive(Debug)]
pub enum StatusStorage {
    /// Kept in this process's memory for the life of the downloader;
    /// absent until the first successful fetch, then never refetched.
    Memory(Option<Status>),
    /// Persisted in a file at the given path, read anew at the start of
    /// every download and never proactively invalidated.
    TempFile(String),
}

/// A failure of an HTTP exchange: a timeout, a refused connection, or a
/// body that did not decode.  Carries the transport's own description.
#[derive(Debug)]
pub struct TransportError {
    pub message: String,
}

/// A failure to write the bootstrap document to its cache file.
#[derive(Debug)]
pub struct PersistError {
    pub message: String,
}

/// What a download can fail with; each variant names the stage at fault,
/// and no stage relabels another stage's failure.
#[derive(Debug)]
pub enum DatafeedError {
    /// The resolved status document lists no feed URL.
    NoUrlError,
    /// The bootstrap fetch failed.
    StatusHttpError(TransportError),
    /// The feed fetch failed, or its body did not parse.
    DatafeedHttpError(TransportError),
    /// The bootstrap document was obtained but could not be cached.
    StatusWriteError(PersistError),
}

/// The two-stage feed downloader: configuration and cache state.
#[derive(Debug)]
pub struct Downloader {
    pub status: StatusStorage,
    pub timeout_secs: u64,
}

/// One download in progress: what the pipeline waits for.
#[derive(Debug)]
pub enum Phase {
    /// Waiting for the cache file to be read.
    AwaitFileRead,
    /// Waiting for the bootstrap document to be fetched.
    AwaitStatusFetch,
    /// Waiting for the cache file to be written; the freshly fetched
    /// document rides along.
    AwaitFileWrite(Status),
    /// Waiting for the feed to be fetched.
    AwaitFeedFetch,
    /// The download has finished, in success or failure.
    Terminal,
}

/// What the caller must do next.
#[derive(Debug)]
pub enum Step {
    /// Read the whole cache file at the given path and report
    /// [`Event::FileRead`].
    ReadStatusFile(String),
    /// Fetch and decode the bootstrap document from [`status_url`],
    /// within [`Downloader::timeout_secs`], and report
    /// [`Event::StatusFetched`].
    FetchStatus,
    /// Write the given text to the cache file at the given path and
    /// report [`Event::FileWritten`].
    WriteStatusFile(String, String),
    /// Fetch and decode the feed from the given URL, within
    /// [`Downloader::timeout_secs`], and report [`Event::FeedFetched`].
    FetchFeed(String),
    /// The download failed with the given error.
    Fail(DatafeedError),
    /// The download succeeded with the given feed document.
    Finish(Datafeed),
}

/// What came of the step the caller performed.
#[derive(Debug)]
pub enum Event {
    /// The cache file's text, or `None` if it could not be read.
    FileRead(Option<String>),
    /// The fetched bootstrap document, or the transport failure.
    StatusFetched(Result<Status, TransportError>),
    /// Whether the cache file was written.
    FileWritten(Result<(), PersistError>),
    /// The fetched feed document, or the transport failure.
    FeedFetched(Result<Datafeed, TransportError>),
}

/// The bootstrap document's fixed, well-known URL.
pub open spec fn spec_status_url() -> Seq<char> {
    "https://status.vatsim.net/status.json"@
}

/// The bootstrap document's fixed, well-known URL.
pub fn status_url() -> (r: String)
    ensures
        r@ == spec_status_url(),
{
    String::from_str("https://status.vatsim.net/status.json")
}

/// Which events answer which phases: the caller reports the outcome of
/// the step it was asked to perform, and nothing else.
pub open spec fn phase_accepts(phase: Phase, ev: Event) -> bool {
    match (phase, ev) {
        (Phase::AwaitFileRead, Event::FileRead(_)) => true,
        (Phase::AwaitStatusFetch, Event::StatusFetched(_)) => true,
        (Phase::AwaitFileWrite(_), Event::FileWritten(_)) => true,
        (Phase::AwaitFeedFetch, Event::FeedFetched(_)) => true,
        _ => false,
    }
}

/// Endpoint selection from a resolved document: deterministically the
/// first entry of `data.v3`, or `NoUrlError` when the list is empty, in
/// which case the download is terminal and no feed step is requested.
pub open spec fn select_sig(m: StatusModel, phase: Phase, step: Step) -> bool {
    if m.v3.len() == 0 {
        phase == Phase::Terminal && step == Step::Fail(DatafeedError::NoUrlError)
    } else {
        phase == Phase::AwaitFeedFetch && (step matches Step::FetchFeed(u) && u@ == m.v3[0])
    }
}

/// What [`Downloader::begin`] emits: selection straight from the cache
/// when a document is already in memory, else the read or fetch that the
/// configured strategy calls for.
pub open spec fn begin_sig(d: Downloader, phase: Phase, step: Step) -> bool {
    match d.status {
        StatusStorage::Memory(cache) => match cache {
            Option::Some(s) => select_sig(s.model(), phase, step),
            Option::None => phase == Phase::AwaitStatusFetch && step == Step::FetchStatus,
        },
        StatusStorage::TempFile(path) => phase == Phase::AwaitFileRead && step
            == Step::ReadStatusFile(path),
    }
}

/// The transition relation of one download: how each phase and the event
/// that answers it become the next phase and step, and what happens to
/// the resolver's cache.
pub open spec fn step_sig(
    pre: Downloader,
    phase: Phase,
    ev: Event,
    post: Downloader,
    phase2: Phase,
    step: Step,
) -> bool {
    match (phase, ev) {
        (Phase::AwaitFileRead, Event::FileRead(content)) => post == pre && match content {
            Option::Some(c) => {
                &&& (forall|m: StatusModel| c@ == enc_status(m) ==> select_sig(m, phase2, step))
                &&& ((forall|m: StatusModel| c@ != enc_status(m)) ==> phase2
                    == Phase::AwaitStatusFetch && step == Step::FetchStatus)
            },
            Option::None => phase2 == Phase::AwaitStatusFetch && step == Step::FetchStatus,
        },
        (Phase::AwaitStatusFetch, Event::StatusFetched(res)) => match res {
            Result::Ok(s) => match pre.status {
                StatusStorage::Memory(_) => {
                    &&& post == Downloader {
                        status: StatusStorage::Memory(Option::Some(s)),
                        timeout_secs: pre.timeout_secs,
                    }
                    &&& select_sig(s.model(), phase2, step)
                },
                StatusStorage::TempFile(path) => {
                    &&& post == pre
                    &&& phase2 == Phase::AwaitFileWrite(s)
                    &&& (step matches Step::WriteStatusFile(p, c) && p == path && c@ == enc_status(
                        s.model(),
                    ))
                },
            },
            Result::Err(e) => post == pre && phase2 == Phase::Terminal && step == Step::Fail(
                DatafeedError::StatusHttpError(e),
            ),
        },
        (Phase::AwaitFileWrite(s), Event::FileWritten(res)) => post == pre && match res {
            Result::Ok(_) => select_sig(s.model(), phase2, step),
            Result::Err(e) => phase2 == Phase::Terminal && step == Step::Fail(
                DatafeedError::StatusWriteError(e),
            ),
        },
        (Phase::AwaitFeedFetch, Event::FeedFetched(res)) => post == pre && match res {
            Result::Ok(f) => phase2 == Phase::Terminal && step == Step::Finish(f),
            Result::Err(e) => phase2 == Phase::Terminal && step == Step::Fail(
                DatafeedError::DatafeedHttpError(e),
            ),
        },
        _ => false,
    }
}

/// Endpoint selection on a borrowed document.
fn select_from(s: &Status) -> (r: (Phase, Step))
    ensures
        select_sig(s.model(), r.0, r.1),
{
    proof {
        assert(s.model().v3.len() == s.data.v3@.len());
        if s.data.v3@.len() > 0 {
            assert(s.model().v3[0] == s.data.v3@[0]@);
        }
    }
    if s.data.v3.len() == 0 {
        (Phase::Terminal, Step::Fail(DatafeedError::NoUrlError))
    } else {
        (Phase::AwaitFeedFetch, Step::FetchFeed(s.data.v3[0].clone()))
    }
}

impl Downloader {
    /// A downloader that keeps the bootstrap document in memory, with
    /// the standard 15-second request timeout.
    pub fn new() -> (r: Downloader)
        ensures
            r.status == StatusStorage::Memory(Option::<Status>::None),
            r.timeout_secs == 15,
    {
        Downloader { status: StatusStorage::Memory(Option::None), timeout_secs: 15 }
    }

    /// A downloader that persists the bootstrap document in the file at
    /// `path`, with the standard 15-second request timeout.
    pub fn with_status_file(path: String) -> (r: Downloader)
        ensures
            r.status == StatusStorage::TempFile(path),
            r.timeout_secs == 15,
    {
        Downloader { status: StatusStorage::TempFile(path), timeout_secs: 15 }
    }

    /// Starts one download: the phase now awaited, and the step the
    /// caller must perform.
    pub fn begin(&self) -> (r: (Phase, Step))
        ensures
            begin_sig(*self, r.0, r.1),
    {
        match &self.status {
            StatusStorage::Memory(cache) => match cache {
                Option::Some(s) => select_from(s),
                Option::None => (Phase::AwaitStatusFetch, Step::FetchStatus),
            },
            StatusStorage::TempFile(path) => (
                Phase::AwaitFileRead,
                Step::ReadStatusFile(path.clone()),
            ),
        }
    }

    /// Advances one download by the outcome of the last step.
    pub fn step(&mut self, phase: Phase, ev: Event) -> (r: (Phase, Step))
        requires
            phase_accepts(phase, ev),
        ensures
            step_sig(*old(self), phase, ev, *final(self), r.0, r.1),
    {
        match (phase, ev) {
            (Phase::AwaitFileRead, Event::FileRead(content)) => match content {
                Option::Some(c) => match decode_status(c.as_str()) {
                    Option::Some(st) => {
                        let r = select_from(&st);
                        proof {
                            assert forall|m: StatusModel| c@ == enc_status(m) implies select_sig(
                                m,
                                r.0,
                                r.1,
                            ) by {
                                assert(st.model() == m);
                            }
                        }
                        r
                    },
                    Option::None => {
                        proof {
                            assert forall|m: StatusModel| c@ != enc_status(m) by {}
                        }
                        (Phase::AwaitStatusFetch, Step::FetchStatus)
                    },
                },
                Option::None => (Phase::AwaitStatusFetch, Step::FetchStatus),
            },
            (Phase::AwaitStatusFetch, Event::StatusFetched(res)) => match res {
                Result::Ok(s) => {
                    let is_memory = match &self.status {
                        StatusStorage::Memory(_) => true,
                        StatusStorage::TempFile(_) => false,
                    };
                    if is_memory {
                        let r = select_from(&s);
                        self.status = StatusStorage::Memory(Option::Some(s));
                        r
                    } else {
                        let p = match &self.status {
                            StatusStorage::TempFile(path) => path.clone(),
                            StatusStorage::Memory(_) => unreached(),
                        };
                        let content = encode_status(&s);
                        (Phase::AwaitFileWrite(s), Step::WriteStatusFile(p, content))
                    }
                },
                Result::Err(e) => (
                    Phase::Terminal,
                    Step::Fail(DatafeedError::StatusHttpError(e)),
                ),
            },
            (Phase::AwaitFileWrite(s), Event::FileWritten(res)) => match res {
                Result::Ok(_) => select_from(&s),
                Result::Err(e) => (
                    Phase::Terminal,
                    Step::Fail(DatafeedError::StatusWriteError(e)),
                ),
            },
            (Phase::AwaitFeedFetch, Event::FeedFetched(res)) => match res {
                Result::Ok(f) => (Phase::Terminal, Step::Finish(f)),
                Result::Err(e) => (
                    Phase::Terminal,
                    Step::Fail(DatafeedError::DatafeedHttpError(e)),
                ),
            },
            _ => unreached(),
        }
    }
}

// ---------------------------------------------------------------------
// Laws of the pipeline.
// ---------------------------------------------------------------------
/// With a non-empty URL list, selection deterministically takes the
/// first entry of `data.v3`, whatever the length or order of the rest.
pub proof fn lemma_selects_first_url(m: StatusModel, phase: Phase, step: Step)
    requires
        m.v3.len() > 0,
        select_sig(m, phase, step),
    ensures
        step matches Step::FetchFeed(u) && u@ == m.v3[0],
{
}

/// With an empty URL list, the download fails with `NoUrlError` and is
/// terminal: no feed-stage step is ever requested.
pub proof fn lemma_no_endpoint(m: StatusModel, phase: Phase, step: Step)
    requires
        m.v3.len() == 0,
        select_sig(m, phase, step),
    ensures
        step == Step::Fail(DatafeedError::NoUrlError),
        phase == Phase::Terminal,
{
}

/// For the memory strategy, a successful resolution caches the document
/// unchanged, and the next download selects from that same cached
/// document with no further fetch or read step.
pub proof fn lemma_memory_cache_reused(
    pre: Downloader,
    s: Status,
    post: Downloader,
    phase2: Phase,
    step: Step,
    p2: Phase,
    st2: Step,
)
    requires
        pre.status matches StatusStorage::Memory(_),
        step_sig(
            pre,
            Phase::AwaitStatusFetch,
            Event::StatusFetched(Result::Ok(s)),
            post,
            phase2,
            step,
        ),
        begin_sig(post, p2, st2),
    ensures
        post.status == StatusStorage::Memory(Option::Some(s)),
        select_sig(s.model(), p2, st2),
        !(st2 is FetchStatus),
        !(st2 is ReadStatusFile),
{
}

/// A bootstrap failure is terminal and surfaced unchanged as
/// `StatusHttpError`: no feed-stage step follows, and the cache state is
/// untouched.
pub proof fn lemma_status_failure_terminal(
    pre: Downloader,
    e: TransportError,
    post: Downloader,
    phase2: Phase,
    step: Step,
)
    requires
        step_sig(
            pre,
            Phase::AwaitStatusFetch,
            Event::StatusFetched(Result::Err(e)),
            post,
            phase2,
            step,
        ),
    ensures
        post == pre,
        phase2 == Phase::Terminal,
        step == Step::Fail(DatafeedError::StatusHttpError(e)),
{
}

/// A feed failure is surfaced as `DatafeedHttpError` and leaves the
/// resolver's cache exactly as it was: with a memory-cached document, a
/// later download still selects from that document without refetching.
pub proof fn lemma_feed_failure_preserves_cache(
    pre: Downloader,
    e: TransportError,
    post: Downloader,
    phase2: Phase,
    step: Step,
    s: Status,
    p2: Phase,
    st2: Step,
)
    requires
        step_sig(pre, Phase::AwaitFeedFetch, Event::FeedFetched(Result::Err(e)), post, phase2, step),
        pre.status == StatusStorage::Memory(Option::Some(s)),
        begin_sig(post, p2, st2),
    ensures
        post == pre,
        phase2 == Phase::Terminal,
        step == Step::Fail(DatafeedError::DatafeedHttpError(e)),
        select_sig(s.model(), p2, st2),
        !(st2 is FetchStatus),
{
}

/// For the file strategy, a readable cache file holding the canonical
/// text of a document resolves to that document's content, with no
/// network step.
pub proof fn lemma_file_cache_hit(
    pre: Downloader,
    c: String,
    m: StatusModel,
    post: Downloader,
    phase2: Phase,
    step: Step,
)
    requires
        step_sig(pre, Phase::AwaitFileRead, Event::FileRead(Option::Some(c)), post, phase2, step),
        c@ == enc_status(m),
    ensures
        post == pre,
        select_sig(m, phase2, step),
        !(step is FetchStatus),
{
}

/// For the file strategy, what a successful resolution writes to the
/// cache file is the canonical text of the resolved document, so by the
/// contract of `decode_status` reading the file back yields a document
/// of the same content (the round-trip law of the cache).
pub proof fn lemma_file_cache_written_text(
    pre: Downloader,
    s: Status,
    post: Downloader,
    phase2: Phase,
    step: Step,
    path: String,
)
    requires
        pre.status == StatusStorage::TempFile(path),
        step_sig(
            pre,
            Phase::AwaitStatusFetch,
            Event::StatusFetched(Result::Ok(s)),
            post,
            phase2,
            step,
        ),
    ensures
        post == pre,
        phase2 == Phase::AwaitFileWrite(s),
        step matches Step::WriteStatusFile(p, c) && p == path && c@ == enc_status(s.model()),
{
}

} // verus!
