//! The project-list provider, as a decision machine.
//!
//! Obtaining the list interleaves decisions with outside work: reading
//! the cache file, one authenticated GET, and a cache write.  The
//! decisions live here, verified: `get_projects` maps the current step
//! and the outcome of the last action to the next step.  The runner
//! around the library starts at [`Step::Start`] with [`Event::Begin`],
//! performs each requested action, and feeds the outcome back in, until
//! it reaches [`Step::Done`] or [`Step::Failed`].
//!
//! The flow is the cache-or-fetch rule: unless the bypass flag is set,
//! a readable, parsable cache ends the run at once; otherwise the list
//! is fetched, a non-2xx response or an unparsable body is a terminal
//! failure, and a parsed list must be written back to the cache before
//! it is returned.

use vstd::prelude::*;

use crate::config::{Configuration, ConfigurationView};
use crate::errors::{ProviderError, ProviderErrorView, SentryApiError};
use crate::json::{parse_projects, serialize_projects, sp_parse, sp_serialize};
use crate::project::{list_view, Project, ProjectView};

verus! {

/// Status line and body of an HTTP response.
pub struct HttpReply {
    pub status: u16,
    pub body: Vec<u8>,
}

/// Mathematical image of an HTTP response.
pub struct HttpReplyView {
    pub status: u16,
    pub body: Seq<u8>,
}

impl View for HttpReply {
    type V = HttpReplyView;

    open spec fn view(&self) -> HttpReplyView {
        HttpReplyView { status: self.status, body: self.body@ }
    }
}

/// The machine's state; every state but the last two is also the action
/// the runner must perform next.
pub enum Step {
    /// Nothing has happened yet.
    Start,
    /// Read the cache file; reply with its contents.
    ReadCache,
    /// Send `GET url` with the bearer `token`; reply with the outcome.
    Fetch { url: Vec<u8>, token: Vec<u8> },
    /// Overwrite the cache file with `contents`; reply whether it worked.
    WriteCache { contents: Vec<u8>, projects: Vec<Project> },
    /// The list is resolved.
    Done { projects: Vec<Project> },
    /// A terminal failure.
    Failed { error: ProviderError },
}

/// Mathematical image of a step.
#[verifier::ext_equal]
pub enum StepView {
    Start,
    ReadCache,
    Fetch { url: Seq<u8>, token: Seq<u8> },
    WriteCache { contents: Seq<u8>, projects: Seq<ProjectView> },
    Done { projects: Seq<ProjectView> },
    Failed { error: ProviderErrorView },
}

impl View for Step {
    type V = StepView;

    open spec fn view(&self) -> StepView {
        match self {
            Step::Start => StepView::Start,
            Step::ReadCache => StepView::ReadCache,
            Step::Fetch { url, token } => StepView::Fetch { url: url@, token: token@ },
            Step::WriteCache { contents, projects } => StepView::WriteCache {
                contents: contents@,
                projects: list_view(projects@),
            },
            Step::Done { projects } => StepView::Done { projects: list_view(projects@) },
            Step::Failed { error } => StepView::Failed { error: error@ },
        }
    }
}

/// The outcome the runner hands back.
pub enum Event {
    /// Begin the run.
    Begin,
    /// The cache file's bytes, or nothing when it was missing or
    /// unreadable.
    CacheContents { contents: Option<Vec<u8>> },
    /// The HTTP outcome: a reply, or a transport failure's message.
    Response { outcome: Result<HttpReply, Vec<u8>> },
    /// Whether the cache write succeeded.
    WriteOutcome { ok: bool },
}

/// Mathematical image of an event.
#[verifier::ext_equal]
pub enum EventView {
    Begin,
    CacheContents { contents: Option<Seq<u8>> },
    Response { outcome: Result<HttpReplyView, Seq<u8>> },
    WriteOutcome { ok: bool },
}

impl View for Event {
    type V = EventView;

    open spec fn view(&self) -> EventView {
        match self {
            Event::Begin => EventView::Begin,
            Event::CacheContents { contents } => EventView::CacheContents {
                contents: match contents {
                    Some(v) => Some(v@),
                    None => None,
                },
            },
            Event::Response { outcome } => EventView::Response {
                outcome: match outcome {
                    Ok(rep) => Ok(rep@),
                    Err(msg) => Err(msg@),
                },
            },
            Event::WriteOutcome { ok } => EventView::WriteOutcome { ok: *ok },
        }
    }
}

/// The bytes of `/api/0/organizations/`.
pub open spec fn api_path_head() -> Seq<u8> {
    seq![47u8, 97, 112, 105, 47, 48, 47, 111, 114, 103, 97, 110, 105, 122, 97, 116, 105, 111, 110,
        115, 47]
}

/// The bytes of `/projects/`.
pub open spec fn api_path_tail() -> Seq<u8> {
    seq![47u8, 112, 114, 111, 106, 101, 99, 116, 115, 47]
}

/// The endpoint listing an organisation's projects.
pub open spec fn url_of(api_url: Seq<u8>, org: Seq<u8>) -> Seq<u8> {
    api_url + api_path_head() + org + api_path_tail()
}

/// Whether a status is a success.
pub open spec fn is_2xx(status: u16) -> bool {
    200 <= status < 300
}

/// The fetch step for a configuration.
pub open spec fn fetch_step(cfg: ConfigurationView) -> StepView {
    StepView::Fetch { url: url_of(cfg.api_url, cfg.org), token: cfg.api_key }
}

/// The machine's transition relation.  A reply that answers no pending
/// action leaves the step unchanged.
pub open spec fn spec_step(cfg: ConfigurationView, st: StepView, ev: EventView) -> StepView {
    match (st, ev) {
        (StepView::Start, EventView::Begin) => if cfg.clear_cache {
            fetch_step(cfg)
        } else {
            StepView::ReadCache
        },
        (StepView::ReadCache, EventView::CacheContents { contents }) => match contents {
            Some(bytes) => match sp_parse(bytes) {
                Some(ps) => StepView::Done { projects: ps },
                None => fetch_step(cfg),
            },
            None => fetch_step(cfg),
        },
        (StepView::Fetch { .. }, EventView::Response { outcome }) => match outcome {
            Err(msg) => StepView::Failed { error: ProviderErrorView::Network { message: msg } },
            Ok(rep) => if !is_2xx(rep.status) {
                StepView::Failed { error: ProviderErrorView::Api { body: rep.body } }
            } else {
                match sp_parse(rep.body) {
                    Some(ps) => StepView::WriteCache {
                        contents: sp_serialize(ps),
                        projects: ps,
                    },
                    None => StepView::Failed { error: ProviderErrorView::Parse },
                }
            },
        },
        (StepView::WriteCache { contents, projects }, EventView::WriteOutcome { ok }) => if ok {
            StepView::Done { projects }
        } else {
            StepView::Failed { error: ProviderErrorView::CacheWrite }
        },
        (s, _) => s,
    }
}

/// Append a copy of `src`.
fn append_bytes(dst: &mut Vec<u8>, src: &Vec<u8>)
    ensures
        final(dst)@ == old(dst)@ + src@,
{
    let n = src.len();
    let mut i: usize = 0;
    while i < n
        invariant
            n == src@.len(),
            i <= n,
            dst@ == old(dst)@ + src@.subrange(0, i as int),
        decreases n - i,
    {
        dst.push(src[i]);
        assert(dst@ =~= old(dst)@ + src@.subrange(0, i + 1 as int));
        i += 1;
    }
    assert(src@.subrange(0, n as int) =~= src@);
}

/// The endpoint listing the configured organisation's projects.
pub fn build_url(cfg: &Configuration) -> (r: Vec<u8>)
    ensures
        r@ == url_of(cfg.api_url@, cfg.org@),
{
    let mut r: Vec<u8> = Vec::new();
    append_bytes(&mut r, &cfg.api_url);
    r.push(47);  // /
    r.push(97);  // a
    r.push(112);  // p
    r.push(105);  // i
    r.push(47);  // /
    r.push(48);  // 0
    r.push(47);  // /
    r.push(111);  // o
    r.push(114);  // r
    r.push(103);  // g
    r.push(97);  // a
    r.push(110);  // n
    r.push(105);  // i
    r.push(122);  // z
    r.push(97);  // a
    r.push(116);  // t
    r.push(105);  // i
    r.push(111);  // o
    r.push(110);  // n
    r.push(115);  // s
    r.push(47);  // /
    assert(r@ =~= cfg.api_url@ + api_path_head());
    append_bytes(&mut r, &cfg.org);
    r.push(47);  // /
    r.push(112);  // p
    r.push(114);  // r
    r.push(111);  // o
    r.push(106);  // j
    r.push(101);  // e
    r.push(99);  // c
    r.push(116);  // t
    r.push(115);  // s
    r.push(47);  // /
    assert(r@ =~= url_of(cfg.api_url@, cfg.org@));
    r
}

/// One decision of the provider: from the current step and the outcome
/// of the last action to the next step, exactly as the transition
/// relation says.
pub fn get_projects(cfg: &Configuration, state: Step, event: Event) -> (next: Step)
    ensures
        next@ == spec_step(cfg@, state@, event@),
{
    match (state, event) {
        (Step::Start, Event::Begin) => {
            if cfg.clear_cache {
                let next = Step::Fetch { url: build_url(cfg), token: crate::project::bytes_clone(
                    &cfg.api_key,
                ) };
                assert(next@ =~= spec_step(cfg@, StepView::Start, EventView::Begin));
                next
            } else {
                Step::ReadCache
            }
        },
        (Step::ReadCache, Event::CacheContents { contents }) => {
            match contents {
                Some(bytes) => {
                    match parse_projects(&bytes) {
                        Some(ps) => {
                            let next = Step::Done { projects: ps };
                            assert(next@ =~= spec_step(
                                cfg@,
                                StepView::ReadCache,
                                EventView::CacheContents { contents: Some(bytes@) },
                            ));
                            next
                        },
                        None => {
                            let next = Step::Fetch {
                                url: build_url(cfg),
                                token: crate::project::bytes_clone(&cfg.api_key),
                            };
                            assert(next@ =~= fetch_step(cfg@));
                            next
                        },
                    }
                },
                None => {
                    let next = Step::Fetch {
                        url: build_url(cfg),
                        token: crate::project::bytes_clone(&cfg.api_key),
                    };
                    assert(next@ =~= fetch_step(cfg@));
                    next
                },
            }
        },
        (Step::Fetch { url, token }, Event::Response { outcome }) => {
            match outcome {
                Err(msg) => Step::Failed { error: ProviderError::Network { message: msg } },
                Ok(rep) => {
                    if rep.status < 200 || rep.status >= 300 {
                        Step::Failed { error: ProviderError::Api(SentryApiError { body: rep.body }) }
                    } else {
                        match parse_projects(&rep.body) {
                            Some(ps) => {
                                let contents = serialize_projects(&ps);
                                let next = Step::WriteCache { contents, projects: ps };
                                assert(next@ =~= spec_step(
                                    cfg@,
                                    StepView::Fetch { url: url@, token: token@ },
                                    EventView::Response { outcome: Ok(rep@) },
                                ));
                                next
                            },
                            None => Step::Failed { error: ProviderError::Parse },
                        }
                    }
                },
            }
        },
        (Step::WriteCache { contents, projects }, Event::WriteOutcome { ok }) => {
            if ok {
                Step::Done { projects }
            } else {
                Step::Failed { error: ProviderError::CacheWrite }
            }
        },
        (st, _) => st,
    }
}

/// With the cache intact and the bypass flag off, the provider's first
/// action is the cache read, and a parsable cache ends the run at once
/// with exactly the cached list: no request is ever issued.
pub proof fn lemma_cache_hit(cfg: ConfigurationView, cache: Seq<u8>, ps: Seq<ProjectView>)
    requires
        !cfg.clear_cache,
        sp_parse(cache) == Some(ps),
    ensures
        spec_step(cfg, StepView::Start, EventView::Begin) == StepView::ReadCache,
        spec_step(cfg, StepView::ReadCache, EventView::CacheContents { contents: Some(cache) })
            == (StepView::Done { projects: ps }),
{
}

/// With the bypass flag set, the first action is the fetch — the cache
/// is never read, whatever it holds, and while the fetch is pending no
/// cache contents can move the machine — and a successful fetch first
/// overwrites the cache with the serialized fetched list, then returns
/// that list.
pub proof fn lemma_bypass(cfg: ConfigurationView, status: u16, body: Seq<u8>, ps: Seq<ProjectView>)
    requires
        cfg.clear_cache,
        is_2xx(status),
        sp_parse(body) == Some(ps),
    ensures
        spec_step(cfg, StepView::Start, EventView::Begin) == fetch_step(cfg),
        spec_step(cfg, StepView::Start, EventView::Begin) != StepView::ReadCache,
        forall|contents: Option<Seq<u8>>|
            spec_step(cfg, fetch_step(cfg), EventView::CacheContents { contents }) == fetch_step(
                cfg,
            ),
        spec_step(
            cfg,
            fetch_step(cfg),
            EventView::Response { outcome: Ok(HttpReplyView { status, body }) },
        ) == (StepView::WriteCache { contents: sp_serialize(ps), projects: ps }),
        spec_step(
            cfg,
            StepView::WriteCache { contents: sp_serialize(ps), projects: ps },
            EventView::WriteOutcome { ok: true },
        ) == (StepView::Done { projects: ps }),
{
}

/// A non-2xx response is a terminal API error carrying the response
/// body verbatim; in particular no cache write is requested.
pub proof fn lemma_api_error(cfg: ConfigurationView, url: Seq<u8>, token: Seq<u8>, status: u16, body: Seq<u8>)
    requires
        !is_2xx(status),
    ensures
        spec_step(
            cfg,
            StepView::Fetch { url, token },
            EventView::Response { outcome: Ok(HttpReplyView { status, body }) },
        ) == (StepView::Failed { error: ProviderErrorView::Api { body } }),
{
}

/// A missing or unparsable cache file is a miss: the next action is the
/// fetch, and a successful fetch then overwrites the cache with the
/// serialized fetched list.
pub proof fn lemma_cache_miss(cfg: ConfigurationView, cache: Option<Seq<u8>>, status: u16, body: Seq<u8>, ps: Seq<ProjectView>)
    requires
        cache is Some ==> sp_parse(cache->0) is None,
        is_2xx(status),
        sp_parse(body) == Some(ps),
    ensures
        spec_step(cfg, StepView::ReadCache, EventView::CacheContents { contents: cache })
            == fetch_step(cfg),
        spec_step(
            cfg,
            fetch_step(cfg),
            EventView::Response { outcome: Ok(HttpReplyView { status, body }) },
        ) == (StepView::WriteCache { contents: sp_serialize(ps), projects: ps }),
{
}

} // verus!
