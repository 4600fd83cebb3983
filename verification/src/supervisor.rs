//! The supervisor: what is configured, what runs, what may be started or stopped
//! now, and what is answered.

use crate::config::{
    config_fault, stream_index, validate_config, Config, EpgConfig, Output, Stream,
};
use crate::misc::{address_of, forbidden, is_forbidden, networks_of};
use crate::status::{event_content, event_data};
use crate::text::{decimal, push_decimal, same_text};
use std::collections::HashSet;
use vstd::prelude::*;
use vstd::string::StringExecFns;

verus! {

broadcast use vstd::std_specs::hash::group_hash_axioms;

pub const URL_LISTENER: &'static str = "0.0.0.0:8787";

pub const SAVE_PERIOD_SEC: i64 = 900;

// ---- Answers ----

/// What happened.
#[derive(Debug, Clone, Copy, PartialEq, Eq, Structural)]
pub enum EventsType {
    OnStartStream,
    OnStopStream,
    OnStartOutput,
    OnStopOutput,
    OnError,
    OnProbe,
    OnSaveConfig,
    OnLoadConfig,
}

/// The word for what happened.
pub open spec fn event_word(e: EventsType) -> Seq<char> {
    match e {
        EventsType::OnStartStream => "on_start_stream"@,
        EventsType::OnStopStream => "on_stop_stream"@,
        EventsType::OnStartOutput => "on_start_output"@,
        EventsType::OnStopOutput => "on_stop_output"@,
        EventsType::OnError => "on_error"@,
        EventsType::OnProbe => "on_probe"@,
        EventsType::OnSaveConfig => "on_save_config"@,
        EventsType::OnLoadConfig => "on_load_config"@,
    }
}

impl EventsType {
    /// The word for what happened.
    pub fn as_str(&self) -> (r: &'static str)
        ensures
            r@ == event_word(*self),
    {
        match self {
            EventsType::OnStartStream => "on_start_stream",
            EventsType::OnStopStream => "on_stop_stream",
            EventsType::OnStartOutput => "on_start_output",
            EventsType::OnStopOutput => "on_stop_output",
            EventsType::OnError => "on_error",
            EventsType::OnProbe => "on_probe",
            EventsType::OnSaveConfig => "on_save_config",
            EventsType::OnLoadConfig => "on_load_config",
        }
    }
}

/// What is reported of something that happened. The result is a text in JSON.
pub struct EventResponse {
    pub event: String,
    pub success: bool,
    pub message: String,
    pub result: Option<String>,
}

impl EventResponse {
    pub fn new(event: EventsType) -> (r: Self)
        ensures
            r.event@ == event_word(event),
            r.success,
            r.message@ == Seq::<char>::empty(),
            r.result is None,
    {
        EventResponse {
            event: String::from_str(event.as_str()),
            success: true,
            message: String::new(),
            result: None,
        }
    }

    /// It went well.
    pub fn success(&mut self, message: String)
        ensures
            *final(self) == (EventResponse { success: true, message, ..*old(self) }),
    {
        self.success = true;
        self.message = message;
    }

    /// It failed.
    pub fn failed(&mut self, message: String)
        ensures
            *final(self) == (EventResponse { success: false, message, ..*old(self) }),
    {
        self.success = false;
        self.message = message;
    }

    /// The content of the message in which it is reported.
    pub fn data(&self) -> (r: String)
        ensures
            r@ == event_content(
                self.event@,
                self.message@,
                crate::psi::pmt::text_of(self.result),
                self.success,
            ),
    {
        event_data(self.event.as_str(), self.message.as_str(), &self.result, self.success)
    }

    /// What came of it.
    pub fn result(&mut self, result: String)
        ensures
            *final(self) == (EventResponse { result: Some(result), ..*old(self) }),
    {
        self.result = Some(result);
    }
}

/// The words for how something that was asked for ended.
pub open spec fn outcome_text(event: EventsType, id: u32, error: Option<Seq<char>>) -> Seq<char> {
    let stream = "s"@ + decimal(id as int);
    match (event, error) {
        (EventsType::OnStartStream, None) => stream + " Stream started successfully"@,
        (EventsType::OnStartStream, Some(e)) => stream + " Failed to start the stream: "@ + e,
        (EventsType::OnStopStream, None) => stream + " Stream stopped successfully"@,
        (EventsType::OnStopStream, Some(e)) => stream + " Failed to stop the stream; "@ + e,
        (EventsType::OnProbe, None) => stream + " Probe for stream successfully"@,
        (EventsType::OnProbe, Some(e)) => stream + " Failed to probe for stream: "@ + e,
        (EventsType::OnLoadConfig, None) => "Config loaded successfully"@,
        (EventsType::OnLoadConfig, Some(e)) => "Error in load config: "@ + e,
        (EventsType::OnSaveConfig, None) => "Config saved successfully"@,
        (EventsType::OnSaveConfig, Some(e)) => "Error in save config: "@ + e,
        (_, None) => Seq::empty(),
        (_, Some(e)) => e,
    }
}

fn joined(a: &str, b: &str) -> (r: String)
    ensures
        r@ == a@ + b@,
{
    let mut t = String::from_str(a);
    t.append(b);
    t
}

fn stream_words(id: u32, words: &str, error: &str) -> (r: String)
    ensures
        r@ == "s"@ + decimal(id as int) + words@ + error@,
{
    let mut t = String::from_str("s");
    push_decimal(&mut t, id as u64);
    t.append(words);
    t.append(error);
    t
}

fn stream_word(id: u32, words: &str) -> (r: String)
    ensures
        r@ == "s"@ + decimal(id as int) + words@,
{
    let mut t = String::from_str("s");
    push_decimal(&mut t, id as u64);
    t.append(words);
    t
}

/// What is reported of something that was asked for: how it ended, and for a
/// probe what it found.
pub fn event_outcome(event: EventsType, id: u32, error: Option<&str>) -> (r: EventResponse)
    ensures
        r.event@ == event_word(event),
        r.success == error is None,
        r.message@ == outcome_text(
            event,
            id,
            match error {
                Some(e) => Some(e@),
                None => None,
            },
        ),
        r.result is None,
{
    let mut response = EventResponse::new(event);
    match error {
        None => {
            let message = match event {
                EventsType::OnStartStream => stream_word(id, " Stream started successfully"),
                EventsType::OnStopStream => stream_word(id, " Stream stopped successfully"),
                EventsType::OnProbe => stream_word(id, " Probe for stream successfully"),
                EventsType::OnLoadConfig => String::from_str("Config loaded successfully"),
                EventsType::OnSaveConfig => String::from_str("Config saved successfully"),
                _ => String::new(),
            };
            response.success(message);
        },
        Some(e) => {
            let message = match event {
                EventsType::OnStartStream => stream_words(id, " Failed to start the stream: ", e),
                EventsType::OnStopStream => stream_words(id, " Failed to stop the stream; ", e),
                EventsType::OnProbe => stream_words(id, " Failed to probe for stream: ", e),
                EventsType::OnLoadConfig => joined("Error in load config: ", e),
                EventsType::OnSaveConfig => joined("Error in save config: ", e),
                _ => String::from_str(e),
            };
            response.failed(message);
        },
    }
    response
}

/// The answer to a request.
pub struct ResponseJson {
    pub success: bool,
    pub message: String,
    pub id: u32,
}

/// A request that is answered at once.
#[derive(Debug, Clone, Copy, PartialEq, Eq, Structural)]
pub enum ApiRequest {
    Root,
    Probe(u32),
    Load,
    Save,
    StartAll,
    StopAll,
    Start(u32),
    Stop(u32),
}

/// The words of an answer, and the identifier in it.
pub open spec fn answer_text(request: ApiRequest) -> (Seq<char>, u32) {
    match request {
        ApiRequest::Root => ("myMuxer ready!"@, 0),
        ApiRequest::Probe(id) => (
            "Worker with id "@ + decimal(id as int) + " probing started"@,
            id,
        ),
        ApiRequest::Load => ("Config loading"@, 0),
        ApiRequest::Save => ("Config saving progress"@, 0),
        ApiRequest::StartAll => ("All workers starting"@, 0),
        ApiRequest::StopAll => ("All workers stopping"@, 0),
        ApiRequest::Start(id) => ("Worker with id "@ + decimal(id as int) + " started"@, id),
        ApiRequest::Stop(id) => ("Worker with id "@ + decimal(id as int) + " stopped"@, id),
    }
}

fn worker_words(id: u32, words: &str) -> (r: String)
    ensures
        r@ == "Worker with id "@ + decimal(id as int) + words@,
{
    let mut t = String::from_str("Worker with id ");
    push_decimal(&mut t, id as u64);
    t.append(words);
    t
}

/// The answer to a request; what was asked for is done afterwards.
pub fn answer(request: ApiRequest) -> (r: ResponseJson)
    ensures
        r.success,
        (r.message@, r.id) == answer_text(request),
{
    let (message, id): (String, u32) = match request {
        ApiRequest::Root => (String::from_str("myMuxer ready!"), 0),
        ApiRequest::Probe(id) => (worker_words(id, " probing started"), id),
        ApiRequest::Load => (String::from_str("Config loading"), 0),
        ApiRequest::Save => (String::from_str("Config saving progress"), 0),
        ApiRequest::StartAll => (String::from_str("All workers starting"), 0),
        ApiRequest::StopAll => (String::from_str("All workers stopping"), 0),
        ApiRequest::Start(id) => (worker_words(id, " started"), id),
        ApiRequest::Stop(id) => (worker_words(id, " stopped"), id),
    };
    ResponseJson { success: true, message, id }
}

/// The answer to a request that is not known.
pub fn answer_unknown(uri: &str) -> (r: ResponseJson)
    ensures
        !r.success,
        r.message@ == "No route for uri="@ + uri@,
        r.id == 0,
{
    ResponseJson { success: false, message: joined("No route for uri=", uri), id: 0 }
}

// ---- Errors that repeat ----

/// What is said of an error.
#[derive(Debug, Clone, Copy, PartialEq, Eq, Structural)]
pub enum ErrReport {
    /// The error itself.
    Error,
    /// How often errors occurred within a minute.
    Count(u32),
    /// Nothing.
    Nothing,
}

/// Counts errors that repeat, so that not each is reported.
#[derive(Debug, Clone, Copy, PartialEq, Eq, Structural)]
pub struct ErrCounter {
    pub count: u32,
    pub per_min: u32,
}

/// What is said of an error after `count` others, and how many there are then.
pub open spec fn err_counted(c: ErrCounter) -> (ErrCounter, ErrReport) {
    if c.count == 0 {
        (ErrCounter { count: 1, ..c }, ErrReport::Error)
    } else if c.count >= c.per_min {
        (ErrCounter { count: 1, ..c }, ErrReport::Count(c.count))
    } else {
        (ErrCounter { count: (c.count + 1) as u32, ..c }, ErrReport::Nothing)
    }
}

impl ErrCounter {
    /// A counter for something that is tried every `period_sec` seconds.
    pub fn new(period_sec: u32) -> (r: Self)
        requires
            period_sec > 0,
        ensures
            r == (ErrCounter { count: 0, per_min: (60u32 / period_sec) as u32 }),
    {
        ErrCounter { count: 0, per_min: 60 / period_sec }
    }

    /// Counts an error, and says what is reported.
    pub fn on_error(&mut self) -> (r: ErrReport)
        ensures
            (*final(self), r) == err_counted(*old(self)),
    {
        if self.count == 0 {
            self.count = 1;
            ErrReport::Error
        } else if self.count >= self.per_min {
            let n: u32 = self.count;
            self.count = 1;
            ErrReport::Count(n)
        } else {
            self.count = self.count + 1;
            ErrReport::Nothing
        }
    }
}

/// The first error is reported, the next ones are not until as many occurred as
/// fit into a minute.
pub proof fn law_errors_reported(c: ErrCounter)
    ensures
        c.count == 0 ==> err_counted(c).1 == ErrReport::Error,
        0 < c.count < c.per_min ==> err_counted(c).1 == ErrReport::Nothing && err_counted(c).0.count
            == c.count + 1,
        c.count > 0 && c.count >= c.per_min ==> err_counted(c).1 == ErrReport::Count(c.count),
        c.count <= c.per_min && c.per_min > 0 ==> err_counted(c).0.count <= c.per_min,
{
}

/// Whether it is reported that no configuration is loaded.
pub fn is_missing_config_reported(err_count: u64, per_min: u64) -> (r: bool)
    ensures
        r == (err_count == 0 || err_count >= per_min),
{
    err_count == 0 || err_count >= per_min
}

/// Whether the server is given up after it failed: at the sixth time.
pub fn is_server_given_up(err_count: u32) -> (r: bool)
    ensures
        r == (err_count == 5),
{
    err_count == 5
}

// ---- What runs ----

/// Why something is not done.
#[derive(Debug, Clone, Copy, PartialEq, Eq, Structural)]
pub enum SupervisorError {
    ConfigNotLoaded,
    ConfigNotFound,
    StreamNotFound(u32),
    WorkerNotFound(u32),
    ProbeInProcess(u32),
    ProbeWorkerNotFound(u32),
    EpgRunning(u32),
    EpgConfigNotFound(u32),
    EpgNotRunning,
    OutputNotFound(u32),
    DumpNotFound(u32),
    RouterNotFound(u32),
    RouterNotRunning(u32),
}

/// The words for why something is not done.
pub open spec fn error_text(e: SupervisorError) -> Seq<char> {
    match e {
        SupervisorError::ConfigNotLoaded => "Config not loaded"@,
        SupervisorError::ConfigNotFound => "Config not found"@,
        SupervisorError::StreamNotFound(id) => "Stream "@ + decimal(id as int) + " not found"@,
        SupervisorError::WorkerNotFound(id) => "Worker "@ + decimal(id as int) + " not found"@,
        SupervisorError::ProbeInProcess(id) => "Probe for worker with id "@ + decimal(id as int)
            + " in process"@,
        SupervisorError::ProbeWorkerNotFound(id) => "Worker with id "@ + decimal(id as int)
            + " not found"@,
        SupervisorError::EpgRunning(id) => "EPG already running for stream with id "@ + decimal(
            id as int,
        ),
        SupervisorError::EpgConfigNotFound(id) => "EPG config with id "@ + decimal(id as int)
            + " not found"@,
        SupervisorError::EpgNotRunning => "EPG not running"@,
        SupervisorError::OutputNotFound(id) => "Output id "@ + decimal(id as int) + " not found"@,
        SupervisorError::DumpNotFound(id) => "Dump with id "@ + decimal(id as int) + " not found"@,
        SupervisorError::RouterNotFound(id) => "Http router with id "@ + decimal(id as int)
            + " not found"@,
        SupervisorError::RouterNotRunning(id) => "Http router "@ + decimal(id as int)
            + " not running"@,
    }
}

fn numbered(before: &str, id: u32, after: &str) -> (r: String)
    ensures
        r@ == before@ + decimal(id as int) + after@,
{
    let mut t = String::from_str(before);
    push_decimal(&mut t, id as u64);
    t.append(after);
    t
}

impl SupervisorError {
    /// The words for why something is not done.
    pub fn message(&self) -> (r: String)
        ensures
            r@ == error_text(*self),
    {
        match self {
            SupervisorError::ConfigNotLoaded => String::from_str("Config not loaded"),
            SupervisorError::ConfigNotFound => String::from_str("Config not found"),
            SupervisorError::StreamNotFound(id) => numbered("Stream ", *id, " not found"),
            SupervisorError::WorkerNotFound(id) => numbered("Worker ", *id, " not found"),
            SupervisorError::ProbeInProcess(id) => numbered(
                "Probe for worker with id ",
                *id,
                " in process",
            ),
            SupervisorError::ProbeWorkerNotFound(id) => numbered(
                "Worker with id ",
                *id,
                " not found",
            ),
            SupervisorError::EpgRunning(id) => {
                let mut t = String::from_str("EPG already running for stream with id ");
                push_decimal(&mut t, *id as u64);
                t
            },
            SupervisorError::EpgConfigNotFound(id) => numbered(
                "EPG config with id ",
                *id,
                " not found",
            ),
            SupervisorError::EpgNotRunning => String::from_str("EPG not running"),
            SupervisorError::OutputNotFound(id) => numbered("Output id ", *id, " not found"),
            SupervisorError::DumpNotFound(id) => numbered("Dump with id ", *id, " not found"),
            SupervisorError::RouterNotFound(id) => numbered(
                "Http router with id ",
                *id,
                " not found",
            ),
            SupervisorError::RouterNotRunning(id) => numbered("Http router ", *id, " not running"),
        }
    }
}

/// The state of the supervisor.
#[verifier::ext_equal]
pub struct SupervisorState {
    pub src_config: Option<Seq<char>>,
    pub config: Option<Config>,
    pub dirty: bool,
    pub last_update: i64,
    pub workers: Set<u32>,
    pub workers_lock: Set<u32>,
    pub probe_lock: Set<u32>,
    pub dumps: Set<u32>,
    pub epg: Set<u32>,
    pub routers: Set<u32>,
}

/// What is configured, and what runs.
pub struct Supervisor {
    src_config: Option<String>,
    config: Option<Config>,
    dirty: bool,
    last_update: i64,
    workers: HashSet<u32>,
    workers_lock: HashSet<u32>,
    probe_lock: HashSet<u32>,
    dumps: HashSet<u32>,
    epg: HashSet<u32>,
    routers: HashSet<u32>,
}

impl View for Supervisor {
    type V = SupervisorState;

    closed spec fn view(&self) -> SupervisorState {
        SupervisorState {
            src_config: crate::psi::pmt::text_of(self.src_config),
            config: self.config,
            dirty: self.dirty,
            last_update: self.last_update,
            workers: self.workers@,
            workers_lock: self.workers_lock@,
            probe_lock: self.probe_lock@,
            dumps: self.dumps@,
            epg: self.epg@,
            routers: self.routers@,
        }
    }
}

/// Whether an operation on a worker goes ahead.
#[derive(Debug, Clone, Copy, PartialEq, Eq, Structural)]
pub enum Begin {
    /// There is nothing to do.
    Done,
    /// Another operation on the worker is under way.
    Busy,
    /// It goes ahead: the worker is locked until the operation ends.
    Go,
}

/// The start of a worker begins, unless it runs or is locked.
pub open spec fn start_begun(s: SupervisorState, id: u32) -> (SupervisorState, Begin) {
    if s.workers.contains(id) {
        (s, Begin::Done)
    } else if s.workers_lock.contains(id) {
        (s, Begin::Busy)
    } else {
        (SupervisorState { workers_lock: s.workers_lock.insert(id), ..s }, Begin::Go)
    }
}

/// The start of a worker ends.
pub open spec fn start_ended(s: SupervisorState, id: u32, started: bool) -> SupervisorState {
    SupervisorState {
        workers: if started {
            s.workers.insert(id)
        } else {
            s.workers
        },
        workers_lock: s.workers_lock.remove(id),
        ..s
    }
}

/// The stop of a worker begins, unless it does not run or is locked; from then
/// on it does not count as running.
pub open spec fn stop_begun(s: SupervisorState, id: u32) -> (SupervisorState, Begin) {
    if !s.workers.contains(id) {
        (s, Begin::Done)
    } else if s.workers_lock.contains(id) {
        (s, Begin::Busy)
    } else {
        (
            SupervisorState {
                workers: s.workers.remove(id),
                workers_lock: s.workers_lock.insert(id),
                ..s
            },
            Begin::Go,
        )
    }
}

/// The restart of a worker begins, unless it is locked. A worker that does not
/// run cannot be restarted.
pub open spec fn restart_begun(s: SupervisorState, id: u32) -> (
    SupervisorState,
    Result<Begin, SupervisorError>,
) {
    if s.workers_lock.contains(id) {
        (s, Ok(Begin::Busy))
    } else if !s.workers.contains(id) {
        (s, Err(SupervisorError::WorkerNotFound(id)))
    } else {
        (
            SupervisorState {
                workers: s.workers.remove(id),
                workers_lock: s.workers_lock.insert(id),
                ..s
            },
            Ok(Begin::Go),
        )
    }
}

/// A probe begins, unless one of the same worker is under way or the worker does
/// not run.
pub open spec fn probe_begun(s: SupervisorState, id: u32) -> (
    SupervisorState,
    Result<(), SupervisorError>,
) {
    if s.probe_lock.contains(id) {
        (s, Err(SupervisorError::ProbeInProcess(id)))
    } else if !s.workers.contains(id) {
        (s, Err(SupervisorError::ProbeWorkerNotFound(id)))
    } else {
        (SupervisorState { probe_lock: s.probe_lock.insert(id), ..s }, Ok(()))
    }
}

/// The first guide with an identifier.
pub open spec fn epg_index(c: Seq<EpgConfig>, id: u32) -> Option<int>
    decreases c.len(),
{
    if c.len() == 0 {
        None
    } else if c[0].id == id {
        Some(0)
    } else {
        match epg_index(c.drop_first(), id) {
            Some(i) => Some(i + 1),
            None => None,
        }
    }
}

fn find_epg(c: &Vec<EpgConfig>, id: u32) -> (r: Option<usize>)
    ensures
        r is Some == epg_index(c@, id) is Some,
        r matches Some(i) ==> epg_index(c@, id) == Some(i as int) && i < c@.len(),
{
    let mut i: usize = 0;
    assert(c@.skip(0) =~= c@);
    while i < c.len()
        invariant
            i <= c@.len(),
            epg_index(c@, id) is Some == epg_index(c@.skip(i as int), id) is Some,
            epg_index(c@, id) is Some ==> epg_index(c@, id)->0 == i + epg_index(
                c@.skip(i as int),
                id,
            )->0,
        decreases c@.len() - i,
    {
        assert(c@.skip(i as int).drop_first() =~= c@.skip(i + 1));
        if c[i].id == id {
            return Some(i);
        }
        i = i + 1;
    }
    None
}

/// A guide begins to be sent, unless it is sent already or is not configured:
/// its place in the configuration.
pub open spec fn epg_begun(s: SupervisorState, id: u32) -> (
    SupervisorState,
    Result<int, SupervisorError>,
) {
    if s.epg.contains(id) {
        (s, Err(SupervisorError::EpgRunning(id)))
    } else {
        match s.config {
            None => (s, Err(SupervisorError::ConfigNotLoaded)),
            Some(c) => match epg_index(c.epg_configs@, id) {
                None => (s, Err(SupervisorError::EpgConfigNotFound(id))),
                Some(i) => (SupervisorState { epg: s.epg.insert(id), ..s }, Ok(i)),
            },
        }
    }
}

impl Supervisor {
    pub fn new() -> (r: Self)
        ensures
            r@ == (SupervisorState {
                src_config: None,
                config: None,
                dirty: false,
                last_update: 0,
                workers: Set::empty(),
                workers_lock: Set::empty(),
                probe_lock: Set::empty(),
                dumps: Set::empty(),
                epg: Set::empty(),
                routers: Set::empty(),
            }),
    {
        Supervisor {
            src_config: None,
            config: None,
            dirty: false,
            last_update: 0,
            workers: HashSet::new(),
            workers_lock: HashSet::new(),
            probe_lock: HashSet::new(),
            dumps: HashSet::new(),
            epg: HashSet::new(),
            routers: HashSet::new(),
        }
    }

    /// The text of the configuration, empty where none is loaded.
    pub fn get_config(&self) -> (r: String)
        ensures
            r@ == match self@.src_config {
                Some(t) => t,
                None => Seq::empty(),
            },
    {
        match &self.src_config {
            Some(t) => t.clone(),
            None => String::new(),
        }
    }

    /// The configuration, if one is loaded.
    pub fn config(&self) -> (r: Option<&Config>)
        ensures
            (match r {
                Some(c) => Some(*c),
                None => None,
            }) == self@.config,
    {
        match &self.config {
            Some(c) => Some(c),
            None => None,
        }
    }

    /// Takes over a configuration and its text, if it is valid.
    pub fn load(&mut self, cfg_json: String, cfg: Config) -> (r: Result<(), String>)
        ensures
            r is Ok == config_fault(cfg.streams@) is None,
            r matches Err(e) ==> config_fault(cfg.streams@) == Some(e@) && final(self)@
                == old(self)@,
            r is Ok ==> final(self)@ == (SupervisorState {
                src_config: Some(cfg_json@),
                config: Some(cfg),
                ..old(self)@
            }),
    {
        match validate_config(&cfg) {
            Ok(_) => {},
            Err(e) => {
                return Err(e);
            },
        }
        self.src_config = Some(cfg_json);
        self.config = Some(cfg);
        Ok(())
    }

    /// The configuration has changed at a time.
    pub fn mark_dirty(&mut self, now_secs: i64)
        ensures
            final(self)@ == (SupervisorState {
                dirty: true,
                last_update: now_secs,
                ..old(self)@
            }),
    {
        self.dirty = true;
        self.last_update = now_secs;
    }

    /// The text that is to be saved.
    pub fn source_to_save(&self) -> (r: Result<String, SupervisorError>)
        ensures
            match self@.src_config {
                Some(t) => r matches Ok(s) && s@ == t,
                None => r matches Err(e) && e == SupervisorError::ConfigNotLoaded,
            },
    {
        match &self.src_config {
            Some(t) => Ok(t.clone()),
            None => Err(SupervisorError::ConfigNotLoaded),
        }
    }

    /// The configuration was saved.
    pub fn saved(&mut self)
        ensures
            final(self)@ == (SupervisorState { dirty: false, ..old(self)@ }),
    {
        self.dirty = false;
    }

    /// Whether a configuration that has changed is saved now: more than a quarter
    /// of an hour after the last change.
    pub fn autosave_due(&self, now_secs: i64) -> (r: bool)
        ensures
            r == (self@.dirty && now_secs - self@.last_update > SAVE_PERIOD_SEC),
    {
        self.dirty && now_secs as i128 - self.last_update as i128 > SAVE_PERIOD_SEC as i128
    }

    /// The identifiers of the streams that are configured, in their order; none
    /// where no configuration is loaded.
    pub fn stream_ids(&self) -> (r: Option<Vec<u32>>)
        ensures
            match self@.config {
                Some(c) => r matches Some(ids) && ids@ == c.streams@.map_values(|s: Stream| s.id),
                None => r is None,
            },
    {
        match &self.config {
            Some(c) => {
                let mut ids: Vec<u32> = Vec::new();
                let mut i: usize = 0;
                while i < c.streams.len()
                    invariant
                        i <= c.streams@.len(),
                        ids@ == c.streams@.take(i as int).map_values(|s: Stream| s.id),
                    decreases c.streams@.len() - i,
                {
                    ids.push(c.streams[i].id);
                    i = i + 1;
                    assert(ids@ =~= c.streams@.take(i as int).map_values(|s: Stream| s.id));
                }
                assert(c.streams@.take(c.streams@.len() as int) =~= c.streams@);
                Some(ids)
            },
            None => None,
        }
    }

    /// The stream that a worker is started for.
    pub fn stream_to_start(&self, id: u32) -> (r: Result<&Stream, SupervisorError>)
        ensures
            match self@.config {
                None => r matches Err(e) && e == SupervisorError::ConfigNotFound,
                Some(c) => match stream_index(c.streams@, id) {
                    Some(i) => r matches Ok(s) && *s == c.streams@[i],
                    None => r matches Err(e) && e == SupervisorError::StreamNotFound(id),
                },
            },
    {
        match &self.config {
            Some(c) => match c.get_stream(id) {
                Some(s) => Ok(s),
                None => Err(SupervisorError::StreamNotFound(id)),
            },
            None => Err(SupervisorError::ConfigNotFound),
        }
    }

    /// Whether a worker counts as running.
    pub fn is_running(&self, id: u32) -> (r: bool)
        ensures
            r == self@.workers.contains(id),
    {
        self.workers.contains(&id)
    }

    /// The start of a worker begins.
    pub fn begin_start(&mut self, id: u32) -> (r: Begin)
        ensures
            (final(self)@, r) == start_begun(old(self)@, id),
    {
        if self.workers.contains(&id) {
            return Begin::Done;
        }
        if self.workers_lock.contains(&id) {
            return Begin::Busy;
        }
        self.workers_lock.insert(id);
        Begin::Go
    }

    /// The start of a worker, or its restart, ends.
    pub fn end_start(&mut self, id: u32, started: bool)
        ensures
            final(self)@ == start_ended(old(self)@, id, started),
    {
        if started {
            self.workers.insert(id);
        }
        self.workers_lock.remove(&id);
    }

    /// The stop of a worker begins.
    pub fn begin_stop(&mut self, id: u32) -> (r: Begin)
        ensures
            (final(self)@, r) == stop_begun(old(self)@, id),
    {
        if !self.workers.contains(&id) {
            return Begin::Done;
        }
        if self.workers_lock.contains(&id) {
            return Begin::Busy;
        }
        self.workers_lock.insert(id);
        self.workers.remove(&id);
        Begin::Go
    }

    /// The stop of a worker ends.
    pub fn end_stop(&mut self, id: u32)
        ensures
            final(self)@ == start_ended(old(self)@, id, false),
    {
        self.workers_lock.remove(&id);
    }

    /// The restart of a worker begins.
    pub fn begin_restart(&mut self, id: u32) -> (r: Result<Begin, SupervisorError>)
        ensures
            (final(self)@, r) == restart_begun(old(self)@, id),
    {
        if self.workers_lock.contains(&id) {
            return Ok(Begin::Busy);
        }
        if !self.workers.contains(&id) {
            return Err(SupervisorError::WorkerNotFound(id));
        }
        self.workers_lock.insert(id);
        self.workers.remove(&id);
        Ok(Begin::Go)
    }

    /// A worker was found to have ended.
    pub fn forget_worker(&mut self, id: u32)
        ensures
            final(self)@ == (SupervisorState {
                workers: old(self)@.workers.remove(id),
                ..old(self)@
            }),
    {
        self.workers.remove(&id);
    }

    /// A probe of a worker begins.
    pub fn begin_probe(&mut self, id: u32) -> (r: Result<(), SupervisorError>)
        ensures
            (final(self)@, r) == probe_begun(old(self)@, id),
    {
        if self.probe_lock.contains(&id) {
            return Err(SupervisorError::ProbeInProcess(id));
        }
        if !self.workers.contains(&id) {
            return Err(SupervisorError::ProbeWorkerNotFound(id));
        }
        self.probe_lock.insert(id);
        Ok(())
    }

    /// A probe of a worker ends.
    pub fn end_probe(&mut self, id: u32)
        ensures
            final(self)@ == (SupervisorState {
                probe_lock: old(self)@.probe_lock.remove(id),
                ..old(self)@
            }),
    {
        self.probe_lock.remove(&id);
    }

    /// An output begins to be dumped.
    pub fn begin_dump(&mut self, id: u32)
        ensures
            final(self)@ == (SupervisorState {
                dumps: old(self)@.dumps.insert(id),
                ..old(self)@
            }),
    {
        self.dumps.insert(id);
    }

    /// An output is no longer dumped; an error where it was not.
    pub fn end_dump(&mut self, id: u32) -> (r: Result<(), SupervisorError>)
        ensures
            final(self)@ == (SupervisorState {
                dumps: old(self)@.dumps.remove(id),
                ..old(self)@
            }),
            r == if old(self)@.dumps.contains(id) {
                Ok::<(), SupervisorError>(())
            } else {
                Err(SupervisorError::DumpNotFound(id))
            },
    {
        if self.dumps.remove(&id) {
            Ok(())
        } else {
            Err(SupervisorError::DumpNotFound(id))
        }
    }

    /// A guide begins to be sent: its place in the configuration.
    pub fn begin_epg(&mut self, id: u32) -> (r: Result<usize, SupervisorError>)
        ensures
            final(self)@ == epg_begun(old(self)@, id).0,
            match epg_begun(old(self)@, id).1 {
                Ok(i) => r matches Ok(k) && k == i,
                Err(e) => r matches Err(x) && x == e,
            },
    {
        if self.epg.contains(&id) {
            return Err(SupervisorError::EpgRunning(id));
        }
        let place: usize = match &self.config {
            None => return Err(SupervisorError::ConfigNotLoaded),
            Some(c) => match find_epg(&c.epg_configs, id) {
                None => return Err(SupervisorError::EpgConfigNotFound(id)),
                Some(i) => i,
            },
        };
        self.epg.insert(id);
        Ok(place)
    }

    /// A guide is no longer sent; an error where it was not.
    pub fn end_epg(&mut self, id: u32) -> (r: Result<(), SupervisorError>)
        ensures
            final(self)@ == (SupervisorState { epg: old(self)@.epg.remove(id), ..old(self)@ }),
            r == if old(self)@.epg.contains(id) {
                Ok::<(), SupervisorError>(())
            } else {
                Err(SupervisorError::EpgNotRunning)
            },
    {
        if self.epg.remove(&id) {
            Ok(())
        } else {
            Err(SupervisorError::EpgNotRunning)
        }
    }

    /// A router starts, unless it runs.
    pub fn begin_router(&mut self, id: u32) -> (r: bool)
        ensures
            r == !old(self)@.routers.contains(id),
            final(self)@ == (SupervisorState {
                routers: old(self)@.routers.insert(id),
                ..old(self)@
            }),
    {
        let fresh = !self.routers.contains(&id);
        self.routers.insert(id);
        fresh
    }

    /// Whether a router runs.
    pub fn is_router_running(&self, id: u32) -> (r: bool)
        ensures
            r == self@.routers.contains(id),
    {
        self.routers.contains(&id)
    }

    /// A router stops; an error where it does not run.
    pub fn end_router(&mut self, id: u32) -> (r: Result<(), SupervisorError>)
        ensures
            final(self)@ == (SupervisorState {
                routers: old(self)@.routers.remove(id),
                ..old(self)@
            }),
            r == if old(self)@.routers.contains(id) {
                Ok::<(), SupervisorError>(())
            } else {
                Err(SupervisorError::RouterNotRunning(id))
            },
    {
        if self.routers.remove(&id) {
            Ok(())
        } else {
            Err(SupervisorError::RouterNotRunning(id))
        }
    }

    /// Whether an address is kept out by the configuration; nobody is where none
    /// is loaded. No answer where a text that has to be looked at is no address
    /// or no network.
    pub fn is_forbidden(&self, ip: &str) -> (r: Option<bool>)
        ensures
            r == match self@.config {
                Some(c) => forbidden(address_of(ip@), networks_of(c.mgnt.allow@)),
                None => Some(false),
            },
    {
        match &self.config {
            Some(c) => is_forbidden(ip, &c.mgnt.allow),
            None => Some(false),
        }
    }

    /// What is answered to a peer that is refused; nothing where it is let in. `ip`
    /// is its address, `peer` the address with the port. No answer where a text that
    /// has to be looked at is no address or no network.
    pub fn refusal(&self, ip: &str, peer: &str, version_4: bool) -> (r: Option<Option<String>>)
        ensures
            (match r {
                Some(Some(t)) => Some(Some(t@)),
                Some(None) => Some(None),
                None => None,
            }) == refusal_text(
                peer@,
                version_4,
                match self@.config {
                    Some(c) => forbidden(address_of(ip@), networks_of(c.mgnt.allow@)),
                    None => Some(false),
                },
            ),
    {
        if !version_4 {
            return Some(Some(String::from_str("Access denied")));
        }
        match self.is_forbidden(ip) {
            Some(true) => Some(Some(joined("Access denied ", peer))),
            Some(false) => Some(None),
            None => None,
        }
    }
}

/// What is answered to a peer that is refused; nothing where it is let in. Only
/// peers with an address of version 4 are let in, unless they are kept out.
pub open spec fn refusal_text(
    peer: Seq<char>,
    version_4: bool,
    kept_out: Option<bool>,
) -> Option<Option<Seq<char>>> {
    if !version_4 {
        Some(Some("Access denied"@))
    } else {
        match kept_out {
            Some(true) => Some(Some("Access denied "@ + peer)),
            Some(false) => Some(None),
            None => None,
        }
    }
}

/// A worker is never running and being started at once: what begins a start
/// locks it, and what ends it unlocks it.
pub proof fn law_start_locks(s: SupervisorState, id: u32, started: bool)
    ensures
        ({
            let (t, begin) = start_begun(s, id);
            &&& begin == Begin::Go ==> t.workers_lock.contains(id) && !t.workers.contains(id)
                && start_begun(t, id).1 == Begin::Busy && restart_begun(t, id).1 == Ok::<
                Begin,
                SupervisorError,
            >(Begin::Busy)
            &&& begin == Begin::Go ==> !start_ended(t, id, started).workers_lock.contains(id)
                && start_ended(t, id, started).workers.contains(id) == started
            &&& begin != Begin::Go ==> t == s
        }),
{
}

/// A stop undoes a start: after both the worker does not run, and nothing else
/// has changed.
pub proof fn law_stop_undoes_start(s: SupervisorState, id: u32)
    requires
        !s.workers.contains(id),
        !s.workers_lock.contains(id),
    ensures
        ({
            let running = start_ended(start_begun(s, id).0, id, true);
            let stopped = start_ended(stop_begun(running, id).0, id, false);
            &&& start_begun(s, id).1 == Begin::Go
            &&& stop_begun(running, id).1 == Begin::Go
            &&& stopped == s
        }),
{
    let running = start_ended(start_begun(s, id).0, id, true);
    let stopped = start_ended(stop_begun(running, id).0, id, false);
    assert(stopped =~= s);
}

// ---- Dumps ----

/// The scheme under which an output is read for a dump.
pub open spec fn dump_scheme(task_type: Seq<char>) -> Option<Seq<char>> {
    if task_type == "http"@ || task_type == "udp"@ || task_type == "rtp"@ {
        Some(task_type)
    } else {
        None
    }
}

/// The first output with an identifier.
pub open spec fn output_index(outputs: Seq<Output>, id: u32) -> Option<int>
    decreases outputs.len(),
{
    if outputs.len() == 0 {
        None
    } else if outputs[0].id == id {
        Some(0)
    } else {
        match output_index(outputs.drop_first(), id) {
            Some(i) => Some(i + 1),
            None => None,
        }
    }
}

fn find_output(outputs: &Vec<Output>, id: u32) -> (r: Option<usize>)
    ensures
        r is Some == output_index(outputs@, id) is Some,
        r matches Some(i) ==> output_index(outputs@, id) == Some(i as int) && i < outputs@.len(),
{
    let mut i: usize = 0;
    assert(outputs@.skip(0) =~= outputs@);
    while i < outputs.len()
        invariant
            i <= outputs@.len(),
            output_index(outputs@, id) is Some == output_index(outputs@.skip(i as int), id) is Some,
            output_index(outputs@, id) is Some ==> output_index(outputs@, id)->0 == i
                + output_index(outputs@.skip(i as int), id)->0,
        decreases outputs@.len() - i,
    {
        assert(outputs@.skip(i as int).drop_first() =~= outputs@.skip(i + 1));
        if outputs[i].id == id {
            return Some(i);
        }
        i = i + 1;
    }
    None
}

/// The output of a stream that is dumped, if it has it and it is sent in a way
/// that can be read.
pub open spec fn dump_of_stream(stream: Stream, output_id: u32) -> Option<Output> {
    match output_index(stream.outputs@, output_id) {
        Some(i) if dump_scheme(stream.outputs@[i].task_type@) is Some => Some(stream.outputs@[i]),
        _ => None,
    }
}

/// The stream by which an output of another is dumped: what the output sends is
/// taken in again.
pub open spec fn is_dump(d: Stream, stream: Stream, o: Output) -> bool {
    &&& d.id == stream.id
    &&& d.remote_url@ == o.task_type@ + "://"@ + o.output_url@
    &&& d.biss_key@ == o.biss_key@
    &&& d.name@ == o.name@ + "_dump"@
    &&& d.task_type@ == o.task_type@
    &&& d.outputs@.len() == 0
    &&& d.err_count == 0
}

/// The stream by which an output of a worker is dumped.
pub fn dump_config(stream: &Stream, output_id: u32) -> (r: Option<Stream>)
    ensures
        r is Some == dump_of_stream(*stream, output_id) is Some,
        r matches Some(d) ==> is_dump(d, *stream, dump_of_stream(*stream, output_id)->0),
{
    let i: usize = match find_output(&stream.outputs, output_id) {
        Some(i) => i,
        None => return None,
    };
    let o = &stream.outputs[i];
    let t = o.task_type.as_str();
    if !(same_text(t, "http") || same_text(t, "udp") || same_text(t, "rtp")) {
        return None;
    }
    let mut remote_url = String::from_str(t);
    remote_url.append("://");
    remote_url.append(o.output_url.as_str());
    let mut name = o.name.clone();
    name.append("_dump");
    Some(
        Stream {
            id: stream.id,
            remote_url,
            biss_key: o.biss_key.clone(),
            name,
            task_type: o.task_type.clone(),
            outputs: Vec::new(),
            err_count: 0,
        },
    )
}

/// The dump that is asked for, or why it is not made.
pub fn dump_of(stream: Option<&Stream>, output_id: u32) -> (r: Result<Stream, SupervisorError>)
    ensures
        (stream is None || dump_of_stream(*stream->0, output_id) is None) == r is Err,
        r matches Err(e) ==> e == SupervisorError::OutputNotFound(output_id),
        r matches Ok(d) ==> is_dump(d, *stream->0, dump_of_stream(*stream->0, output_id)->0),
{
    match stream {
        Some(s) => match dump_config(s, output_id) {
            Some(d) => Ok(d),
            None => Err(SupervisorError::OutputNotFound(output_id)),
        },
        None => Err(SupervisorError::OutputNotFound(output_id)),
    }
}

/// What is answered to who asks for a dump that cannot be made.
pub fn dump_failed(id: u32, e: &SupervisorError) -> (r: String)
    ensures
        r@ == "Failed to create dump for p"@ + decimal(id as int) + ": "@ + error_text(*e),
{
    let mut t = numbered("Failed to create dump for p", id, ": ");
    t.append(e.message().as_str());
    t
}

/// What is answered to who ends a dump: a status and a text.
pub fn dump_stopped(id: u32, result: &Result<(), SupervisorError>) -> (r: (u16, String))
    ensures
        match result {
            Ok(_) => r.0 == 200 && r.1@ == "Dump for p"@ + decimal(id as int) + " stopped"@,
            Err(e) => r.0 == 404 && r.1@ == "Failed to stop dump for p"@ + decimal(id as int)
                + ": "@ + error_text(*e),
        },
{
    match result {
        Ok(_) => (200, numbered("Dump for p", id, " stopped")),
        Err(e) => {
            let mut t = numbered("Failed to stop dump for p", id, ": ");
            t.append(e.message().as_str());
            (404, t)
        },
    }
}

/// A worker is stopped or started again just where it runs and no other operation on it is
/// under way; from then on it does not count as running, and every other operation on it
/// has to wait. One that does not run is not started again.
pub proof fn law_stop_goes_ahead(s: SupervisorState, id: u32)
    ensures
        ({
            let free = s.workers.contains(id) && !s.workers_lock.contains(id);
            let (t, stop) = stop_begun(s, id);
            let (u, again) = restart_begun(s, id);
            &&& stop == Begin::Go <==> free
            &&& again == Ok::<Begin, SupervisorError>(Begin::Go) <==> free
            &&& free ==> t == u && !t.workers.contains(id) && t.workers_lock.contains(id)
                && start_begun(t, id).1 == Begin::Busy && stop_begun(t, id).1 == Begin::Done
                && restart_begun(t, id).1 == Ok::<Begin, SupervisorError>(Begin::Busy)
            &&& !free ==> t == s && u == s
            &&& !s.workers.contains(id) ==> stop == Begin::Done
            &&& s.workers.contains(id) && s.workers_lock.contains(id) ==> stop == Begin::Busy
            &&& again is Err <==> !s.workers.contains(id) && !s.workers_lock.contains(id)
        }),
{
}

/// A start goes ahead just where the worker does not run and no other operation on it is
/// under way. One that runs needs none.
pub proof fn law_start_goes_ahead(s: SupervisorState, id: u32)
    ensures
        start_begun(s, id).1 == Begin::Go <==> !s.workers.contains(id) && !s.workers_lock.contains(
            id,
        ),
        start_begun(s, id).1 == Begin::Done <==> s.workers.contains(id),
{
}

/// An operation on one worker touches no other.
pub proof fn law_workers_are_apart(s: SupervisorState, id: u32, other: u32, started: bool)
    requires
        id != other,
    ensures
        forall|t: SupervisorState|
            (t == start_begun(s, id).0 || t == start_ended(s, id, started) || t == stop_begun(
                s,
                id,
            ).0 || t == restart_begun(s, id).0 || t == probe_begun(s, id).0) ==> (
            #[trigger] t.workers.contains(other)) == s.workers.contains(other)
                && t.workers_lock.contains(other) == s.workers_lock.contains(other)
                && t.probe_lock.contains(other) == s.probe_lock.contains(other) && t.epg == s.epg
                && t.dumps == s.dumps && t.routers == s.routers && t.config == s.config,
{
}

/// A probe goes ahead just where the worker runs and none of it is under way; a second one
/// is refused until the first has ended. It neither starts nor stops a worker.
pub proof fn law_one_probe_at_a_time(s: SupervisorState, id: u32)
    ensures
        ({
            let (t, r) = probe_begun(s, id);
            &&& r is Ok <==> s.workers.contains(id) && !s.probe_lock.contains(id)
            &&& r is Ok ==> probe_begun(t, id).1 == Err::<(), SupervisorError>(
                SupervisorError::ProbeInProcess(id),
            )
            &&& r is Err ==> t == s
            &&& t.workers == s.workers && t.workers_lock == s.workers_lock
        }),
{
}

/// A guide is started just where a configuration lists it and it does not run yet; what is
/// started is the first one of the list with its identifier.
pub proof fn law_guide_starts_once(s: SupervisorState, id: u32)
    ensures
        ({
            let (t, r) = epg_begun(s, id);
            let listed = s.config matches Some(c) && exists|i: int|
                0 <= i < c.epg_configs@.len() && (#[trigger] c.epg_configs@[i]).id == id;
            &&& r is Ok <==> listed && !s.epg.contains(id)
            &&& r is Ok ==> t.epg.contains(id) && epg_begun(t, id).1 is Err
            &&& r matches Ok(i) ==> 0 <= i < (s.config->0).epg_configs@.len() && (
            s.config->0).epg_configs@[i].id == id && forall|k: int|
                0 <= k < i ==> (#[trigger] (s.config->0).epg_configs@[k]).id != id
            &&& r is Err ==> t == s
            &&& t.workers == s.workers && t.workers_lock == s.workers_lock
        }),
{
    if let Some(c) = s.config {
        lemma_epg_index(c.epg_configs@, id);
    }
}

proof fn lemma_epg_index(c: Seq<EpgConfig>, id: u32)
    ensures
        match epg_index(c, id) {
            Some(i) => 0 <= i < c.len() && c[i].id == id && forall|k: int|
                0 <= k < i ==> (#[trigger] c[k]).id != id,
            None => forall|k: int| 0 <= k < c.len() ==> (#[trigger] c[k]).id != id,
        },
    decreases c.len(),
{
    if c.len() > 0 && c[0].id != id {
        let rest = c.drop_first();
        lemma_epg_index(rest, id);
        assert forall|k: int| 0 < k < c.len() implies #[trigger] c[k] == rest[k - 1] by {}
    }
}

/// An output is dumped just where the first one with its identifier is sent in a way that
/// can be read back.
pub proof fn law_first_output_is_dumped(stream: Stream, id: u32, i: int)
    requires
        0 <= i < stream.outputs@.len(),
        stream.outputs@[i].id == id,
        forall|k: int| 0 <= k < i ==> (#[trigger] stream.outputs@[k]).id != id,
    ensures
        ({
            let t = stream.outputs@[i].task_type@;
            dump_of_stream(stream, id) == if t == "http"@ || t == "udp"@ || t == "rtp"@ {
                Some(stream.outputs@[i])
            } else {
                None
            }
        }),
{
    lemma_output_index(stream.outputs@, id, i);
}

proof fn lemma_output_index(outputs: Seq<Output>, id: u32, i: int)
    requires
        0 <= i < outputs.len(),
        outputs[i].id == id,
        forall|k: int| 0 <= k < i ==> (#[trigger] outputs[k]).id != id,
    ensures
        output_index(outputs, id) == Some(i),
    decreases outputs.len(),
{
    if i > 0 {
        assert(outputs[0].id != id);
        let rest = outputs.drop_first();
        assert forall|k: int| 0 <= k < i - 1 implies (#[trigger] rest[k]).id != id by {
            assert(rest[k] == outputs[k + 1]);
        }
        lemma_output_index(rest, id, i - 1);
    }
}

/// Of errors one after the other, the first is reported, and then each time that as many
/// have come as fit into a minute; those between are not.
pub proof fn law_errors_in_a_row(c: ErrCounter, n: nat)
    requires
        c.count == 0,
        c.per_min >= 1,
    ensures
        n > 0 ==> 1 <= after_errors(c, n).count <= c.per_min && after_errors(c, n).count == (n - 1)
            % c.per_min as int + 1,
        after_errors(c, n).per_min == c.per_min,
        err_counted(after_errors(c, n)).1 == if n == 0 {
            ErrReport::Error
        } else if n % c.per_min as nat == 0 {
            ErrReport::Count(c.per_min)
        } else {
            ErrReport::Nothing
        },
    decreases n,
{
    let m = c.per_min as int;
    if n > 0 {
        law_errors_in_a_row(c, (n - 1) as nat);
        let before = after_errors(c, (n - 1) as nat);
        if n == 1 {
            vstd::arithmetic::div_mod::lemma_small_mod(0, m as nat);
        } else {
            lemma_next_mod(n - 2, m);
        }
        lemma_next_mod(n - 1, m);
    }
}

proof fn lemma_next_mod(k: int, m: int)
    requires
        m >= 1,
        k >= 0,
    ensures
        (k + 1) % m == if k % m + 1 == m {
            0
        } else {
            k % m + 1
        },
        0 <= k % m < m,
{
    vstd::arithmetic::div_mod::lemma_fundamental_div_mod(k, m);
    vstd::arithmetic::div_mod::lemma_mod_bound(k, m);
    let q = k / m;
    let r = k % m;
    if r + 1 == m {
        assert(k + 1 == (q + 1) * m + 0) by (nonlinear_arith)
            requires
                k == m * q + r,
                r + 1 == m,
        ;
        vstd::arithmetic::div_mod::lemma_fundamental_div_mod_converse(k + 1, m, q + 1, 0);
    } else {
        assert(k + 1 == q * m + (r + 1)) by (nonlinear_arith)
            requires
                k == m * q + r,
        ;
        vstd::arithmetic::div_mod::lemma_fundamental_div_mod_converse(k + 1, m, q, r + 1);
    }
}

/// A counter after a number of errors.
pub open spec fn after_errors(c: ErrCounter, n: nat) -> ErrCounter
    decreases n,
{
    if n == 0 {
        c
    } else {
        err_counted(after_errors(c, (n - 1) as nat)).0
    }
}

} // verus!
