//! The thumbnail cache as a state machine.
//!
//! Serving a thumbnail alternates decisions with work on the outside: making
//! sure of the cache directory, looking for the cached file, reading,
//! claiming the key, writing. A `ThumbnailJob` holds the decisions. It says
//! what is to be done next (`action`), is told how that went (`step`), and in
//! the end holds the result. Whoever drives it does the work and nothing
//! else.
//!
//! The cached file's presence is the only record that a thumbnail exists. A
//! file that is there is returned as it is: it is not checked, and it is not
//! compared with the source.

use crate::image_processing::{
    is_thumbnail, outcome_of, render_thumbnail, rendered, thumbnail_shaped, ErrorKind, Failure,
    ThumbnailError,
};
use crate::utils::{cache_key, cache_key_of, cache_path_of, get_cache_path};
use vstd::prelude::*;

verus! {

/// Where a job stands.
pub enum Phase {
    /// Making sure that the cache directory is there.
    Preparing,
    /// Asking whether the cached file is there. `holding` says whether this
    /// job has claimed its key.
    Probing { holding: bool },
    /// Reading the cached file.
    ReadingArtifact { holding: bool },
    /// Asking for the key, to generate the thumbnail alone.
    Claiming,
    /// Waiting for the request that holds the key.
    Waiting,
    /// Reading the source image.
    ReadingSource,
    /// Writing the new thumbnail into the cache.
    Storing { artifact: Vec<u8> },
    /// Giving the key up, with the result in hand.
    Releasing { outcome: Result<Vec<u8>, ThumbnailError> },
    /// Done.
    Finished { outcome: Result<Vec<u8>, ThumbnailError> },
}

/// One request for a thumbnail, from its start to its result.
pub struct ThumbnailJob {
    cache_dir: String,
    source_path: String,
    key: String,
    artifact_path: String,
    phase: Phase,
}

/// What a job asks of its driver.
pub enum Action<'a> {
    /// Make sure that the directory at this path is there, with its parents.
    /// A session tries this once and remembers how it went (see
    /// `CacheDirectory`).
    EnsureDirectory(&'a str),
    /// Tell whether a file exists at this path.
    ProbeArtifact(&'a str),
    /// Read the whole file at this path.
    ReadArtifact(&'a str),
    /// Ask the guard for this key.
    Claim(&'a str),
    /// Wait until no request holds this key.
    AwaitRelease(&'a str),
    /// Read the whole source image at this path.
    ReadSource(&'a str),
    /// Put these bytes at this path, whole or not at all: no reader may ever
    /// find a part of them there.
    StoreArtifact(&'a str, &'a [u8]),
    /// Give this key back to the guard.
    Release(&'a str),
    /// Nothing is left to do: this is the result.
    Return(&'a Result<Vec<u8>, ThumbnailError>),
}

/// How the work that a job asked for went.
pub enum Event {
    /// That the directory is there, or why it could not be made.
    DirectoryReady(Result<(), String>),
    /// Whether the file exists.
    Probed(bool),
    /// The cached file's bytes, or why they could not be read.
    ArtifactRead(Result<Vec<u8>, String>),
    /// Whether the guard granted the key.
    Claimed(bool),
    /// The key is free again.
    Woken,
    /// The source's bytes, or why they could not be read.
    SourceRead(Result<Vec<u8>, String>),
    /// That the bytes were stored, or why they could not be.
    Stored(Result<(), String>),
    /// The key was given back.
    Released,
}

/// A phase as a value.
pub ghost enum Stage {
    Preparing,
    Probing { holding: bool },
    ReadingArtifact { holding: bool },
    Claiming,
    Waiting,
    ReadingSource,
    Storing { artifact: Seq<u8> },
    Releasing { outcome: Result<Seq<u8>, Failure> },
    Finished { outcome: Result<Seq<u8>, Failure> },
}

/// A job as a value.
pub ghost struct Job {
    pub cache_dir: Seq<char>,
    pub source_path: Seq<char>,
    pub key: Seq<char>,
    pub artifact_path: Seq<char>,
    pub stage: Stage,
}

/// An action as a value.
pub ghost enum Order {
    EnsureDirectory(Seq<char>),
    ProbeArtifact(Seq<char>),
    ReadArtifact(Seq<char>),
    Claim(Seq<char>),
    AwaitRelease(Seq<char>),
    ReadSource(Seq<char>),
    StoreArtifact(Seq<char>, Seq<u8>),
    Release(Seq<char>),
    Return(Result<Seq<u8>, Failure>),
}

/// An event as a value.
pub ghost enum Signal {
    DirectoryReady(Result<(), Seq<char>>),
    Probed(bool),
    ArtifactRead(Result<Seq<u8>, Seq<char>>),
    Claimed(bool),
    Woken,
    SourceRead(Result<Seq<u8>, Seq<char>>),
    Stored(Result<(), Seq<char>>),
    Released,
}

impl View for Phase {
    type V = Stage;

    open spec fn view(&self) -> Stage {
        match *self {
            Phase::Preparing => Stage::Preparing,
            Phase::Probing { holding } => Stage::Probing { holding },
            Phase::ReadingArtifact { holding } => Stage::ReadingArtifact { holding },
            Phase::Claiming => Stage::Claiming,
            Phase::Waiting => Stage::Waiting,
            Phase::ReadingSource => Stage::ReadingSource,
            Phase::Storing { artifact } => Stage::Storing { artifact: artifact@ },
            Phase::Releasing { outcome } => Stage::Releasing { outcome: outcome_of(outcome) },
            Phase::Finished { outcome } => Stage::Finished { outcome: outcome_of(outcome) },
        }
    }
}

impl View for ThumbnailJob {
    type V = Job;

    closed spec fn view(&self) -> Job {
        Job {
            cache_dir: self.cache_dir@,
            source_path: self.source_path@,
            key: self.key@,
            artifact_path: self.artifact_path@,
            stage: self.phase@,
        }
    }
}

impl<'a> View for Action<'a> {
    type V = Order;

    open spec fn view(&self) -> Order {
        match *self {
            Action::EnsureDirectory(path) => Order::EnsureDirectory(path@),
            Action::ProbeArtifact(path) => Order::ProbeArtifact(path@),
            Action::ReadArtifact(path) => Order::ReadArtifact(path@),
            Action::Claim(key) => Order::Claim(key@),
            Action::AwaitRelease(key) => Order::AwaitRelease(key@),
            Action::ReadSource(path) => Order::ReadSource(path@),
            Action::StoreArtifact(path, bytes) => Order::StoreArtifact(path@, bytes@),
            Action::Release(key) => Order::Release(key@),
            Action::Return(outcome) => Order::Return(outcome_of(*outcome)),
        }
    }
}

/// What was read, as a value.
pub open spec fn read_of(read: Result<Vec<u8>, String>) -> Result<Seq<u8>, Seq<char>> {
    match read {
        Ok(bytes) => Ok(bytes@),
        Err(text) => Err(text@),
    }
}

/// How writing went, as a value.
pub open spec fn written_of(stored: Result<(), String>) -> Result<(), Seq<char>> {
    match stored {
        Ok(_) => Ok(()),
        Err(text) => Err(text@),
    }
}

impl View for Event {
    type V = Signal;

    open spec fn view(&self) -> Signal {
        match *self {
            Event::DirectoryReady(made) => Signal::DirectoryReady(written_of(made)),
            Event::Probed(exists) => Signal::Probed(exists),
            Event::ArtifactRead(read) => Signal::ArtifactRead(read_of(read)),
            Event::Claimed(granted) => Signal::Claimed(granted),
            Event::Woken => Signal::Woken,
            Event::SourceRead(read) => Signal::SourceRead(read_of(read)),
            Event::Stored(stored) => Signal::Stored(written_of(stored)),
            Event::Released => Signal::Released,
        }
    }
}

/// The job that serves the thumbnail of `source_path` from the cache in
/// `cache_dir`: it begins by making sure of the directory.
pub open spec fn start_of(cache_dir: Seq<char>, source_path: Seq<char>) -> Job {
    Job {
        cache_dir,
        source_path,
        key: cache_key_of(source_path),
        artifact_path: cache_path_of(cache_dir, source_path),
        stage: Stage::Preparing,
    }
}

/// What holds of every job: its key and the path of its cached file are
/// those of its source path, and what it is about to store is a thumbnail.
pub open spec fn is_request(job: Job) -> bool {
    &&& job.key == cache_key_of(job.source_path)
    &&& job.artifact_path == cache_path_of(job.cache_dir, job.source_path)
    &&& job.stage matches Stage::Storing { artifact } ==> is_thumbnail(artifact)
}

/// What a job asks for at each stage.
pub open spec fn action_of(job: Job) -> Order {
    match job.stage {
        Stage::Preparing => Order::EnsureDirectory(job.cache_dir),
        Stage::Probing { holding } => Order::ProbeArtifact(job.artifact_path),
        Stage::ReadingArtifact { holding } => Order::ReadArtifact(job.artifact_path),
        Stage::Claiming => Order::Claim(job.key),
        Stage::Waiting => Order::AwaitRelease(job.key),
        Stage::ReadingSource => Order::ReadSource(job.source_path),
        Stage::Storing { artifact } => Order::StoreArtifact(job.artifact_path, artifact),
        Stage::Releasing { outcome } => Order::Release(job.key),
        Stage::Finished { outcome } => Order::Return(outcome),
    }
}

/// A failure of the given kind with the given text.
pub open spec fn failed(kind: ErrorKind, detail: Seq<char>) -> Result<Seq<u8>, Failure> {
    Err(Failure { kind, detail })
}

/// The stage that follows once a job holds its result: a job that holds its
/// key gives it up first.
pub open spec fn concluding(holding: bool, outcome: Result<Seq<u8>, Failure>) -> Stage {
    if holding {
        Stage::Releasing { outcome }
    } else {
        Stage::Finished { outcome }
    }
}

/// The stage that follows the reading of the source: its thumbnail is
/// rendered and waits to be stored, or the failure waits to be returned.
pub open spec fn after_source(source_path: Seq<char>, read: Result<Seq<u8>, Seq<char>>) -> Stage {
    match read {
        Err(text) => Stage::Releasing { outcome: failed(ErrorKind::SourceUnreadable, text) },
        Ok(source) => after_rendering(rendered(source, source_path)),
    }
}

/// The stage that follows rendering.
pub open spec fn after_rendering(outcome: Result<Seq<u8>, Failure>) -> Stage {
    match outcome {
        Ok(artifact) => Stage::Storing { artifact },
        Err(failure) => Stage::Releasing { outcome: Err(failure) },
    }
}

/// The stage that follows a stage on a signal. A signal that does not answer
/// what the stage asked for changes nothing.
///
/// - The cache directory is made if it is not there. If it cannot be made,
///   the request fails at once, and so will every other: no other place is
///   tried.
/// - The cached file is there: it is read and returned as it is, whether or
///   not the source still exists. If it cannot be read, the request fails.
/// - It is not there: the job asks for its key. If another request holds the
///   key, the job waits for it and then looks again. With the key, it looks
///   once more, so that what another request stored meanwhile is not made
///   twice; then it reads the source, renders, and stores.
/// - Whatever fails is the request's result; nothing is tried again, and
///   nothing is stored unless rendering succeeded.
/// - What is returned after storing is exactly what was stored.
/// - A job that took the key gives it up before it finishes.
pub open spec fn stage_after(stage: Stage, source_path: Seq<char>, signal: Signal) -> Stage {
    match (stage, signal) {
        (Stage::Preparing, Signal::DirectoryReady(Ok(_))) => Stage::Probing { holding: false },
        (Stage::Preparing, Signal::DirectoryReady(Err(text))) => Stage::Finished {
            outcome: failed(ErrorKind::CacheIOFailed, text),
        },
        (Stage::Probing { holding }, Signal::Probed(true)) => Stage::ReadingArtifact { holding },
        (Stage::Probing { holding: false }, Signal::Probed(false)) => Stage::Claiming,
        (Stage::Probing { holding: true }, Signal::Probed(false)) => Stage::ReadingSource,
        (Stage::ReadingArtifact { holding }, Signal::ArtifactRead(Ok(bytes))) => concluding(
            holding,
            Ok(bytes),
        ),
        (Stage::ReadingArtifact { holding }, Signal::ArtifactRead(Err(text))) => concluding(
            holding,
            failed(ErrorKind::CacheIOFailed, text),
        ),
        (Stage::Claiming, Signal::Claimed(true)) => Stage::Probing { holding: true },
        (Stage::Claiming, Signal::Claimed(false)) => Stage::Waiting,
        (Stage::Waiting, Signal::Woken) => Stage::Probing { holding: false },
        (Stage::ReadingSource, Signal::SourceRead(read)) => after_source(source_path, read),
        (Stage::Storing { artifact }, Signal::Stored(Ok(_))) => Stage::Releasing {
            outcome: Ok(artifact),
        },
        (Stage::Storing { artifact }, Signal::Stored(Err(text))) => Stage::Releasing {
            outcome: failed(ErrorKind::CacheIOFailed, text),
        },
        (Stage::Releasing { outcome }, Signal::Released) => Stage::Finished { outcome },
        _ => stage,
    }
}

/// The job that follows a job on a signal.
pub open spec fn step_of(job: Job, signal: Signal) -> Job {
    Job { stage: stage_after(job.stage, job.source_path, signal), ..job }
}

/// Begins to serve the thumbnail of the image at `path` from the cache in
/// `cache_dir`. Nothing is read yet, and `path` is taken as it is written:
/// two spellings of one file are two entries of the cache.
pub fn generate_thumbnail(cache_dir: &str, path: &str) -> (job: ThumbnailJob)
    ensures
        job@ == start_of(cache_dir@, path@),
        is_request(job@),
{
    ThumbnailJob {
        cache_dir: cache_dir.to_owned(),
        source_path: path.to_owned(),
        key: cache_key(path),
        artifact_path: get_cache_path(cache_dir, path),
        phase: Phase::Preparing,
    }
}

/// The phase in which a job that may hold its key has its result.
fn conclude(holding: bool, outcome: Result<Vec<u8>, ThumbnailError>) -> (phase: Phase)
    ensures
        phase@ == concluding(holding, outcome_of(outcome)),
{
    if holding {
        Phase::Releasing { outcome }
    } else {
        Phase::Finished { outcome }
    }
}

/// A failure of the given kind with the given text.
fn failure(kind: ErrorKind, detail: String) -> (outcome: Result<Vec<u8>, ThumbnailError>)
    ensures
        outcome_of(outcome) == failed(kind, detail@),
{
    Err(ThumbnailError { kind, detail })
}

/// The phase that follows rendering: a thumbnail waits to be stored, a
/// failure waits to be returned. Nothing is stored for a failure.
pub fn phase_after_rendering(outcome: Result<Vec<u8>, ThumbnailError>) -> (phase: Phase)
    ensures
        phase@ == after_rendering(outcome_of(outcome)),
        phase matches Phase::Storing { artifact } ==> outcome == Ok::<
            Vec<u8>,
            ThumbnailError,
        >(artifact),
{
    match outcome {
        Ok(artifact) => Phase::Storing { artifact },
        Err(error) => Phase::Releasing { outcome: Err(error) },
    }
}

impl ThumbnailJob {
    /// The path of the cache directory.
    pub fn cache_dir(&self) -> (path: &str)
        ensures
            path@ == self@.cache_dir,
    {
        self.cache_dir.as_str()
    }

    /// The path of the source image.
    pub fn source_path(&self) -> (path: &str)
        ensures
            path@ == self@.source_path,
    {
        self.source_path.as_str()
    }

    /// The cache key of the source path.
    pub fn key(&self) -> (key: &str)
        ensures
            key@ == self@.key,
    {
        self.key.as_str()
    }

    /// The path of the cached file.
    pub fn artifact_path(&self) -> (path: &str)
        ensures
            path@ == self@.artifact_path,
    {
        self.artifact_path.as_str()
    }

    /// Whether the job is done.
    pub fn is_finished(&self) -> (done: bool)
        ensures
            done == (self@.stage is Finished),
    {
        match &self.phase {
            Phase::Finished { .. } => true,
            _ => false,
        }
    }

    /// What the driver is to do next. Whatever is to be stored is a
    /// thumbnail.
    pub fn action(&self) -> (action: Action<'_>)
        ensures
            action@ == action_of(self@),
            is_request(self@) ==> (action matches Action::StoreArtifact(_, bytes) ==> is_thumbnail(
                bytes@,
            )),
    {
        match &self.phase {
            Phase::Preparing => Action::EnsureDirectory(self.cache_dir.as_str()),
            Phase::Probing { .. } => Action::ProbeArtifact(self.artifact_path.as_str()),
            Phase::ReadingArtifact { .. } => Action::ReadArtifact(self.artifact_path.as_str()),
            Phase::Claiming => Action::Claim(self.key.as_str()),
            Phase::Waiting => Action::AwaitRelease(self.key.as_str()),
            Phase::ReadingSource => Action::ReadSource(self.source_path.as_str()),
            Phase::Storing { artifact } => Action::StoreArtifact(
                self.artifact_path.as_str(),
                artifact.as_slice(),
            ),
            Phase::Releasing { .. } => Action::Release(self.key.as_str()),
            Phase::Finished { outcome } => Action::Return(outcome),
        }
    }

    /// Takes in how the work went and moves on. On reading the source this
    /// renders the thumbnail: where the source decodes to an image that can
    /// be scaled, the image that is encoded fits the box, fills it in one
    /// direction, and has the source's proportions to within a pixel.
    pub fn step(self, event: Event) -> (next: ThumbnailJob)
        ensures
            next@ == step_of(self@, event@),
            is_request(self@) ==> is_request(next@),
            self@.stage is ReadingSource ==> match event {
                Event::SourceRead(Ok(source)) => thumbnail_shaped(source@, self@.source_path),
                _ => true,
            },
    {
        let ThumbnailJob { cache_dir, source_path, key, artifact_path, phase } = self;
        let phase = match (phase, event) {
            (Phase::Preparing, Event::DirectoryReady(made)) => {
                match made {
                    Ok(_) => Phase::Probing { holding: false },
                    Err(text) => Phase::Finished {
                        outcome: failure(ErrorKind::CacheIOFailed, text),
                    },
                }
            },
            (Phase::Probing { holding }, Event::Probed(exists)) => {
                if exists {
                    Phase::ReadingArtifact { holding }
                } else if holding {
                    Phase::ReadingSource
                } else {
                    Phase::Claiming
                }
            },
            (Phase::ReadingArtifact { holding }, Event::ArtifactRead(read)) => {
                match read {
                    Ok(bytes) => conclude(holding, Ok(bytes)),
                    Err(text) => conclude(holding, failure(ErrorKind::CacheIOFailed, text)),
                }
            },
            (Phase::Claiming, Event::Claimed(granted)) => {
                if granted {
                    Phase::Probing { holding: true }
                } else {
                    Phase::Waiting
                }
            },
            (Phase::Waiting, Event::Woken) => Phase::Probing { holding: false },
            (Phase::ReadingSource, Event::SourceRead(read)) => {
                match read {
                    Ok(source) => phase_after_rendering(
                        render_thumbnail(source.as_slice(), source_path.as_str()),
                    ),
                    Err(text) => Phase::Releasing {
                        outcome: failure(ErrorKind::SourceUnreadable, text),
                    },
                }
            },
            (Phase::Storing { artifact }, Event::Stored(stored)) => {
                match stored {
                    Ok(_) => Phase::Releasing { outcome: Ok(artifact) },
                    Err(text) => Phase::Releasing {
                        outcome: failure(ErrorKind::CacheIOFailed, text),
                    },
                }
            },
            (Phase::Releasing { outcome }, Event::Released) => Phase::Finished { outcome },
            (phase, _) => phase,
        };
        ThumbnailJob { cache_dir, source_path, key, artifact_path, phase }
    }

    /// The result of a finished job; `None` while it is not finished.
    pub fn into_outcome(self) -> (outcome: Option<Result<Vec<u8>, ThumbnailError>>)
        ensures
            match outcome {
                Some(result) => self@.stage == (Stage::Finished { outcome: outcome_of(result) }),
                None => !(self@.stage is Finished),
            },
    {
        match self.phase {
            Phase::Finished { outcome } => Some(outcome),
            _ => None,
        }
    }
}

} // verus!
