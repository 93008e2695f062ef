use vstd::prelude::*;
use crate::config::MusicGenConfig;

verus! {

/// Lifecycle state of a job: `Queued → Running → Streaming → {Completed | Failed | Cancelled}`.
#[derive(PartialEq, Eq, Structural, Clone, Copy, Debug)]
pub enum JobStatus {
    Queued,
    Running,
    Streaming,
    Completed,
    Failed,
    Cancelled,
}

impl JobStatus {
    pub open spec fn spec_is_terminal(self) -> bool {
        self is Completed || self is Failed || self is Cancelled
    }

    /// Pipeline work has started and the job is not finished yet.
    pub open spec fn spec_is_in_flight(self) -> bool {
        self is Running || self is Streaming
    }

    /// Position in the lifecycle; a job's rank never decreases.
    pub open spec fn rank(self) -> nat {
        match self {
            JobStatus::Queued => 0,
            JobStatus::Running => 1,
            JobStatus::Streaming => 2,
            _ => 3,
        }
    }

    pub fn is_terminal(&self) -> (r: bool)
        ensures
            r == self.spec_is_terminal(),
    {
        match self {
            JobStatus::Completed | JobStatus::Failed | JobStatus::Cancelled => true,
            _ => false,
        }
    }
}

/// Classification of an execution-time failure.
#[derive(PartialEq, Eq, Structural, Clone, Copy, Debug)]
pub enum ErrorKind {
    /// An inference failure that may not recur on a new attempt.
    PipelineTransient,
    /// An inference failure that recurs for the same input.
    PipelineFatal,
    /// An unexpected crash inside pipeline execution.
    InternalError,
    /// The generated audio could not be persisted.
    StorageError,
}

/// Rejection of a `submit` call.
#[derive(PartialEq, Eq, Structural, Clone, Copy, Debug)]
pub enum AdmissionError {
    InvalidRequest,
    QueueFull,
}

/// Rejection of a `cancel` call.
#[derive(PartialEq, Eq, Structural, Clone, Copy, Debug)]
pub enum CancelError {
    JobNotFound,
    AlreadyFinished,
}

/// A generation request: prompt text plus generation configuration.
#[derive(Debug, Clone)]
pub struct GenerationRequest {
    pub prompt: String,
    pub config: MusicGenConfig,
}

impl GenerationRequest {
    /// Shape validation: a non-empty prompt and a configuration within bounds.
    pub open spec fn spec_is_valid(&self) -> bool {
        self.prompt@.len() > 0 && self.config.spec_valid()
    }

    pub fn is_valid(&self) -> (r: bool)
        ensures
            r == self.spec_is_valid(),
    {
        if self.prompt.as_str().is_empty() {
            return false;
        }
        match self.config.validate() {
            Ok(()) => true,
            Err(_) => false,
        }
    }
}

/// Outcome recorded on a job's terminal transition.
#[derive(Debug)]
pub enum JobResult {
    /// Reference to the produced audio artifact.
    Artifact(String),
    /// Error kind and description.
    Error(ErrorKind, String),
    Cancelled,
}

/// One tracked generation request.
#[derive(Debug)]
pub struct Job {
    pub id: u64,
    pub request: GenerationRequest,
    pub status: JobStatus,
    pub created_at: u64,
    pub result: Option<JobResult>,
    /// Sequence number that the next event of this job carries.
    pub next_sequence: u64,
    /// Time after which a requested cancellation is enforced.
    pub cancel_deadline: Option<u64>,
}

/// What an event says about its job.
#[derive(Debug)]
pub enum EventPayload {
    /// Progress in thousandths of the whole work.
    Progress(u32),
    /// A partial audio chunk.
    Chunk(Vec<u8>),
    /// Completion marker with the artifact reference.
    Done(String),
    /// Failure marker with its kind and message.
    Failure(ErrorKind, String),
    /// Cancellation marker.
    Cancellation,
}

/// One ordered unit of progress or result information about a job.
#[derive(Debug)]
pub struct Event {
    pub job_id: u64,
    pub sequence: u64,
    pub payload: EventPayload,
}

impl Event {
    pub open spec fn spec_is_terminal(&self) -> bool {
        self.payload is Done || self.payload is Failure || self.payload is Cancellation
    }

    pub fn is_terminal(&self) -> (r: bool)
        ensures
            r == self.spec_is_terminal(),
    {
        match self.payload {
            EventPayload::Progress(_) | EventPayload::Chunk(_) => false,
            _ => true,
        }
    }

    /// Same job, same sequence number and the same payload, byte for byte.
    pub open spec fn same_as(&self, other: &Event) -> bool {
        &&& self.job_id == other.job_id
        &&& self.sequence == other.sequence
        &&& same_payload(&self.payload, &other.payload)
    }

    /// A copy of the event, for handing the same event to several subscribers.
    pub fn duplicate(&self) -> (r: Event)
        ensures
            r.same_as(self),
    {
        let payload = match &self.payload {
            EventPayload::Progress(p) => EventPayload::Progress(*p),
            EventPayload::Chunk(bytes) => EventPayload::Chunk(copy_bytes(bytes)),
            EventPayload::Done(artifact) => EventPayload::Done(artifact.clone()),
            EventPayload::Failure(kind, message) => EventPayload::Failure(*kind, message.clone()),
            EventPayload::Cancellation => EventPayload::Cancellation,
        };
        Event { job_id: self.job_id, sequence: self.sequence, payload }
    }
}

pub open spec fn same_payload(a: &EventPayload, b: &EventPayload) -> bool {
    match a {
        EventPayload::Chunk(x) => b is Chunk && b->Chunk_0@ == x@,
        _ => *a == *b,
    }
}

/// A byte-for-byte copy of `bytes`.
pub fn copy_bytes(bytes: &Vec<u8>) -> (r: Vec<u8>)
    ensures
        r@ == bytes@,
{
    let mut r: Vec<u8> = Vec::with_capacity(bytes.len());
    let mut i: usize = 0;
    while i < bytes.len()
        invariant
            i <= bytes@.len(),
            r@ == bytes@.subrange(0, i as int),
        decreases bytes@.len() - i,
    {
        r.push(bytes[i]);
        i = i + 1;
        assert(r@ =~= bytes@.subrange(0, i as int));
    }
    assert(r@ =~= bytes@);
    r
}

/// One unit of output from the inference pipeline, or the failure that ended it.
#[derive(Debug)]
pub enum PipelineOutput {
    /// Progress in thousandths of the whole work.
    Progress(u32),
    Chunk(Vec<u8>),
    /// The audio was produced and stored under this reference.
    Done(String),
    Error(ErrorKind, String),
}

} // verus!
