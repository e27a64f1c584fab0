//! Task records, statuses, events, configuration and errors.

use vstd::prelude::*;

verus! {

/// Lifecycle status of a queued task.
#[derive(Debug, Clone, Copy, PartialEq, Eq, Structural)]
pub enum TaskStatus {
    Pending,
    Downloading,
    Paused,
    Completed,
    Failed,
    Cancelled,
}

/// The transitions the lifecycle allows.
pub open spec fn legal_transition(from: TaskStatus, to: TaskStatus) -> bool {
    match from {
        TaskStatus::Pending => to == TaskStatus::Downloading || to == TaskStatus::Cancelled,
        TaskStatus::Downloading => to == TaskStatus::Paused || to == TaskStatus::Completed
            || to == TaskStatus::Failed || to == TaskStatus::Cancelled,
        TaskStatus::Paused => to == TaskStatus::Pending || to == TaskStatus::Cancelled,
        TaskStatus::Failed => to == TaskStatus::Pending || to == TaskStatus::Cancelled,
        TaskStatus::Completed => false,
        TaskStatus::Cancelled => false,
    }
}

/// Completed and Cancelled admit no further transition.
pub open spec fn is_terminal(s: TaskStatus) -> bool {
    s == TaskStatus::Completed || s == TaskStatus::Cancelled
}

/// Statuses from which a task may be removed from the table.
pub open spec fn is_removable(s: TaskStatus) -> bool {
    s == TaskStatus::Completed || s == TaskStatus::Cancelled || s == TaskStatus::Failed
}

impl TaskStatus {
    pub fn can_transition_to(&self, to: TaskStatus) -> (r: bool)
        ensures
            r == legal_transition(*self, to),
    {
        match self {
            TaskStatus::Pending => to == TaskStatus::Downloading || to == TaskStatus::Cancelled,
            TaskStatus::Downloading => to == TaskStatus::Paused || to == TaskStatus::Completed
                || to == TaskStatus::Failed || to == TaskStatus::Cancelled,
            TaskStatus::Paused => to == TaskStatus::Pending || to == TaskStatus::Cancelled,
            TaskStatus::Failed => to == TaskStatus::Pending || to == TaskStatus::Cancelled,
            TaskStatus::Completed => false,
            TaskStatus::Cancelled => false,
        }
    }

    pub fn is_terminal(&self) -> (r: bool)
        ensures
            r == is_terminal(*self),
    {
        *self == TaskStatus::Completed || *self == TaskStatus::Cancelled
    }
}

/// Admission priority of a task.
#[derive(Debug, Clone, Copy, PartialEq, Eq, Structural)]
pub enum Priority {
    Low,
    Normal,
    High,
}

pub open spec fn priority_rank(p: Priority) -> nat {
    match p {
        Priority::Low => 0,
        Priority::Normal => 1,
        Priority::High => 2,
    }
}

impl Priority {
    pub fn rank(&self) -> (r: u8)
        ensures
            r == priority_rank(*self),
    {
        match self {
            Priority::Low => 0,
            Priority::Normal => 1,
            Priority::High => 2,
        }
    }
}

/// Whether the engine may use ranged requests or must stream.
#[derive(Debug, Clone, Copy, PartialEq, Eq, Structural)]
pub enum DownloadMode {
    Auto,
    Streaming,
}

/// The digest algorithm and the expected digest, as hexadecimal text.
#[derive(Debug, Clone, PartialEq, Eq)]
pub enum ChecksumType {
    Md5(String),
    Sha1(String),
    Sha256(String),
}

/// One row of the task table.
#[derive(Debug, Clone, PartialEq, Eq)]
pub struct DownloadTask {
    pub id: String,
    pub url: String,
    pub dest: String,
    pub status: TaskStatus,
    pub total_size: u64,
    pub downloaded: u64,
    pub created_at: u64,
    pub error: Option<String>,
    pub priority: Priority,
    pub checksum: Option<ChecksumType>,
}

/// Events the queue publishes to its subscribers.
#[derive(Debug, Clone, PartialEq, Eq)]
pub enum QueueEvent {
    TaskAdded { task_id: String },
    TaskStarted { task_id: String },
    TaskProgress { task_id: String, downloaded: u64, total: u64, speed: u64, eta: Option<u64> },
    TaskCompleted { task_id: String },
    TaskFailed { task_id: String, error: String },
    TaskPaused { task_id: String },
    TaskResumed { task_id: String },
    TaskCancelled { task_id: String },
    VerifyStarted { task_id: String },
    VerifyCompleted { task_id: String, success: bool },
}

/// Events one engine invocation reports about one file.
#[derive(Debug, Clone, PartialEq, Eq)]
pub enum ProgressEvent {
    Initialized { total_size: Option<u64> },
    ChunkUpdated { chunk_index: usize, delta: u64 },
    StreamUpdated { downloaded: u64 },
    Finished,
    Failed(String),
}

/// The kinds of failure the engine and the queue report.
#[derive(Debug, Clone, PartialEq, Eq)]
pub enum DownloadError {
    /// Network or I/O failure during a request.
    TransportError(String),
    /// The origin answered with something unusable.
    OriginError(String),
    /// The origin cannot serve byte ranges.
    RangeUnsupported,
    /// The journal could not be read or written.
    JournalError(String),
    /// The destination could not be created, sought or written.
    FileSystemError(String),
    /// The downloaded file does not match its checksum.
    VerificationError(String),
    /// The requested lifecycle change is not allowed from the current status.
    InvalidStateTransition { from: TaskStatus, to: TaskStatus },
    /// No task has the given id.
    NotFound,
    /// A task with the given id is already queued.
    DuplicateId,
    /// A configuration value is out of range.
    ConfigError(String),
}

/// Settings of the byte-range client and the file engine.
#[derive(Debug, Clone)]
pub struct DownloadConfig {
    pub max_concurrent: usize,
    pub chunk_size: u64,
    pub timeout: u64,
    pub user_agent: Option<String>,
    pub headers: Vec<(String, String)>,
    pub proxy: Option<String>,
    pub speed_limit: Option<u64>,
    pub mode: DownloadMode,
}

pub const DEFAULT_MAX_CONCURRENT: usize = 4;
pub const DEFAULT_CHUNK_SIZE: u64 = 10485760;
pub const DEFAULT_TIMEOUT_SECS: u64 = 30;

/// No two headers share a name.
pub open spec fn header_names_unique(h: Seq<(String, String)>) -> bool {
    forall|i: int, j: int| 0 <= i < h.len() && 0 <= j < h.len() && i != j ==> #[trigger] h[i].0@ != #[trigger] h[j].0@
}

impl DownloadConfig {
    /// Sets header `name` to `value`, replacing an earlier value of that name.
    pub fn set_header(&mut self, name: String, value: String)
        requires
            header_names_unique(old(self).headers@),
        ensures
            header_names_unique(final(self).headers@),
            exists|k: int| 0 <= k < final(self).headers@.len() && final(self).headers@[k].0@ == name@
                && final(self).headers@[k].1@ == value@,
            forall|k: int| 0 <= k < old(self).headers@.len() && old(self).headers@[k].0@ != name@
                ==> final(self).headers@.contains(old(self).headers@[k]),
            forall|k: int| 0 <= k < final(self).headers@.len() && final(self).headers@[k].0@ != name@
                ==> old(self).headers@.contains(final(self).headers@[k]),
            final(self).max_concurrent == old(self).max_concurrent,
            final(self).chunk_size == old(self).chunk_size,
            final(self).timeout == old(self).timeout,
            final(self).speed_limit == old(self).speed_limit,
            final(self).mode == old(self).mode,
    {
        let mut i: usize = 0;
        while i < self.headers.len()
            invariant
                self.headers@ == old(self).headers@,
                header_names_unique(old(self).headers@),
                self.max_concurrent == old(self).max_concurrent,
                self.chunk_size == old(self).chunk_size,
                self.timeout == old(self).timeout,
                self.speed_limit == old(self).speed_limit,
                self.mode == old(self).mode,
                0 <= i <= self.headers@.len(),
                forall|k: int| 0 <= k < i ==> self.headers@[k].0@ != name@,
            decreases self.headers@.len() - i,
        {
            if self.headers[i].0 == name {
                let ghost before = self.headers@;
                let n2 = self.headers[i].0.clone();
                self.headers.set(i, (n2, value));
                proof {
                    assert forall|a: int, b: int| 0 <= a < self.headers@.len() && 0 <= b < self.headers@.len() && a != b
                        implies #[trigger] self.headers@[a].0@ != #[trigger] self.headers@[b].0@ by {
                        assert(before[a].0@ != before[b].0@);
                    }
                    assert forall|k: int| 0 <= k < before.len() && before[k].0@ != name@
                        implies self.headers@.contains(before[k]) by {
                        assert(k != i);
                        assert(self.headers@[k] == before[k]);
                    }
                    assert forall|k: int| 0 <= k < self.headers@.len() && self.headers@[k].0@ != name@
                        implies before.contains(self.headers@[k]) by {
                        assert(k != i);
                        assert(self.headers@[k] == before[k]);
                    }
                    assert(self.headers@[i as int].0@ == name@);
                }
                return;
            }
            i = i + 1;
        }
        let ghost before = self.headers@;
        self.headers.push((name, value));
        proof {
            assert forall|a: int, b: int| 0 <= a < self.headers@.len() && 0 <= b < self.headers@.len() && a != b
                implies #[trigger] self.headers@[a].0@ != #[trigger] self.headers@[b].0@ by {
                if a < before.len() && b < before.len() {
                    assert(before[a].0@ != before[b].0@);
                }
            }
            assert forall|k: int| 0 <= k < before.len() && before[k].0@ != name@
                implies self.headers@.contains(before[k]) by {
                assert(self.headers@[k] == before[k]);
            }
            assert forall|k: int| 0 <= k < self.headers@.len() && self.headers@[k].0@ != name@
                implies before.contains(self.headers@[k]) by {
                assert(k < before.len());
                assert(self.headers@[k] == before[k]);
            }
            assert(self.headers@[before.len() as int].0@ == name@);
        }
    }

    /// All settings usable: at least one connection, non-empty chunks, a
    /// positive timeout and, when present, a positive speed limit.
    pub open spec fn valid(&self) -> bool {
        &&& self.max_concurrent > 0
        &&& self.chunk_size > 0
        &&& self.timeout > 0
        &&& (self.speed_limit matches Some(l) ==> l > 0)
    }

    pub fn validate(&self) -> (r: Result<(), DownloadError>)
        ensures
            r is Ok <==> self.valid(),
            r is Err ==> r->Err_0 is ConfigError,
    {
        if self.max_concurrent == 0 {
            return Err(DownloadError::ConfigError("max_concurrent must be greater than 0".to_string()));
        }
        if self.chunk_size == 0 {
            return Err(DownloadError::ConfigError("chunk_size must be greater than 0".to_string()));
        }
        if self.timeout == 0 {
            return Err(DownloadError::ConfigError("timeout must be greater than 0".to_string()));
        }
        if let Some(l) = self.speed_limit {
            if l == 0 {
                return Err(DownloadError::ConfigError("speed_limit must be greater than 0".to_string()));
            }
        }
        Ok(())
    }
}

impl Default for DownloadConfig {
    fn default() -> (r: Self)
        ensures
            r.max_concurrent == DEFAULT_MAX_CONCURRENT,
            r.chunk_size == DEFAULT_CHUNK_SIZE,
            r.timeout == DEFAULT_TIMEOUT_SECS,
            r.user_agent is None,
            r.headers@.len() == 0,
            r.proxy is None,
            r.speed_limit is None,
            r.mode == DownloadMode::Auto,
            r.valid(),
    {
        DownloadConfig {
            max_concurrent: DEFAULT_MAX_CONCURRENT,
            chunk_size: DEFAULT_CHUNK_SIZE,
            timeout: DEFAULT_TIMEOUT_SECS,
            user_agent: None,
            headers: Vec::new(),
            proxy: None,
            speed_limit: None,
            mode: DownloadMode::Auto,
        }
    }
}

} // verus!
