//! A resumable, multi-connection downloader: chunk planning, the per-file
//! journal, the speed limiter, retry policy and the task-queue state machine,
//! each with its contract.

pub mod nbyte;
pub mod types;
pub mod state;
pub mod text;
pub mod engine;
pub mod limiter;
pub mod checksum;
pub mod ident;
pub mod queue;
pub mod progress;
pub mod config;
pub mod history;
pub mod records;

pub use nbyte::{Storage, Unit};
pub use state::{ChunkState, DownloadState};
pub use queue::DownloadQueue;
pub use config::{AppConfig, WindowState};
pub use history::{CompletedTask, DownloadHistory};
pub use records::{QueueState, UpdateInfo};
pub use types::{
    ChecksumType, DownloadConfig, DownloadError, DownloadMode, DownloadTask, Priority,
    ProgressEvent, QueueEvent, TaskStatus,
};
