//! The application's configuration record.

use vstd::prelude::*;
use crate::ident::download_dir;
use crate::types::DownloadError;

verus! {

/// Position and layout of the main window.
#[derive(Debug, Clone)]
pub struct WindowState {
    pub width: u32,
    pub height: u32,
    /// -1 centres the window.
    pub x: i32,
    pub y: i32,
    pub maximized: bool,
    pub sidebar_open: bool,
}

impl Default for WindowState {
    fn default() -> (r: Self)
        ensures
            r.width == 1200 && r.height == 800,
            r.x == -1 && r.y == -1,
            !r.maximized && r.sidebar_open,
    {
        WindowState { width: 1200, height: 800, x: -1, y: -1, maximized: false, sidebar_open: true }
    }
}

/// Application settings; the engine reads the networking fields.
#[derive(Debug, Clone)]
pub struct AppConfig {
    pub default_download_path: String,
    pub max_concurrent_downloads: usize,
    pub max_concurrent_tasks: usize,
    pub chunk_size: u64,
    pub timeout: u64,
    pub user_agent: String,
    pub theme: String,
    pub window: WindowState,
}

impl Default for AppConfig {
    fn default() -> (r: Self)
        ensures
            r.max_concurrent_downloads == 4,
            r.max_concurrent_tasks == 3,
            r.chunk_size == 10485760,
            r.timeout == 30,
            r.user_agent@ == "YuShi/0.1.0"@,
            r.theme@ == "system"@,
            r.valid(),
            r.window.width == 1200 && r.window.height == 800,
    {
        let path = match download_dir() {
            Some(p) => p,
            None => "/tmp".to_owned(),
        };
        AppConfig {
            default_download_path: path,
            max_concurrent_downloads: 4,
            max_concurrent_tasks: 3,
            chunk_size: 10485760,
            timeout: 30,
            user_agent: "YuShi/0.1.0".to_owned(),
            theme: "system".to_owned(),
            window: WindowState::default(),
        }
    }
}

impl AppConfig {
    /// Every count and size is positive.
    pub open spec fn valid(&self) -> bool {
        &&& self.max_concurrent_downloads > 0
        &&& self.max_concurrent_tasks > 0
        &&& self.chunk_size > 0
        &&& self.timeout > 0
    }

    /// Checks the fields in order and names the first one that is zero.
    pub fn validate(&self) -> (r: Result<(), DownloadError>)
        ensures
            r is Ok <==> self.valid(),
            r is Err ==> r->Err_0 is ConfigError,
            self.max_concurrent_downloads == 0 ==> (r matches Err(DownloadError::ConfigError(m))
                && m@ == "max_concurrent_downloads must be greater than 0"@),
            self.max_concurrent_downloads > 0 && self.max_concurrent_tasks == 0 ==> (r matches Err(DownloadError::ConfigError(m))
                && m@ == "max_concurrent_tasks must be greater than 0"@),
            self.max_concurrent_downloads > 0 && self.max_concurrent_tasks > 0 && self.chunk_size == 0
                ==> (r matches Err(DownloadError::ConfigError(m)) && m@ == "chunk_size must be greater than 0"@),
            self.max_concurrent_downloads > 0 && self.max_concurrent_tasks > 0 && self.chunk_size > 0 && self.timeout == 0
                ==> (r matches Err(DownloadError::ConfigError(m)) && m@ == "timeout must be greater than 0"@),
    {
        if self.max_concurrent_downloads == 0 {
            return Err(DownloadError::ConfigError("max_concurrent_downloads must be greater than 0".to_owned()));
        }
        if self.max_concurrent_tasks == 0 {
            return Err(DownloadError::ConfigError("max_concurrent_tasks must be greater than 0".to_owned()));
        }
        if self.chunk_size == 0 {
            return Err(DownloadError::ConfigError("chunk_size must be greater than 0".to_owned()));
        }
        if self.timeout == 0 {
            return Err(DownloadError::ConfigError("timeout must be greater than 0".to_owned()));
        }
        Ok(())
    }
}

} // verus!
