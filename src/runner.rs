//! Supervising one external process: the decisions of the run loop.
//!
//! The caller spawns the process and races its exit, the cancellation signal
//! and the two output streams; each thing that happens is handed to
//! [`ProcessRun`] as a [`RunEvent`], which records output and says when the
//! run is over and with what result.
use vstd::prelude::*;

verus! {

/// Why the encoder could not be run to completion.
#[derive(Debug, Clone)]
pub enum FfmpegError {
    Cancelled,
    BadSpawn { inner_error: String },
    BadExit { inner_error: String },
    Acquire { inner_error: String },
    UninitializedPath,
}

/// Why a probe could not be run to completion.
#[derive(Debug, Clone)]
pub enum FfprobeError {
    Cancelled,
    BadSpawn { inner_error: String },
    BadExit { inner_error: String },
    Acquire { inner_error: String },
}

/// What the encoder wrote and how it exited. `exit_code` is `None` when the
/// process ended without a code (killed by a signal); `Some(0)` is success.
#[derive(Debug, Clone)]
pub struct FfmpegExit {
    pub stdout_lines: Vec<String>,
    pub stderr_lines: Vec<String>,
    pub exit_code: Option<i32>,
}

/// What a probe wrote and how it exited, as for [`FfmpegExit`].
#[derive(Debug, Clone)]
pub struct FfprobeExit {
    pub stdout_lines: Vec<String>,
    pub stderr_lines: Vec<String>,
    pub exit_code: Option<i32>,
}

/// One thing that happened while a process ran.
#[derive(Debug, Clone)]
pub enum RunEvent {
    /// A line on standard output.
    Stdout(String),
    /// A line on standard error.
    Stderr(String),
    /// The process exited, with its code if it had one.
    Exited(Option<i32>),
    /// Waiting for the process failed.
    WaitFailed(String),
    /// Cancellation was requested; the process has been killed.
    Cancelled,
}

/// The output of a running process so far.
pub struct ProcessRun {
    pub stdout_lines: Vec<String>,
    pub stderr_lines: Vec<String>,
}

impl ProcessRun {
    /// A run that has produced nothing yet.
    pub fn new() -> (r: ProcessRun)
        ensures
            r.stdout_lines@.len() == 0,
            r.stderr_lines@.len() == 0,
    {
        ProcessRun { stdout_lines: Vec::new(), stderr_lines: Vec::new() }
    }

    /// Records an output line; `true` when `event` was one.
    fn record(&mut self, event: &RunEvent) -> (r: bool)
        ensures
            r == (event is Stdout || event is Stderr),
            match event {
                RunEvent::Stdout(l) => final(self).stdout_lines@ == old(self).stdout_lines@.push(*l)
                    && final(self).stderr_lines@ == old(self).stderr_lines@,
                RunEvent::Stderr(l) => final(self).stderr_lines@ == old(self).stderr_lines@.push(*l)
                    && final(self).stdout_lines@ == old(self).stdout_lines@,
                _ => *final(self) == *old(self),
            },
    {
        match event {
            RunEvent::Stdout(l) => {
                self.stdout_lines.push(l.clone());
                true
            },
            RunEvent::Stderr(l) => {
                self.stderr_lines.push(l.clone());
                true
            },
            _ => false,
        }
    }

    /// Hands over the recorded lines, leaving the run empty.
    fn take_lines(&mut self) -> (r: (Vec<String>, Vec<String>))
        ensures
            r.0@ == old(self).stdout_lines@,
            r.1@ == old(self).stderr_lines@,
            final(self).stdout_lines@.len() == 0,
            final(self).stderr_lines@.len() == 0,
    {
        let mut out: Vec<String> = Vec::new();
        let mut err: Vec<String> = Vec::new();
        std::mem::swap(&mut out, &mut self.stdout_lines);
        std::mem::swap(&mut err, &mut self.stderr_lines);
        (out, err)
    }

    /// One step of an encoder run. An output line is recorded and the run
    /// goes on (`None`). An exit ends it with every recorded line and the
    /// code, whatever the code is; a failed wait or a cancellation ends it
    /// with that error, and the lines stay recorded.
    pub fn ffmpeg_step(&mut self, event: RunEvent) -> (r: Option<Result<FfmpegExit, FfmpegError>>)
        ensures
            match event {
                RunEvent::Stdout(l) => r is None && final(self).stdout_lines@ == old(self).stdout_lines@.push(l)
                    && final(self).stderr_lines@ == old(self).stderr_lines@,
                RunEvent::Stderr(l) => r is None && final(self).stderr_lines@ == old(self).stderr_lines@.push(l)
                    && final(self).stdout_lines@ == old(self).stdout_lines@,
                RunEvent::Exited(code) => r matches Some(Ok(x)) && x.stdout_lines@ == old(self).stdout_lines@
                    && x.stderr_lines@ == old(self).stderr_lines@ && x.exit_code == code,
                RunEvent::WaitFailed(msg) => r matches Some(Err(FfmpegError::BadExit { inner_error }))
                    && inner_error == msg && *final(self) == *old(self),
                RunEvent::Cancelled => r matches Some(Err(FfmpegError::Cancelled)) && *final(self) == *old(self),
            },
    {
        if self.record(&event) {
            return None;
        }
        match event {
            RunEvent::Exited(code) => {
                let (stdout_lines, stderr_lines) = self.take_lines();
                Some(Ok(FfmpegExit { stdout_lines, stderr_lines, exit_code: code }))
            },
            RunEvent::WaitFailed(msg) => Some(Err(FfmpegError::BadExit { inner_error: msg })),
            _ => Some(Err(FfmpegError::Cancelled)),
        }
    }

    /// One step of a probe run, as [`ProcessRun::ffmpeg_step`].
    pub fn ffprobe_step(&mut self, event: RunEvent) -> (r: Option<Result<FfprobeExit, FfprobeError>>)
        ensures
            match event {
                RunEvent::Stdout(l) => r is None && final(self).stdout_lines@ == old(self).stdout_lines@.push(l)
                    && final(self).stderr_lines@ == old(self).stderr_lines@,
                RunEvent::Stderr(l) => r is None && final(self).stderr_lines@ == old(self).stderr_lines@.push(l)
                    && final(self).stdout_lines@ == old(self).stdout_lines@,
                RunEvent::Exited(code) => r matches Some(Ok(x)) && x.stdout_lines@ == old(self).stdout_lines@
                    && x.stderr_lines@ == old(self).stderr_lines@ && x.exit_code == code,
                RunEvent::WaitFailed(msg) => r matches Some(Err(FfprobeError::BadExit { inner_error }))
                    && inner_error == msg && *final(self) == *old(self),
                RunEvent::Cancelled => r matches Some(Err(FfprobeError::Cancelled)) && *final(self) == *old(self),
            },
    {
        if self.record(&event) {
            return None;
        }
        match event {
            RunEvent::Exited(code) => {
                let (stdout_lines, stderr_lines) = self.take_lines();
                Some(Ok(FfprobeExit { stdout_lines, stderr_lines, exit_code: code }))
            },
            RunEvent::WaitFailed(msg) => Some(Err(FfprobeError::BadExit { inner_error: msg })),
            _ => Some(Err(FfprobeError::Cancelled)),
        }
    }
}

} // verus!
