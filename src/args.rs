//! The options a run is started with.
use vstd::prelude::*;

verus! {

/// What the command line asks for: the spec file, the output and input
/// directories (the current directory when absent), verbosity, and explicit
/// paths for the two executables.
#[derive(Debug, Clone)]
pub struct Args {
    pub spec: String,
    pub target_dir: Option<String>,
    pub sources_dir: Option<String>,
    pub verbose: bool,
    pub ffmpeg_path: Option<String>,
    pub ffprobe_path: Option<String>,
}

} // verus!
