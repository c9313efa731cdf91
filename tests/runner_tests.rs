use stitch::runner::{FfmpegError, FfprobeError, ProcessRun, RunEvent};

#[test]
fn encoder_run_collects_lines_until_exit() {
    let mut run = ProcessRun::new();
    assert!(run.ffmpeg_step(RunEvent::Stdout("frame=1".to_string())).is_none());
    assert!(run.ffmpeg_step(RunEvent::Stderr("warning".to_string())).is_none());
    assert!(run.ffmpeg_step(RunEvent::Stdout("progress=end".to_string())).is_none());
    let exit = run.ffmpeg_step(RunEvent::Exited(Some(1))).unwrap().unwrap();
    assert_eq!(exit.stdout_lines, vec!["frame=1", "progress=end"]);
    assert_eq!(exit.stderr_lines, vec!["warning"]);
    assert_eq!(exit.exit_code, Some(1));
}

#[test]
fn cancelled_run_keeps_its_output() {
    let mut run = ProcessRun::new();
    assert!(run.ffmpeg_step(RunEvent::Stdout("a".to_string())).is_none());
    assert!(matches!(run.ffmpeg_step(RunEvent::Cancelled), Some(Err(FfmpegError::Cancelled))));
    assert_eq!(run.stdout_lines, vec!["a"]);
}

#[test]
fn failed_wait_is_a_bad_exit() {
    let mut run = ProcessRun::new();
    match run.ffprobe_step(RunEvent::WaitFailed("interrupted".to_string())) {
        Some(Err(FfprobeError::BadExit { inner_error })) => assert_eq!(inner_error, "interrupted"),
        other => panic!("unexpected {:?}", other),
    }
}

#[test]
fn probe_run_ends_at_exit() {
    let mut run = ProcessRun::new();
    assert!(run.ffprobe_step(RunEvent::Stdout("12.5".to_string())).is_none());
    let exit = run.ffprobe_step(RunEvent::Exited(Some(0))).unwrap().unwrap();
    assert_eq!(exit.stdout_lines, vec!["12.5"]);
    assert_eq!(exit.exit_code, Some(0));
    assert!(matches!(run.ffprobe_step(RunEvent::Cancelled), Some(Err(FfprobeError::Cancelled))));
}
