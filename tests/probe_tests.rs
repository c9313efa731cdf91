use stitch::job::ExecuteError;
use stitch::probe::{collect_audio, has_audio_stream, parse_duration, parse_progress, total_duration};
use stitch::runner::{FfprobeError, FfprobeExit};

fn exit(lines: &[&str], code: Option<i32>) -> FfprobeExit {
    FfprobeExit {
        stdout_lines: lines.iter().map(|s| s.to_string()).collect(),
        stderr_lines: vec![],
        exit_code: code,
    }
}

#[test]
fn durations_are_read_in_microseconds() {
    assert_eq!(parse_duration("12.5"), Some(12_500_000));
    assert_eq!(parse_duration("63.423000"), Some(63_423_000));
    assert_eq!(parse_duration("7"), Some(7_000_000));
    assert_eq!(parse_duration("1.1234567"), Some(1_123_456));
    assert_eq!(parse_duration(".5"), Some(500_000));
    assert_eq!(parse_duration("2."), Some(2_000_000));
    assert_eq!(parse_duration("0"), Some(0));
}

#[test]
fn unreadable_durations_are_refused() {
    assert_eq!(parse_duration(""), None);
    assert_eq!(parse_duration("."), None);
    assert_eq!(parse_duration("N/A"), None);
    assert_eq!(parse_duration("-1.0"), None);
    assert_eq!(parse_duration("1.2.3"), None);
    assert_eq!(parse_duration(" 1.0"), None);
    assert_eq!(parse_duration("99999999999999999999"), None);
}

#[test]
fn progress_markers() {
    assert_eq!(parse_progress("out_time_us=1500000"), Some(1_500_000));
    assert_eq!(parse_progress("out_time_us=0"), Some(0));
    assert_eq!(parse_progress("out_time_us="), None);
    assert_eq!(parse_progress("out_time_us=N/A"), None);
    assert_eq!(parse_progress("out_time_us=-5"), None);
    assert_eq!(parse_progress("out_time_ms=1500000"), None);
    assert_eq!(parse_progress("frame=12"), None);
    assert_eq!(parse_progress("out_time_us=18446744073709551616"), None);
}

#[test]
fn audio_presence() {
    assert!(has_audio_stream(&exit(&["audio"], Some(0))));
    assert!(!has_audio_stream(&exit(&[], Some(0))));
    assert!(!has_audio_stream(&exit(&[""], Some(0))));
    assert!(!has_audio_stream(&exit(&["audio"], Some(1))));
    assert!(!has_audio_stream(&exit(&["audio"], None)));
}

#[test]
fn audio_probes_in_source_order() {
    let r = collect_audio(vec![Ok(exit(&["audio"], Some(0))), Ok(exit(&[], Some(0)))]);
    assert_eq!(r.unwrap(), vec![true, false]);
}

#[test]
fn audio_probe_failures_are_all_collected() {
    let r = collect_audio(vec![
        Err(FfprobeError::Cancelled),
        Ok(exit(&["audio"], Some(0))),
        Err(FfprobeError::BadSpawn { inner_error: "no such file".to_string() }),
    ]);
    match r {
        Err(ExecuteError::AudioFailures { inner_errors }) => {
            assert_eq!(inner_errors.len(), 2);
            assert!(matches!(inner_errors[0], FfprobeError::Cancelled));
            assert!(matches!(&inner_errors[1], FfprobeError::BadSpawn { inner_error } if inner_error == "no such file"));
        }
        other => panic!("unexpected {:?}", other),
    }
}

#[test]
fn durations_are_summed() {
    let r = total_duration(vec![Ok(exit(&["1.5"], Some(0))), Ok(exit(&["2.25", "junk"], Some(0)))]);
    assert_eq!(r.unwrap(), 3_750_000);
    assert_eq!(total_duration(vec![]).unwrap(), 0);
}

#[test]
fn durations_sum_saturates() {
    let r = total_duration(vec![Ok(exit(&["18446744073709"], Some(0))), Ok(exit(&["18446744073709"], Some(0)))]);
    assert_eq!(r.unwrap(), u64::MAX);
}

#[test]
fn missing_duration_line_fails_the_job() {
    match total_duration(vec![Ok(exit(&["1"], Some(0))), Ok(exit(&[], Some(0))), Ok(exit(&["x"], Some(0)))]) {
        Err(ExecuteError::NoDuration) => {}
        other => panic!("unexpected {:?}", other),
    }
}

#[test]
fn invalid_duration_fails_the_job() {
    match total_duration(vec![Ok(exit(&["N/A"], Some(0)))]) {
        Err(ExecuteError::InvalidDuration { line, .. }) => assert_eq!(line, "N/A"),
        other => panic!("unexpected {:?}", other),
    }
}

#[test]
fn failed_duration_probe_fails_the_job() {
    match total_duration(vec![Err(FfprobeError::BadExit { inner_error: "wait".to_string() })]) {
        Err(ExecuteError::Ffprobe { inner_error: FfprobeError::BadExit { inner_error } }) => assert_eq!(inner_error, "wait"),
        other => panic!("unexpected {:?}", other),
    }
}
