use stitch::job::{ExecuteError, ExecuteProgressPayload, Job, Stage};
use stitch::plan::{Flag, Plan, PlanPath};
use stitch::runner::FfmpegExit;

fn plan(flags: Vec<Flag>) -> Plan {
    Plan {
        target_path: PlanPath { path: "/t/my.out.mp4".to_string(), leaf: "my.out.mp4".to_string() },
        sources: vec![
            PlanPath { path: "/s/one.mp4".to_string(), leaf: "one.mp4".to_string() },
            PlanPath { path: "/s/it's.mp4".to_string(), leaf: "it's.mp4".to_string() },
        ],
        flags,
    }
}

#[test]
fn a_full_run_numbers_its_events_from_zero() {
    let mut job = Job::with_id(plan(vec![]), 7);
    let mut events = vec![job.start()];
    events.push(job.phase("Preparing concatenation file"));
    events.push(job.prepared("/tmp/my_dout_dmp4.catfile".to_string()));
    events.extend(job.probed(3_000_000, &vec![true, true]));
    events.push(job.encoding());
    events.extend(job.progress(3_000_000, "out_time_us=1500000"));
    assert!(job.progress(3_000_000, "speed=1x").is_none());
    events.push(job.finished(FfmpegExit { stdout_lines: vec![], stderr_lines: vec![], exit_code: Some(0) }));
    assert_eq!(job.stage(), Stage::Finished);
    for (i, e) in events.iter().enumerate() {
        assert_eq!(e.seq, i);
        assert_eq!(e.id, 7);
    }
    assert!(matches!(&events[0].payload, ExecuteProgressPayload::Start { target_name } if target_name == "my.out.mp4"));
    assert!(matches!(&events[2].payload, ExecuteProgressPayload::Prepared { cat_path } if cat_path == "/tmp/my_dout_dmp4.catfile"));
    match &events[3].payload {
        ExecuteProgressPayload::Info { source_count, total_duration_us, has_audio, mode } => {
            assert_eq!(*source_count, 2);
            assert_eq!(*total_duration_us, 3_000_000);
            assert!(*has_audio);
            assert_eq!(mode, "concat");
        }
        other => panic!("unexpected {:?}", other),
    }
    assert!(matches!(&events[4].payload, ExecuteProgressPayload::Phase { phase } if phase == "Encoding"));
    assert!(matches!(&events[5].payload, ExecuteProgressPayload::Progress { total_us: 3_000_000, current_us: 1_500_000 }));
    assert!(matches!(&events[6].payload, ExecuteProgressPayload::Finished(_)));
}

#[test]
fn filter_graph_with_a_silent_source_warns_and_maps_video_only() {
    let mut job = Job::with_id(plan(vec![Flag::ConcatFilter]), 1);
    job.start();
    job.prepared("/tmp/c".to_string());
    let events = job.probed(10, &vec![true, false]);
    assert_eq!(events.len(), 2);
    match &events[0].payload {
        ExecuteProgressPayload::Info { has_audio, mode, .. } => {
            assert!(!*has_audio);
            assert_eq!(mode, "filter_complex");
        }
        other => panic!("unexpected {:?}", other),
    }
    match &events[1].payload {
        ExecuteProgressPayload::Warning { message } => {
            assert_eq!(message, "Only 1/2 sources have audio - output will be video-only");
            assert!(message.contains("1/2"));
        }
        other => panic!("unexpected {:?}", other),
    }
    let args = job.ffmpeg_args(&vec![true, false], "/tmp/c");
    assert!(!args.iter().any(|a| a == "[outa]" || a == "-c:a" || a.contains("[0:a]")));
    assert!(args.iter().any(|a| a == "[outv]"));
}

#[test]
fn concat_job_with_a_silent_source_does_not_warn() {
    let mut job = Job::with_id(plan(vec![]), 1);
    job.start();
    job.prepared("/tmp/c".to_string());
    let events = job.probed(10, &vec![false, false]);
    assert_eq!(events.len(), 1);
    assert!(matches!(&events[0].payload, ExecuteProgressPayload::Info { has_audio: false, .. }));
}

#[test]
fn a_failure_ends_the_job() {
    let mut job = Job::with_id(plan(vec![]), 3);
    let first = job.start();
    let failed = job.failed(ExecuteError::NoDuration);
    assert_eq!(first.seq, 0);
    assert_eq!(failed.seq, 1);
    assert!(matches!(failed.payload, ExecuteProgressPayload::Failed(ExecuteError::NoDuration)));
    assert_eq!(job.stage(), Stage::Failed);
}

#[test]
fn manifest_name_and_content() {
    let job = Job::with_id(plan(vec![]), 0);
    assert_eq!(job.catfile_name(), "my_dout_dmp4.catfile");
    assert_eq!(job.catfile_content(), "file '/s/one.mp4'\nfile '/s/it'\\''s.mp4'");
}

#[test]
fn fresh_ids_are_version_four_uuids() {
    let a = Job::new(plan(vec![]));
    let b = Job::new(plan(vec![]));
    assert_eq!((a.id() >> 76) & 0xf, 4);
    assert_ne!(a.id(), b.id());
    assert_eq!(a.stage(), Stage::Created);
    assert!(a.can_emit());
    assert_eq!(a.plan().target_path.leaf, "my.out.mp4");
}

#[test]
fn differently_named_targets_get_different_manifests() {
    let job_for = |leaf: &str| {
        let mut p = plan(vec![]);
        p.target_path = PlanPath { path: format!("/t/{leaf}"), leaf: leaf.to_string() };
        Job::with_id(p, 0)
    };
    assert_eq!(job_for("a.mp4").catfile_name(), "a_dmp4.catfile");
    assert_eq!(job_for("a_mp4").catfile_name(), "a__mp4.catfile");
    assert_eq!(job_for("a_dmp4").catfile_name(), "a__dmp4.catfile");
    assert_ne!(job_for("a.mp4").catfile_name(), job_for("a_mp4").catfile_name());
}
