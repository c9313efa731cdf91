use stitch::command::{all_have_audio, build_audio_probe_args, build_duration_probe_args, build_ffmpeg_args, build_filter_graph};
use stitch::plan::{Flag, Plan, PlanPath};

fn plan(n: usize, flags: Vec<Flag>) -> Plan {
    Plan {
        target_path: PlanPath { path: "/t/out.mp4".to_string(), leaf: "out.mp4".to_string() },
        sources: (0..n)
            .map(|i| PlanPath { path: format!("/s/{i}.mp4"), leaf: format!("{i}.mp4") })
            .collect(),
        flags,
    }
}

#[test]
fn concat_demuxer_arguments() {
    let args = build_ffmpeg_args(&plan(2, vec![]), &vec![true, false], "/tmp/out_mp4.catfile");
    assert_eq!(
        args,
        vec![
            "-f", "concat", "-safe", "0", "-i", "/tmp/out_mp4.catfile", "-progress", "pipe:1", "-c",
            "copy", "/t/out.mp4", "-y",
        ]
    );
}

#[test]
fn filter_graph_arguments_with_audio() {
    let args = build_ffmpeg_args(&plan(2, vec![Flag::ConcatFilter]), &vec![true, true], "/unused");
    let graph = "[0:v]fps=30,format=yuv420p[v0];[1:v]fps=30,format=yuv420p[v1];[0:a]anull[a0];[1:a]anull[a1];[v0][a0][v1][a1]concat=n=2:v=1:a=1[outv][outa]";
    assert_eq!(
        args,
        vec![
            "-i", "/s/0.mp4", "-i", "/s/1.mp4", "-vsync", "cfr", "-r", "30", "-filter_complex", graph,
            "-map", "[outv]", "-map", "[outa]", "-c:a", "aac", "-b:a", "128k", "-c:v", "libx264",
            "-preset", "medium", "-crf", "23", "-progress", "pipe:1", "/t/out.mp4", "-y",
        ]
    );
}

#[test]
fn filter_graph_arguments_without_audio_map_video_only() {
    let args = build_ffmpeg_args(&plan(2, vec![Flag::ConcatFilter]), &vec![true, false], "/unused");
    let graph = "[0:v]fps=30,format=yuv420p[v0];[1:v]fps=30,format=yuv420p[v1];[v0][v1]concat=n=2:v=1:a=0[outv]";
    assert_eq!(
        args,
        vec![
            "-i", "/s/0.mp4", "-i", "/s/1.mp4", "-vsync", "cfr", "-r", "30", "-filter_complex", graph,
            "-map", "[outv]", "-c:v", "libx264", "-preset", "medium", "-crf", "23", "-progress",
            "pipe:1", "/t/out.mp4", "-y",
        ]
    );
    assert!(!args.iter().any(|a| a == "[outa]" || a == "-c:a"));
}

#[test]
fn filter_graph_counts_past_nine() {
    let g = build_filter_graph(12, false);
    assert!(g.starts_with("[0:v]fps=30,format=yuv420p[v0];"));
    assert!(g.contains("[11:v]fps=30,format=yuv420p[v11];"));
    assert!(g.ends_with("[v10][v11]concat=n=12:v=1:a=0[outv]"));
    assert_eq!(build_filter_graph(0, true), "concat=n=0:v=1:a=1[outv][outa]");
}

#[test]
fn audio_is_all_or_nothing() {
    assert!(all_have_audio(&vec![]));
    assert!(all_have_audio(&vec![true, true]));
    assert!(!all_have_audio(&vec![true, false, true]));
}

#[test]
fn probe_arguments() {
    assert_eq!(
        build_duration_probe_args("/s/a.mp4"),
        vec!["-v", "error", "-show_entries", "format=duration", "-of", "default=noprint_wrappers=1:nokey=1", "/s/a.mp4"]
    );
    assert_eq!(
        build_audio_probe_args("/s/a.mp4"),
        vec![
            "-v", "error", "-select_streams", "a", "-show_entries", "stream=codec_type", "-of",
            "default=noprint_wrappers=1:nokey=1", "/s/a.mp4",
        ]
    );
}
