//! Argument lists for the encoder and the probe.
use vstd::prelude::*;
use crate::plan::{Flag, Plan, PlanModel};
use crate::text::{decimal, push_decimal, push_str};

verus! {

/// The views of a sequence of strings.
pub open spec fn texts(v: Seq<String>) -> Seq<Seq<char>> {
    v.map_values(|s: String| s@)
}

fn push_arg(v: &mut Vec<String>, s: &str)
    ensures
        texts(final(v)@) == texts(old(v)@).push(s@),
{
    let ghost before = v@;
    v.push(s.to_owned());
    assert(texts(v@) =~= texts(before).push(s@));
}

fn push_string_arg(v: &mut Vec<String>, s: String)
    ensures
        texts(final(v)@) == texts(old(v)@).push(s@),
{
    let ghost before = v@;
    v.push(s);
    assert(texts(v@) =~= texts(before).push(s@));
}

// ---------------------------------------------------------------------------
// Filter graph

/// The pieces that a filter graph repeats once per input.
#[derive(Clone, Copy, PartialEq, Eq, Structural)]
pub enum Piece {
    /// `[i:v]fps=30,format=yuv420p[vi];`
    Video,
    /// `[i:a]anull[ai];`
    Audio,
    /// `[vi][ai]`
    Pair,
    /// `[vi]`
    VideoOnly,
}

/// The text of `piece` for input `i`.
pub open spec fn piece_text(piece: Piece, i: nat) -> Seq<char> {
    match piece {
        Piece::Video => "["@ + decimal(i) + ":v]fps=30,format=yuv420p[v"@ + decimal(i) + "];"@,
        Piece::Audio => "["@ + decimal(i) + ":a]anull[a"@ + decimal(i) + "];"@,
        Piece::Pair => "[v"@ + decimal(i) + "][a"@ + decimal(i) + "]"@,
        Piece::VideoOnly => "[v"@ + decimal(i) + "]"@,
    }
}

/// `piece` for inputs `0` to `n - 1`, one after the other.
pub open spec fn pieces(piece: Piece, n: nat) -> Seq<char>
    decreases n,
{
    if n == 0 {
        seq![]
    } else {
        pieces(piece, (n - 1) as nat) + piece_text(piece, (n - 1) as nat)
    }
}

/// The filter graph for `n` inputs: every video normalised to 30 fps and
/// yuv420p, and the audio joined too when `audio` holds.
pub open spec fn filter_graph(n: nat, audio: bool) -> Seq<char> {
    if audio {
        pieces(Piece::Video, n) + pieces(Piece::Audio, n) + pieces(Piece::Pair, n) + "concat=n="@
            + decimal(n) + ":v=1:a=1[outv][outa]"@
    } else {
        pieces(Piece::Video, n) + pieces(Piece::VideoOnly, n) + "concat=n="@ + decimal(n)
            + ":v=1:a=0[outv]"@
    }
}

fn push_piece(s: &mut String, piece: Piece, i: usize)
    ensures
        final(s)@ == old(s)@ + piece_text(piece, i as nat),
{
    let ghost start = s@;
    let n = i as u64;
    match piece {
        Piece::Video => {
            push_str(s, "[");
            push_decimal(s, n);
            push_str(s, ":v]fps=30,format=yuv420p[v");
            push_decimal(s, n);
            push_str(s, "];");
        },
        Piece::Audio => {
            push_str(s, "[");
            push_decimal(s, n);
            push_str(s, ":a]anull[a");
            push_decimal(s, n);
            push_str(s, "];");
        },
        Piece::Pair => {
            push_str(s, "[v");
            push_decimal(s, n);
            push_str(s, "][a");
            push_decimal(s, n);
            push_str(s, "]");
        },
        Piece::VideoOnly => {
            push_str(s, "[v");
            push_decimal(s, n);
            push_str(s, "]");
        },
    }
    assert(s@ =~= start + piece_text(piece, i as nat));
}

fn push_pieces(s: &mut String, piece: Piece, n: usize)
    ensures
        final(s)@ == old(s)@ + pieces(piece, n as nat),
{
    let ghost start = s@;
    let mut i: usize = 0;
    while i < n
        invariant
            i <= n,
            s@ == start + pieces(piece, i as nat),
        decreases n - i,
    {
        push_piece(s, piece, i);
        assert(s@ =~= start + pieces(piece, (i + 1) as nat));
        i = i + 1;
    }
}

/// The filter graph for `n` inputs, with or without audio.
pub fn build_filter_graph(n: usize, audio: bool) -> (r: String)
    ensures
        r@ == filter_graph(n as nat, audio),
{
    let mut s = String::new();
    push_pieces(&mut s, Piece::Video, n);
    if audio {
        push_pieces(&mut s, Piece::Audio, n);
        push_pieces(&mut s, Piece::Pair, n);
        push_str(&mut s, "concat=n=");
        push_decimal(&mut s, n as u64);
        push_str(&mut s, ":v=1:a=1[outv][outa]");
    } else {
        push_pieces(&mut s, Piece::VideoOnly, n);
        push_str(&mut s, "concat=n=");
        push_decimal(&mut s, n as u64);
        push_str(&mut s, ":v=1:a=0[outv]");
    }
    assert(s@ =~= filter_graph(n as nat, audio));
    s
}

// ---------------------------------------------------------------------------
// Encoder arguments

/// `-i <path>` for each path, in order.
pub open spec fn input_args(paths: Seq<Seq<char>>) -> Seq<Seq<char>>
    decreases paths.len(),
{
    if paths.len() == 0 {
        seq![]
    } else {
        input_args(paths.drop_last()) + seq!["-i"@, paths.last()]
    }
}

/// Stream-copy through the concat demuxer, reading the manifest `catfile`.
pub open spec fn concat_args(catfile: Seq<char>, target: Seq<char>) -> Seq<Seq<char>> {
    seq![
        "-f"@, "concat"@, "-safe"@, "0"@, "-i"@, catfile, "-progress"@, "pipe:1"@, "-c"@, "copy"@,
        target, "-y"@,
    ]
}

/// The audio mapping and codec when every source has audio; the video
/// mapping alone otherwise.
pub open spec fn map_args(audio: bool) -> Seq<Seq<char>> {
    if audio {
        seq!["-map"@, "[outv]"@, "-map"@, "[outa]"@, "-c:a"@, "aac"@, "-b:a"@, "128k"@]
    } else {
        seq!["-map"@, "[outv]"@]
    }
}

/// Re-encode every input through the filter graph.
pub open spec fn filter_args(paths: Seq<Seq<char>>, audio: bool, target: Seq<char>) -> Seq<Seq<char>> {
    input_args(paths) + seq!["-vsync"@, "cfr"@, "-r"@, "30"@, "-filter_complex"@, filter_graph(paths.len(), audio)]
        + map_args(audio) + seq![
        "-c:v"@, "libx264"@, "-preset"@, "medium"@, "-crf"@, "23"@, "-progress"@, "pipe:1"@, target, "-y"@,
    ]
}

/// Whether every entry holds.
pub open spec fn all_true(bs: Seq<bool>) -> bool {
    forall|i: int| 0 <= i < bs.len() ==> bs[i]
}

/// The source paths of a plan.
pub open spec fn source_paths(p: PlanModel) -> Seq<Seq<char>> {
    p.sources.map_values(|s: crate::plan::PathModel| s.path)
}

/// The encoder arguments for plan `p`: the filter-graph strategy when the
/// plan asks for it, joining audio only if every source has some; the concat
/// demuxer otherwise.
pub open spec fn encode_args(p: PlanModel, has_audio: Seq<bool>, catfile: Seq<char>) -> Seq<Seq<char>> {
    if p.flags.contains(Flag::ConcatFilter) {
        filter_args(source_paths(p), all_true(has_audio), p.target.path)
    } else {
        concat_args(catfile, p.target.path)
    }
}

/// Whether every entry of `has_audio` holds.
pub fn all_have_audio(has_audio: &Vec<bool>) -> (r: bool)
    ensures
        r == all_true(has_audio@),
{
    let mut i: usize = 0;
    while i < has_audio.len()
        invariant
            i <= has_audio@.len(),
            forall|k: int| 0 <= k < i ==> has_audio@[k],
        decreases has_audio.len() - i,
    {
        if !has_audio[i] {
            return false;
        }
        i = i + 1;
    }
    true
}

/// The encoder arguments for `plan`, given for each source whether it has
/// an audio stream, and the manifest path for the concat demuxer.
pub fn build_ffmpeg_args(plan: &Plan, has_audio: &Vec<bool>, catfile_path: &str) -> (r: Vec<String>)
    ensures
        texts(r@) == encode_args(plan@, has_audio@, catfile_path@),
{
    let mut args: Vec<String> = Vec::new();
    let target = &plan.target_path.path;
    if plan.uses_filter_graph() {
        let audio = all_have_audio(has_audio);
        let mut i: usize = 0;
        while i < plan.sources.len()
            invariant
                i <= plan.sources@.len(),
                texts(args@) == input_args(source_paths(plan@).take(i as int)),
            decreases plan.sources.len() - i,
        {
            let ghost paths = source_paths(plan@).take(i as int + 1);
            assert(paths.drop_last() =~= source_paths(plan@).take(i as int));
            push_arg(&mut args, "-i");
            push_arg(&mut args, plan.sources[i].path.as_str());
            assert(texts(args@) =~= input_args(paths));
            i = i + 1;
        }
        assert(source_paths(plan@).take(plan.sources@.len() as int) =~= source_paths(plan@));
        push_arg(&mut args, "-vsync");
        push_arg(&mut args, "cfr");
        push_arg(&mut args, "-r");
        push_arg(&mut args, "30");
        push_arg(&mut args, "-filter_complex");
        push_string_arg(&mut args, build_filter_graph(plan.sources.len(), audio));
        push_arg(&mut args, "-map");
        push_arg(&mut args, "[outv]");
        if audio {
            push_arg(&mut args, "-map");
            push_arg(&mut args, "[outa]");
            push_arg(&mut args, "-c:a");
            push_arg(&mut args, "aac");
            push_arg(&mut args, "-b:a");
            push_arg(&mut args, "128k");
        }
        push_arg(&mut args, "-c:v");
        push_arg(&mut args, "libx264");
        push_arg(&mut args, "-preset");
        push_arg(&mut args, "medium");
        push_arg(&mut args, "-crf");
        push_arg(&mut args, "23");
        push_arg(&mut args, "-progress");
        push_arg(&mut args, "pipe:1");
        push_arg(&mut args, target.as_str());
        push_arg(&mut args, "-y");
        assert(texts(args@) =~= encode_args(plan@, has_audio@, catfile_path@));
    } else {
        push_arg(&mut args, "-f");
        push_arg(&mut args, "concat");
        push_arg(&mut args, "-safe");
        push_arg(&mut args, "0");
        push_arg(&mut args, "-i");
        push_arg(&mut args, catfile_path);
        push_arg(&mut args, "-progress");
        push_arg(&mut args, "pipe:1");
        push_arg(&mut args, "-c");
        push_arg(&mut args, "copy");
        push_arg(&mut args, target.as_str());
        push_arg(&mut args, "-y");
        assert(texts(args@) =~= encode_args(plan@, has_audio@, catfile_path@));
    }
    args
}

/// Audio is all or nothing: once one source of a filter-graph plan lacks
/// audio, the arguments take the video-only form, whose only mapping is
/// `[outv]` and which sets no audio codec.
pub proof fn lemma_silent_source_video_only(p: PlanModel, has_audio: Seq<bool>, catfile: Seq<char>, i: int)
    requires
        p.flags.contains(Flag::ConcatFilter),
        0 <= i < has_audio.len(),
        !has_audio[i],
    ensures
        encode_args(p, has_audio, catfile) == filter_args(source_paths(p), false, p.target.path),
        map_args(false) == seq!["-map"@, "[outv]"@],
{
    assert(!all_true(has_audio));
}

// ---------------------------------------------------------------------------
// Probe arguments

/// Probe arguments that print a file's duration in seconds on one line.
pub open spec fn duration_probe_args(path: Seq<char>) -> Seq<Seq<char>> {
    seq![
        "-v"@, "error"@, "-show_entries"@, "format=duration"@, "-of"@,
        "default=noprint_wrappers=1:nokey=1"@, path,
    ]
}

/// Probe arguments that print the codec type of each audio stream.
pub open spec fn audio_probe_args(path: Seq<char>) -> Seq<Seq<char>> {
    seq![
        "-v"@, "error"@, "-select_streams"@, "a"@, "-show_entries"@, "stream=codec_type"@, "-of"@,
        "default=noprint_wrappers=1:nokey=1"@, path,
    ]
}

/// The probe arguments for the duration of the file at `path`.
pub fn build_duration_probe_args(path: &str) -> (r: Vec<String>)
    ensures
        texts(r@) == duration_probe_args(path@),
{
    let mut args: Vec<String> = Vec::new();
    push_arg(&mut args, "-v");
    push_arg(&mut args, "error");
    push_arg(&mut args, "-show_entries");
    push_arg(&mut args, "format=duration");
    push_arg(&mut args, "-of");
    push_arg(&mut args, "default=noprint_wrappers=1:nokey=1");
    push_arg(&mut args, path);
    assert(texts(args@) =~= duration_probe_args(path@));
    args
}

/// The probe arguments for the audio streams of the file at `path`.
pub fn build_audio_probe_args(path: &str) -> (r: Vec<String>)
    ensures
        texts(r@) == audio_probe_args(path@),
{
    let mut args: Vec<String> = Vec::new();
    push_arg(&mut args, "-v");
    push_arg(&mut args, "error");
    push_arg(&mut args, "-select_streams");
    push_arg(&mut args, "a");
    push_arg(&mut args, "-show_entries");
    push_arg(&mut args, "stream=codec_type");
    push_arg(&mut args, "-of");
    push_arg(&mut args, "default=noprint_wrappers=1:nokey=1");
    push_arg(&mut args, path);
    assert(texts(args@) =~= audio_probe_args(path@));
    args
}

} // verus!
