//! The decisions around merging a video stream with an audio stream.
use vstd::prelude::*;

use crate::bilingual::{bi, json_pair_text};
use crate::chars;
use crate::state::string_views;
use crate::text::{contains, join, lines, starts_with, trim, trim_start, views};

verus! {

/// Orders two downloaded streams as (video, audio) by what ffmpeg found in
/// them: the one that alone has a video stream goes first; when that does
/// not decide, the order given stays.
pub fn pick_av<'a>(a: &'a str, b: &'a str, a_has_video: bool, b_has_video: bool) -> (r: (
    &'a str,
    &'a str,
))
    ensures
        r == (if b_has_video && !a_has_video {
            (b, a)
        } else {
            (a, b)
        }),
{
    if a_has_video && !b_has_video {
        (a, b)
    } else if b_has_video && !a_has_video {
        (b, a)
    } else {
        (a, b)
    }
}

/// A line of `ffmpeg -i` output that lists a stream of the given kind.
pub open spec fn is_stream_line(l: Seq<char>, kind: Seq<char>) -> bool {
    starts_with(trim_start(l), "Stream #"@) && contains(l, seq![' '] + kind)
}

/// Whether ffmpeg's description of a file (its stderr) lists a stream of
/// the given kind (`Video:`, `Audio:`).
pub fn has_stream_in(stderr: &str, kind: &str) -> (r: bool)
    ensures
        r == exists|i: int|
            0 <= i < lines(stderr@).len() && is_stream_line(#[trigger] lines(stderr@)[i], kind@),
{
    let v = chars::chars_of(stderr);
    let ls = chars::lines(&v);
    let mut pat: Vec<char> = Vec::new();
    pat.push(' ');
    chars::append_str(&mut pat, kind);
    assert(pat@ =~= seq![' '] + kind@);
    let mut i: usize = 0;
    while i < ls.len()
        invariant
            i <= ls@.len(),
            views(ls@) == lines(stderr@),
            pat@ == seq![' '] + kind@,
            forall|j: int| 0 <= j < i ==> !is_stream_line(#[trigger] views(ls@)[j], kind@),
        decreases ls.len() - i,
    {
        let t = chars::trim_start(&ls[i]);
        assert(views(ls@)[i as int] == ls@[i as int]@);
        if chars::starts_with_str(&t, "Stream #") && chars::contains(&ls[i], &pat) {
            assert(is_stream_line(views(ls@)[i as int], kind@));
            return true;
        }
        i = i + 1;
    }
    false
}

/// The non-blank lines of a text, trimmed.
pub open spec fn trimmed_lines(ls: Seq<Seq<char>>) -> Seq<Seq<char>>
    decreases ls.len(),
{
    if ls.len() == 0 {
        Seq::empty()
    } else if trim(ls.last()).len() == 0 {
        trimmed_lines(ls.drop_last())
    } else {
        trimmed_lines(ls.drop_last()).push(trim(ls.last()))
    }
}

/// The last `n` non-blank lines of a tool's output, trimmed and joined with ` | `.
pub open spec fn last_lines_spec(s: Seq<char>, n: nat) -> Seq<char> {
    let ls = trimmed_lines(lines(s));
    let start = if ls.len() > n {
        ls.len() - n
    } else {
        0
    };
    join(ls.skip(start), " | "@)
}

pub fn last_lines(s: &str, n: usize) -> (r: String)
    ensures
        r@ == last_lines_spec(s@, n as nat),
{
    let v = chars::chars_of(s);
    let ls = chars::lines(&v);
    let ghost all = views(ls@);
    let mut kept: Vec<Vec<char>> = Vec::new();
    let mut i: usize = 0;
    while i < ls.len()
        invariant
            i <= ls@.len(),
            all == views(ls@),
            all == lines(s@),
            views(kept@) == trimmed_lines(all.take(i as int)),
        decreases ls.len() - i,
    {
        assert(all.take(i + 1).drop_last() =~= all.take(i as int));
        assert(all.take(i + 1).last() == ls@[i as int]@);
        let t = chars::trim(&ls[i]);
        if t.len() > 0 {
            let ghost k0 = kept@;
            kept.push(t);
            assert(views(kept@) =~= views(k0).push(t@));
        }
        i = i + 1;
    }
    assert(all.take(ls@.len() as int) =~= all);
    let start = if kept.len() > n {
        kept.len() - n
    } else {
        0
    };
    let sep = chars::chars_of(" | ");
    let mut out: Vec<char> = Vec::new();
    let mut j = start;
    let ghost tail = views(kept@).skip(start as int);
    assert(tail.take(0) =~= Seq::<Seq<char>>::empty());
    while j < kept.len()
        invariant
            start <= j <= kept@.len(),
            tail == views(kept@).skip(start as int),
            sep@ == " | "@,
            out@ == join(tail.take(j - start), " | "@),
        decreases kept.len() - j,
    {
        assert(tail.take(j + 1 - start).drop_last() =~= tail.take(j - start));
        assert(tail.take(j + 1 - start).last() == kept@[j as int]@);
        if j > start {
            chars::append(&mut out, &sep);
        } else {
            assert(out@ =~= Seq::<char>::empty());
        }
        chars::append(&mut out, &kept[j]);
        j = j + 1;
    }
    assert(tail.take(kept@.len() - start) =~= tail);
    chars::string_of(&out)
}

/// The arguments of the ffmpeg run that merges the video stream of `video`
/// with the audio stream of `audio` into `output`: the video copied, the
/// audio encoded as AAC at 192 kbit/s, moov atom first, cut to the shorter.
pub open spec fn merge_args_spec(video: Seq<char>, audio: Seq<char>, output: Seq<char>) -> Seq<Seq<char>> {
    seq![
        "-y"@,
        "-i"@,
        video,
        "-i"@,
        audio,
        "-map"@,
        "0:v:0"@,
        "-map"@,
        "1:a:0"@,
        "-c:v"@,
        "copy"@,
        "-c:a"@,
        "aac"@,
        "-b:a"@,
        "192k"@,
        "-movflags"@,
        "+faststart"@,
        "-shortest"@,
        output,
    ]
}

fn push_all(v: &mut Vec<String>, xs: &[&str])
    ensures
        string_views(final(v)@) == string_views(old(v)@) + xs@.map_values(|x: &str| x@),
{
    let ghost v0 = string_views(v@);
    let mut i: usize = 0;
    while i < xs.len()
        invariant
            i <= xs@.len(),
            string_views(v@) == v0 + xs@.take(i as int).map_values(|x: &str| x@),
        decreases xs.len() - i,
    {
        let ghost before = string_views(v@);
        v.push(chars::owned(xs[i]));
        assert(string_views(v@) =~= before.push(xs@[i as int]@));
        assert(xs@.take(i + 1).map_values(|x: &str| x@) =~= xs@.take(i as int).map_values(
            |x: &str| x@,
        ).push(xs@[i as int]@));
        i = i + 1;
    }
    assert(xs@.take(xs@.len() as int) =~= xs@);
}

pub fn merge_args(video: &str, audio: &str, output: &str) -> (r: Vec<String>)
    ensures
        string_views(r@) == merge_args_spec(video@, audio@, output@),
{
    let mut v: Vec<String> = Vec::new();
    push_all(&mut v, &["-y", "-i", video, "-i", audio, "-map", "0:v:0", "-map", "1:a:0"]);
    push_all(
        &mut v,
        &["-c:v", "copy", "-c:a", "aac", "-b:a", "192k", "-movflags", "+faststart", "-shortest", output],
    );
    assert(string_views(v@) =~= merge_args_spec(video@, audio@, output@));
    v
}

/// The error when ffmpeg is not installed.
pub fn ffmpeg_missing() -> (r: String)
    ensures
        r@ == json_pair_text(
            "未检测到 ffmpeg, 无法合并音视频。请安装 ffmpeg 并加入 PATH 后重试; 或单独下载其中一条(视频无声 / 仅音频)。"@,
            "ffmpeg not found, cannot merge audio and video. Install ffmpeg and add it to PATH, then retry; or download one of the streams separately (video without sound / audio only)."@,
        ),
{
    bi(
        "未检测到 ffmpeg, 无法合并音视频。请安装 ffmpeg 并加入 PATH 后重试; 或单独下载其中一条(视频无声 / 仅音频)。",
        "ffmpeg not found, cannot merge audio and video. Install ffmpeg and add it to PATH, then retry; or download one of the streams separately (video without sound / audio only).",
    )
}

fn after(prefix: &str, s: &str) -> (r: String)
    ensures
        r@ == prefix@ + s@,
{
    let mut v = chars::chars_of(prefix);
    chars::append_str(&mut v, s);
    chars::string_of(&v)
}

/// The error when ffmpeg could not be started, with the launch error.
pub fn ffmpeg_launch_failed(err: &str) -> (r: String)
    ensures
        r@ == json_pair_text("启动 ffmpeg 失败: "@ + err@, "Failed to launch ffmpeg: "@ + err@),
{
    let zh = after("启动 ffmpeg 失败: ", err);
    let en = after("Failed to launch ffmpeg: ", err);
    bi(zh.as_str(), en.as_str())
}

/// The error when the merge failed: the last three lines of ffmpeg's
/// error output.
pub fn merge_failed(stderr: &str) -> (r: String)
    ensures
        r@ == json_pair_text(
            "ffmpeg 合并失败: "@ + last_lines_spec(stderr@, 3),
            "ffmpeg merge failed: "@ + last_lines_spec(stderr@, 3),
        ),
{
    let tail = last_lines(stderr, 3);
    let zh = after("ffmpeg 合并失败: ", tail.as_str());
    let en = after("ffmpeg merge failed: ", tail.as_str());
    bi(zh.as_str(), en.as_str())
}

} // verus!
