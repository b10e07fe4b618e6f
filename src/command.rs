//! Argument lists for the external media tools: trimming, extracting one
//! preview still, and probing a duration.

use vstd::prelude::*;

verus! {

/// How a trim is made: `StreamCopy` seeks before the input and copies the
/// streams (fast, cut at key frames); `ReEncode` seeks after the input and
/// encodes again (slow, cut at the exact frame).
#[derive(Clone, Copy, Debug, PartialEq, Eq, Structural)]
pub enum TrimMode {
    StreamCopy,
    ReEncode,
}

/// What a list of arguments holds, as text.
pub open spec fn texts(v: Seq<String>) -> Seq<Seq<char>> {
    v.map_values(|s: String| s@)
}

/// The `-y` flag where existing output is overwritten.
pub open spec fn overwrite_flag(overwrite: bool) -> Seq<Seq<char>> {
    if overwrite {
        seq!["-y"@]
    } else {
        seq![]
    }
}

/// Arguments of a trim of `path` into `output` between `start` and `end`;
/// with `to_end` the end pair is left out, so the trim runs to the end of
/// the input. In `ReEncode` the end goes to `-t` as it is.
pub open spec fn trim_args_of(
    mode: TrimMode,
    path: Seq<char>,
    output: Seq<char>,
    start: Seq<char>,
    end: Seq<char>,
    overwrite: bool,
    to_end: bool,
) -> Seq<Seq<char>> {
    match mode {
        TrimMode::StreamCopy => seq!["-ss"@, start] + (if to_end {
            seq![]
        } else {
            seq!["-to"@, end]
        }) + seq!["-i"@, path, "-c"@, "copy"@, output] + overwrite_flag(overwrite),
        TrimMode::ReEncode => seq!["-i"@, path, "-ss"@, start] + (if to_end {
            seq![]
        } else {
            seq!["-t"@, end]
        }) + seq!["-async"@, "1"@, output] + overwrite_flag(overwrite),
    }
}

/// Arguments that write one still of `path` at `time`, 213 by 120 pixels,
/// as PNG to standard output.
pub open spec fn frame_args_of(path: Seq<char>, time: Seq<char>) -> Seq<Seq<char>> {
    seq![
        "-ss"@,
        time,
        "-i"@,
        path,
        "-s"@,
        "213x120"@,
        "-vframes"@,
        "1"@,
        "-c:v"@,
        "png"@,
        "-f"@,
        "image2pipe"@,
        "pipe:1"@,
    ]
}

/// Arguments that print the duration of the first video stream of `path`,
/// in seconds, alone on its line.
pub open spec fn probe_args_of(path: Seq<char>) -> Seq<Seq<char>> {
    seq![
        "-v"@,
        "error"@,
        "-select_streams"@,
        "v:0"@,
        "-show_entries"@,
        "stream=duration"@,
        "-of"@,
        "default=noprint_wrappers=1:nokey=1"@,
        path,
    ]
}

fn push_arg(v: &mut Vec<String>, s: &str)
    ensures
        texts(final(v)@) == texts(old(v)@).push(s@),
{
    v.push(String::from_str(s));
    assert(texts(final(v)@) =~= texts(old(v)@).push(s@));
}

/// The trim arguments, built field by field.
pub fn trim_args(
    mode: TrimMode,
    path: &str,
    output: &str,
    start: &str,
    end: &str,
    overwrite: bool,
    to_end: bool,
) -> (r: Vec<String>)
    ensures
        texts(r@) == trim_args_of(mode, path@, output@, start@, end@, overwrite, to_end),
{
    let mut v: Vec<String> = Vec::new();
    match mode {
        TrimMode::StreamCopy => {
            push_arg(&mut v, "-ss");
            push_arg(&mut v, start);
            if !to_end {
                push_arg(&mut v, "-to");
                push_arg(&mut v, end);
            }
            push_arg(&mut v, "-i");
            push_arg(&mut v, path);
            push_arg(&mut v, "-c");
            push_arg(&mut v, "copy");
            push_arg(&mut v, output);
        },
        TrimMode::ReEncode => {
            push_arg(&mut v, "-i");
            push_arg(&mut v, path);
            push_arg(&mut v, "-ss");
            push_arg(&mut v, start);
            if !to_end {
                push_arg(&mut v, "-t");
                push_arg(&mut v, end);
            }
            push_arg(&mut v, "-async");
            push_arg(&mut v, "1");
            push_arg(&mut v, output);
        },
    }
    if overwrite {
        push_arg(&mut v, "-y");
    }
    assert(texts(v@) =~= trim_args_of(mode, path@, output@, start@, end@, overwrite, to_end));
    v
}

/// The arguments that extract one preview still of `path` at `time`.
pub fn frame_args(path: &str, time: &str) -> (r: Vec<String>)
    ensures
        texts(r@) == frame_args_of(path@, time@),
{
    let mut v: Vec<String> = Vec::new();
    push_arg(&mut v, "-ss");
    push_arg(&mut v, time);
    push_arg(&mut v, "-i");
    push_arg(&mut v, path);
    push_arg(&mut v, "-s");
    push_arg(&mut v, "213x120");
    push_arg(&mut v, "-vframes");
    push_arg(&mut v, "1");
    push_arg(&mut v, "-c:v");
    push_arg(&mut v, "png");
    push_arg(&mut v, "-f");
    push_arg(&mut v, "image2pipe");
    push_arg(&mut v, "pipe:1");
    assert(texts(v@) =~= frame_args_of(path@, time@));
    v
}

/// The arguments that probe the duration of `path`.
pub fn probe_args(path: &str) -> (r: Vec<String>)
    ensures
        texts(r@) == probe_args_of(path@),
{
    let mut v: Vec<String> = Vec::new();
    push_arg(&mut v, "-v");
    push_arg(&mut v, "error");
    push_arg(&mut v, "-select_streams");
    push_arg(&mut v, "v:0");
    push_arg(&mut v, "-show_entries");
    push_arg(&mut v, "stream=duration");
    push_arg(&mut v, "-of");
    push_arg(&mut v, "default=noprint_wrappers=1:nokey=1");
    push_arg(&mut v, path);
    assert(texts(v@) =~= probe_args_of(path@));
    v
}

/// Trimming to the end gives the full list with the end pair taken out: the
/// pair at index 2 (`-to`, end) for `StreamCopy` and at index 4 (`-t`, end)
/// for `ReEncode`; the overwrite flag stays last.
pub proof fn lemma_to_end_drops_end_pair(
    mode: TrimMode,
    path: Seq<char>,
    output: Seq<char>,
    start: Seq<char>,
    end: Seq<char>,
    overwrite: bool,
)
    ensures
        ({
            let full = trim_args_of(mode, path, output, start, end, overwrite, false);
            let k: int = match mode {
                TrimMode::StreamCopy => 2,
                TrimMode::ReEncode => 4,
            };
            &&& full[k] == (match mode {
                TrimMode::StreamCopy => "-to"@,
                TrimMode::ReEncode => "-t"@,
            })
            &&& full[k + 1] == end
            &&& trim_args_of(mode, path, output, start, end, overwrite, true) == full.subrange(0, k)
                + full.subrange(k + 2, full.len() as int)
        }),
        overwrite ==> ({
            let cut = trim_args_of(mode, path, output, start, end, overwrite, true);
            cut.last() == "-y"@
        }),
{
    let full = trim_args_of(mode, path, output, start, end, overwrite, false);
    let cut = trim_args_of(mode, path, output, start, end, overwrite, true);
    match mode {
        TrimMode::StreamCopy => {
            assert(cut =~= full.subrange(0, 2) + full.subrange(4, full.len() as int));
        },
        TrimMode::ReEncode => {
            assert(cut =~= full.subrange(0, 4) + full.subrange(6, full.len() as int));
        },
    }
}

} // verus!
