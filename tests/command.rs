use quick_trim::command::{frame_args, probe_args, trim_args, TrimMode};

#[test]
fn stream_copy_with_overwrite() {
    let args = trim_args(TrimMode::StreamCopy, "a.mp4", "b.mp4", "00:00:01.00", "00:00:05.00", true, false);
    assert_eq!(
        args,
        vec!["-ss", "00:00:01.00", "-to", "00:00:05.00", "-i", "a.mp4", "-c", "copy", "b.mp4", "-y"]
    );
}

#[test]
fn stream_copy_to_end_drops_end_pair() {
    let args = trim_args(TrimMode::StreamCopy, "a.mp4", "b.mp4", "00:00:01.00", "00:00:05.00", true, true);
    assert_eq!(args, vec!["-ss", "00:00:01.00", "-i", "a.mp4", "-c", "copy", "b.mp4", "-y"]);
}

#[test]
fn stream_copy_without_overwrite() {
    let args = trim_args(TrimMode::StreamCopy, "a.mp4", "b.mp4", "00:00:01.00", "00:00:05.00", false, false);
    assert_eq!(args, vec!["-ss", "00:00:01.00", "-to", "00:00:05.00", "-i", "a.mp4", "-c", "copy", "b.mp4"]);
}

#[test]
fn re_encode_shapes() {
    let full = trim_args(TrimMode::ReEncode, "a.mp4", "b.mp4", "00:00:01.00", "00:00:05.00", true, false);
    assert_eq!(
        full,
        vec!["-i", "a.mp4", "-ss", "00:00:01.00", "-t", "00:00:05.00", "-async", "1", "b.mp4", "-y"]
    );
    let cut = trim_args(TrimMode::ReEncode, "a.mp4", "b.mp4", "00:00:01.00", "00:00:05.00", false, true);
    assert_eq!(cut, vec!["-i", "a.mp4", "-ss", "00:00:01.00", "-async", "1", "b.mp4"]);
}

#[test]
fn to_end_equals_removing_pair_by_position() {
    for (mode, k) in [(TrimMode::StreamCopy, 2usize), (TrimMode::ReEncode, 4usize)] {
        for overwrite in [false, true] {
            let mut full = trim_args(mode, "in.mkv", "out.mp4", "00:01:00.00", "00:02:00.00", overwrite, false);
            full.remove(k);
            full.remove(k);
            let cut = trim_args(mode, "in.mkv", "out.mp4", "00:01:00.00", "00:02:00.00", overwrite, true);
            assert_eq!(full, cut);
        }
    }
}

#[test]
fn frame_extraction_args() {
    assert_eq!(
        frame_args("a.mp4", "00:00:05.00"),
        vec![
            "-ss", "00:00:05.00", "-i", "a.mp4", "-s", "213x120", "-vframes", "1", "-c:v", "png", "-f",
            "image2pipe", "pipe:1"
        ]
    );
}

#[test]
fn duration_probe_args() {
    assert_eq!(
        probe_args("a.mp4"),
        vec![
            "-v",
            "error",
            "-select_streams",
            "v:0",
            "-show_entries",
            "stream=duration",
            "-of",
            "default=noprint_wrappers=1:nokey=1",
            "a.mp4"
        ]
    );
}
