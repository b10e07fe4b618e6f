use quick_trim::command::{frame_args, TrimMode};
use quick_trim::range::RangeModel;
use quick_trim::scrubber::Handle;
use quick_trim::session::{MissingInput, Session, TRACK_PX};

// 1280 s on the standard track: 200 hundredths per pixel.
fn opened() -> Session {
    let mut s = Session::new(TRACK_PX);
    s.open_media("a.mp4".to_string(), 128000);
    s
}

#[test]
fn new_session_is_empty() {
    let s = Session::new(TRACK_PX);
    assert_eq!(s.range, RangeModel { duration: 0, start: 0, end: 0, to_end: false });
    assert!(s.source.is_none() && s.destination.is_none());
    assert_eq!(s.mode, TrimMode::StreamCopy);
    assert!(s.overwrite);
    assert!(s.request(Handle::Start).is_none());
}

#[test]
fn open_selects_all_and_asks_both_stills() {
    let mut s = Session::new(TRACK_PX);
    let (a, b) = s.open_media("a.mp4".to_string(), 128000);
    assert_eq!((s.range.start, s.range.end, s.range.duration), (0, 128000, 128000));
    assert_eq!(a.handle, Handle::Start);
    assert_eq!(a.args, frame_args("a.mp4", "00:00:00.00"));
    assert_eq!(b.handle, Handle::End);
    assert_eq!(b.args, frame_args("a.mp4", "00:21:20.00"));
}

#[test]
fn drag_moves_start_by_step_per_pixel() {
    let mut s = opened();
    s.begin_drag(Handle::Start);
    assert!(s.previews.start.stale);
    s.drag(5000, 0);
    assert_eq!(s.range.start, 10000);
    assert_eq!(s.handle_position(Handle::Start), 50);
    let req = s.end_drag(Handle::Start).expect("a still is asked for");
    assert_eq!(req.args, frame_args("a.mp4", "00:01:40.00"));
    assert!(s.end_drag(Handle::Start).is_none(), "one request per release");
}

#[test]
fn drag_clamps_both_ends() {
    let mut s = opened();
    s.drag(-1000, 1000);
    assert_eq!((s.range.start, s.range.end), (0, 128000));
    s.drag(0, -10000);
    assert_eq!(s.range.end, 108000);
}

#[test]
fn start_may_pass_track_end() {
    let mut s = opened();
    s.drag(100000, 0);
    assert_eq!(s.range.start, 200000);
    assert_eq!(s.handle_position(Handle::Start), TRACK_PX);
}

#[test]
fn end_ignores_drag_while_pinned() {
    let mut s = opened();
    s.drag(0, -10000);
    s.set_to_end(true);
    assert_eq!(s.range.end, 108000, "pinned at the next update");
    s.begin_drag(Handle::End);
    assert!(!s.dragging_end);
    s.drag(0, -3000);
    assert_eq!(s.range.end, 128000);
    assert!(s.end_drag(Handle::End).is_none());
}

#[test]
fn edit_with_good_and_bad_text() {
    let mut s = opened();
    let req = s.edit(Handle::Start, "00:00:10.00").expect("source open");
    assert_eq!(s.range.start, 1000);
    assert_eq!(req.args, frame_args("a.mp4", "00:00:10.00"));
    let before = s.range;
    let req = s.edit(Handle::Start, "10 seconds").expect("still asked");
    assert_eq!(s.range, before);
    assert_eq!(req.args, frame_args("a.mp4", "00:00:10.00"));
    s.edit(Handle::End, "99:00:00");
    assert_eq!(s.range.end, 128000);
    s.edit(Handle::End, "00:10:00.00");
    assert_eq!(s.range.end, 60000);
}

#[test]
fn edit_with_signed_and_fractional_text() {
    let mut s = opened();
    s.edit(Handle::Start, "0:0.5:0");
    assert_eq!(s.range.start, 3000);
    s.edit(Handle::Start, "-0:0:5");
    assert_eq!(s.range.start, 500);
    s.edit(Handle::Start, "-1:0:0");
    assert_eq!(s.range.start, 0, "a negative time goes through the clamp");
    s.edit(Handle::End, "0:0:-3");
    assert_eq!(s.range.end, 0);
}

#[test]
fn sub_pixel_ticks_accumulate() {
    // 6.4 s over 640 px: one hundredth per pixel.
    let mut s = Session::new(TRACK_PX);
    s.open_media("short.mp4".to_string(), 640);
    s.begin_drag(Handle::Start);
    for _ in 0..10 {
        s.drag(30, 0);
    }
    assert_eq!(s.range.start, 3);
    s.begin_drag(Handle::Start);
    assert_eq!(s.carry_start, 0);
}

#[test]
fn edit_without_source_asks_nothing() {
    let mut s = Session::new(TRACK_PX);
    assert!(s.edit(Handle::Start, "00:00:01.00").is_none());
}

#[test]
fn failed_still_after_drag_is_absent() {
    let mut s = opened();
    s.receive_frame(Handle::Start, None);
    s.begin_drag(Handle::Start);
    s.drag(300, 0);
    s.end_drag(Handle::Start);
    s.receive_frame(Handle::Start, Some(&[0, 1, 2]));
    assert!(s.previews.start.frame.is_none());
    assert!(!s.previews.start.stale);
}

#[test]
fn trim_needs_source_and_destination() {
    let s = Session::new(TRACK_PX);
    assert_eq!(s.trim_command(), Err(MissingInput { source: true, destination: true }));
    let mut s = opened();
    assert_eq!(s.trim_command(), Err(MissingInput { source: false, destination: true }));
    s.source = None;
    s.destination = Some("b.mp4".to_string());
    assert_eq!(s.trim_command(), Err(MissingInput { source: true, destination: false }));
}

#[test]
fn trim_command_from_session() {
    let mut s = opened();
    s.destination = Some("b.mp4".to_string());
    s.edit(Handle::Start, "00:00:01.00");
    s.edit(Handle::End, "00:00:05.00");
    assert_eq!(
        s.trim_command().unwrap(),
        vec!["-ss", "00:00:01.00", "-to", "00:00:05.00", "-i", "a.mp4", "-c", "copy", "b.mp4", "-y"]
    );
    s.set_to_end(true);
    s.mode = TrimMode::ReEncode;
    s.overwrite = false;
    s.drag(0, 0);
    assert_eq!(
        s.trim_command().unwrap(),
        vec!["-i", "a.mp4", "-ss", "00:00:01.00", "-async", "1", "b.mp4"]
    );
}

#[test]
fn reset_returns_to_new() {
    let mut s = opened();
    s.destination = Some("b.mp4".to_string());
    s.drag(2000, -2000);
    s.reset();
    assert_eq!(s.range, RangeModel { duration: 0, start: 0, end: 0, to_end: false });
    assert!(s.source.is_none() && s.destination.is_none());
    assert_eq!(s.track_px, TRACK_PX);
}
