use std::io::Cursor;

use quick_trim::preview::{Frame, PreviewCache, PreviewSlot};
use quick_trim::scrubber::Handle;

fn png_bytes() -> Vec<u8> {
    let img = image::RgbaImage::from_raw(2, 1, vec![10, 20, 30, 255, 40, 50, 60, 128]).unwrap();
    let mut out = Cursor::new(Vec::new());
    img.write_to(&mut out, image::ImageOutputFormat::Png).unwrap();
    out.into_inner()
}

fn frame(v: u8) -> Frame {
    Frame::from_rgba(1, 1, vec![v, v, v, 255]).unwrap()
}

#[test]
fn frame_needs_four_bytes_per_pixel() {
    assert!(Frame::from_rgba(2, 1, vec![0; 8]).is_some());
    assert!(Frame::from_rgba(2, 1, vec![0; 7]).is_none());
    assert!(Frame::from_rgba(0, 0, vec![]).is_some());
}

#[test]
fn slot_starts_absent() {
    let s = PreviewSlot::new();
    assert!(s.frame.is_none());
    assert!(!s.stale);
}

#[test]
fn failed_fetch_keeps_frame_without_drag() {
    let mut s = PreviewSlot::new();
    s.store(Some(frame(1)));
    s.store(None);
    assert_eq!(s.frame.as_ref().unwrap().rgba, vec![1, 1, 1, 255]);
}

#[test]
fn failed_fetch_after_drag_leaves_absent() {
    let mut s = PreviewSlot::new();
    s.store(Some(frame(1)));
    s.invalidate();
    assert!(s.frame.is_some(), "a stale frame stays shown");
    s.store(None);
    assert!(s.frame.is_none());
    assert!(!s.stale);
}

#[test]
fn failed_fetch_on_absent_stays_absent() {
    let mut s = PreviewSlot::new();
    s.store(None);
    assert!(s.frame.is_none());
}

#[test]
fn successful_fetch_replaces_frame() {
    let mut s = PreviewSlot::new();
    s.store(Some(frame(1)));
    s.store(Some(frame(2)));
    assert_eq!(s.frame.as_ref().unwrap().rgba, vec![2, 2, 2, 255]);
}

#[test]
fn receive_decodes_png() {
    let mut c = PreviewCache::new();
    let bytes = png_bytes();
    c.receive(Handle::End, Some(&bytes));
    let f = c.end.frame.as_ref().expect("decoded");
    assert_eq!((f.width, f.height), (2, 1));
    assert_eq!(f.rgba, vec![10, 20, 30, 255, 40, 50, 60, 128]);
    assert!(c.start.frame.is_none());
}

#[test]
fn receive_undecodable_bytes_after_drag() {
    let mut c = PreviewCache::new();
    let bytes = png_bytes();
    c.receive(Handle::Start, Some(&bytes));
    c.invalidate(Handle::Start);
    c.receive(Handle::Start, Some(&[1, 2, 3]));
    assert!(c.start.frame.is_none());
}

#[test]
fn receive_nothing_without_drag_keeps_frame() {
    let mut c = PreviewCache::new();
    let bytes = png_bytes();
    c.receive(Handle::Start, Some(&bytes));
    c.receive(Handle::Start, None);
    c.receive(Handle::Start, Some(&[]));
    assert_eq!(c.start.frame.as_ref().unwrap().width, 2);
}
