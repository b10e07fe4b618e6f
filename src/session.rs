//! The trimming session: one state object, changed only through the
//! operations below, one per user event.

use crate::command::{frame_args, frame_args_of, texts, trim_args, trim_args_of, TrimMode};
use crate::preview::{decoded_rgba, PreviewCache};
use crate::range::RangeModel;
use crate::scrubber::{drag_carry, drag_moved, drag_value, handle_pixel, pixel_of, Handle};
use crate::timecode::{format_time, parse_time, parsed_time, time_text};
use vstd::prelude::*;

verus! {

/// Length of the scrub track in pixels.
pub const TRACK_PX: u64 = 640;

/// A still to fetch for a handle: the arguments for the frame extractor.
#[derive(Debug)]
pub struct FrameRequest {
    pub handle: Handle,
    pub args: Vec<String>,
}

/// What is missing before a trim can run: the media to trim, the file to
/// write, or both.
#[derive(Clone, Copy, Debug, PartialEq, Eq, Structural)]
pub struct MissingInput {
    pub source: bool,
    pub destination: bool,
}

#[derive(Debug)]
pub struct Session {
    pub range: RangeModel,
    pub previews: PreviewCache,
    pub track_px: u64,
    pub dragging_start: bool,
    pub dragging_end: bool,
    /// What the drags of each handle left over, below a hundredth of a
    /// second, in units of `1 / (100 * track_px)` hundredth.
    pub carry_start: u128,
    pub carry_end: u128,
    pub source: Option<String>,
    pub destination: Option<String>,
    pub mode: TrimMode,
    pub overwrite: bool,
}

impl Session {
    pub open spec fn wf(&self) -> bool {
        &&& self.range.wf()
        &&& self.track_px > 0
        &&& self.carry_start < 100 * self.track_px
        &&& self.carry_end < 100 * self.track_px
    }

    /// The time that handle `h` stands for.
    pub open spec fn value_of(self, h: Handle) -> u64 {
        match h {
            Handle::Start => self.range.start,
            Handle::End => self.range.end,
        }
    }

    pub open spec fn dragging_of(self, h: Handle) -> bool {
        match h {
            Handle::Start => self.dragging_start,
            Handle::End => self.dragging_end,
        }
    }

    /// The session with the drag state of `h` set to `on`.
    pub open spec fn with_dragging(self, h: Handle, on: bool) -> Session {
        match h {
            Handle::Start => Session { dragging_start: on, ..self },
            Handle::End => Session { dragging_end: on, ..self },
        }
    }

    /// Whether handle `h` can move: the end cannot while pinned to the end.
    pub open spec fn movable(self, h: Handle) -> bool {
        !(h == Handle::End && self.range.to_end)
    }

    /// Whether `r` asks for the still of `h` at its current time.
    pub open spec fn requests(self, h: Handle, r: FrameRequest) -> bool {
        &&& self.source is Some
        &&& r.handle == h
        &&& texts(r.args@) == frame_args_of(self.source->0@, time_text(self.value_of(h) as nat))
    }

    /// The session after a tick of drags by `start_delta` and `end_delta`
    /// hundredths of a pixel; the end's drag counts for nothing while pinned
    /// to the end. Each handle moves by what its drag and its leftover come
    /// to, and keeps the new leftover; then the range is clamped.
    pub open spec fn dragged(self, start_delta: int, end_delta: int) -> Session {
        let d = self.range.duration as int;
        let l = self.track_px as int;
        let cs = self.carry_start as int;
        let ce = self.carry_end as int;
        let pinned = self.range.to_end;
        Session {
            range: self.range.updated(
                self.range.start + drag_moved(cs, start_delta, d, l),
                if pinned {
                    self.range.end as int
                } else {
                    self.range.end + drag_moved(ce, end_delta, d, l)
                },
                pinned,
            ),
            carry_start: drag_carry(cs, start_delta, d, l) as u128,
            carry_end: if pinned {
                self.carry_end
            } else {
                drag_carry(ce, end_delta, d, l) as u128
            },
            ..self
        }
    }

    /// The range after text for `h` was read as `v`, which goes through
    /// the clamp like any other update.
    pub open spec fn edited(self, h: Handle, v: int) -> RangeModel {
        match h {
            Handle::Start => self.range.updated(v, self.range.end as int, self.range.to_end),
            Handle::End => self.range.updated(self.range.start as int, v, self.range.to_end),
        }
    }

    /// A session with nothing open: an empty range, absent previews, no
    /// source or destination, copying the streams and overwriting.
    pub fn new(track_px: u64) -> (r: Session)
        requires
            track_px > 0,
        ensures
            r.wf(),
            r.range == (RangeModel { duration: 0, start: 0, end: 0, to_end: false }),
            r.previews.start.frame is None && !r.previews.start.stale,
            r.previews.end.frame is None && !r.previews.end.stale,
            r.track_px == track_px,
            !r.dragging_start && !r.dragging_end,
            r.carry_start == 0 && r.carry_end == 0,
            r.source is None && r.destination is None,
            r.mode == TrimMode::StreamCopy,
            r.overwrite,
    {
        Session {
            range: RangeModel::new(),
            previews: PreviewCache::new(),
            track_px,
            dragging_start: false,
            dragging_end: false,
            carry_start: 0,
            carry_end: 0,
            source: None,
            destination: None,
            mode: TrimMode::StreamCopy,
            overwrite: true,
        }
    }

    /// Back to the state of `new`, on the same track.
    pub fn reset(&mut self)
        requires
            old(self).wf(),
        ensures
            final(self).wf(),
            final(self).range == (RangeModel { duration: 0, start: 0, end: 0, to_end: false }),
            final(self).previews.start.frame is None && !final(self).previews.start.stale,
            final(self).previews.end.frame is None && !final(self).previews.end.stale,
            final(self).track_px == old(self).track_px,
            !final(self).dragging_start && !final(self).dragging_end,
            final(self).carry_start == 0 && final(self).carry_end == 0,
            final(self).source is None && final(self).destination is None,
            final(self).mode == TrimMode::StreamCopy,
            final(self).overwrite,
    {
        *self = Session::new(self.track_px);
    }

    /// The still request for handle `h` at its current time, where a source
    /// is open.
    pub fn request(&self, h: Handle) -> (r: Option<FrameRequest>)
        ensures
            r is Some <==> self.source is Some,
            r matches Some(q) ==> self.requests(h, q),
    {
        match &self.source {
            Some(path) => {
                let time = format_time(
                    match h {
                        Handle::Start => self.range.start,
                        Handle::End => self.range.end,
                    },
                );
                Some(FrameRequest { handle: h, args: frame_args(path.as_str(), time.as_str()) })
            },
            None => None,
        }
    }

    /// Opens the media at `path`, of duration `d`: all of it is selected,
    /// both previews are absent, no drag is under way. Then asks for the
    /// stills of both handles.
    pub fn open_media(&mut self, path: String, d: u64) -> (r: (FrameRequest, FrameRequest))
        requires
            old(self).wf(),
        ensures
            final(self).wf(),
            final(self).range == (RangeModel {
                duration: d,
                start: 0,
                end: d,
                to_end: old(self).range.to_end,
            }),
            final(self).source == Some(path),
            final(self).previews.start.frame is None && !final(self).previews.start.stale,
            final(self).previews.end.frame is None && !final(self).previews.end.stale,
            !final(self).dragging_start && !final(self).dragging_end,
            final(self).carry_start == 0 && final(self).carry_end == 0,
            final(self).track_px == old(self).track_px,
            final(self).destination == old(self).destination,
            final(self).mode == old(self).mode,
            final(self).overwrite == old(self).overwrite,
            final(self).requests(Handle::Start, r.0),
            final(self).requests(Handle::End, r.1),
    {
        self.range.set_duration(d);
        self.previews = PreviewCache::new();
        self.dragging_start = false;
        self.dragging_end = false;
        self.carry_start = 0;
        self.carry_end = 0;
        let time_start = format_time(self.range.start);
        let time_end = format_time(self.range.end);
        let first = FrameRequest {
            handle: Handle::Start,
            args: frame_args(path.as_str(), time_start.as_str()),
        };
        let second = FrameRequest {
            handle: Handle::End,
            args: frame_args(path.as_str(), time_end.as_str()),
        };
        self.source = Some(path);
        (first, second)
    }

    /// The session with the drag of `h` under way from no leftover.
    pub open spec fn started(self, h: Handle) -> Session {
        match h {
            Handle::Start => Session { dragging_start: true, carry_start: 0, ..self },
            Handle::End => Session { dragging_end: true, carry_end: 0, ..self },
        }
    }

    /// A drag of `h` starts from no leftover: its preview goes stale, and
    /// stays shown until the next still comes back. The end does not start
    /// to drag while pinned to the end.
    pub fn begin_drag(&mut self, h: Handle)
        requires
            old(self).wf(),
        ensures
            final(self).wf(),
            old(self).movable(h) ==> *final(self) == (Session {
                previews: old(self).previews.with_slot(
                    h,
                    old(self).previews.slot_of(h).invalidated(),
                ),
                ..old(self).started(h)
            }),
            !old(self).movable(h) ==> *final(self) == *old(self),
    {
        if h == Handle::End && self.range.to_end {
            return;
        }
        self.previews.invalidate(h);
        match h {
            Handle::Start => {
                self.dragging_start = true;
                self.carry_start = 0;
            },
            Handle::End => {
                self.dragging_end = true;
                self.carry_end = 0;
            },
        }
    }

    /// One tick of the pointer: the start moves by `start_delta` hundredths
    /// of a pixel and the end by `end_delta` (ignored while pinned to the
    /// end), each at the time per pixel of the track, with the leftover of
    /// earlier ticks added in; then the range is clamped.
    pub fn drag(&mut self, start_delta: i32, end_delta: i32)
        requires
            old(self).wf(),
        ensures
            final(self).wf(),
            *final(self) == old(self).dragged(start_delta as int, end_delta as int),
    {
        let (new_start, carry_start) = drag_value(
            self.range.start,
            self.carry_start,
            start_delta,
            self.range.duration,
            self.track_px,
        );
        let to_end = self.range.to_end;
        let new_end = if to_end {
            self.range.end as i128
        } else {
            let (e, c) = drag_value(
                self.range.end,
                self.carry_end,
                end_delta,
                self.range.duration,
                self.track_px,
            );
            self.carry_end = c;
            e
        };
        self.carry_start = carry_start;
        self.range.apply_update(new_start, new_end, to_end);
    }

    /// The pointer is released. Where `h` was being dragged, its time is
    /// committed: the drag ends and its still is asked for.
    pub fn end_drag(&mut self, h: Handle) -> (r: Option<FrameRequest>)
        ensures
            *final(self) == old(self).with_dragging(h, false),
            r is Some <==> old(self).dragging_of(h) && old(self).source is Some,
            r matches Some(q) ==> final(self).requests(h, q),
    {
        let was = match h {
            Handle::Start => self.dragging_start,
            Handle::End => self.dragging_end,
        };
        match h {
            Handle::Start => self.dragging_start = false,
            Handle::End => self.dragging_end = false,
        }
        if was {
            self.request(h)
        } else {
            None
        }
    }

    /// Text typed for `h` is committed. Text that reads as a time updates
    /// that handle through the clamp, so a negative time becomes zero; other
    /// text leaves the range as it was. Either way the still of `h` is asked for.
    pub fn edit(&mut self, h: Handle, text: &str) -> (r: Option<FrameRequest>)
        ensures
            final(self).range == (match parsed_time(text@) {
                Some(v) => old(self).edited(h, v as int),
                None => old(self).range,
            }),
            *final(self) == (Session { range: final(self).range, ..*old(self) }),
            r is Some <==> old(self).source is Some,
            r matches Some(q) ==> final(self).requests(h, q),
    {
        match parse_time(text) {
            Some(v) => {
                let to_end = self.range.to_end;
                match h {
                    Handle::Start => {
                        let end = self.range.end as i128;
                        self.range.apply_update(v, end, to_end);
                    },
                    Handle::End => {
                        let start = self.range.start as i128;
                        self.range.apply_update(start, v, to_end);
                    },
                }
            },
            None => {},
        }
        self.request(h)
    }

    /// Pins the end to the duration, or frees it; the end moves at the next
    /// update.
    pub fn set_to_end(&mut self, on: bool)
        ensures
            *final(self) == (Session {
                range: RangeModel { to_end: on, ..old(self).range },
                ..*old(self)
            }),
    {
        self.range.set_to_end(on);
    }

    /// The still asked for `h` came back as `bytes`, or not at all.
    pub fn receive_frame(&mut self, h: Handle, bytes: Option<&[u8]>)
        ensures
            *final(self) == (Session { previews: final(self).previews, ..*old(self) }),
            final(self).previews.slot_of(h).stale == false,
            final(self).previews.with_slot(h, old(self).previews.slot_of(h)) == old(
                self,
            ).previews,
            match bytes {
                Some(b) => match decoded_rgba(b@) {
                    Some(d) => final(self).previews.slot_of(h).frame matches Some(f) && (
                    f.width,
                    f.height,
                    f.rgba@,
                    ) == d && f.wf(),
                    None => final(self).previews.slot_of(h) == old(self).previews.slot_of(
                        h,
                    ).stored(None),
                },
                None => final(self).previews.slot_of(h) == old(self).previews.slot_of(h).stored(
                    None,
                ),
            },
    {
        self.previews.receive(h, bytes);
    }

    /// Where handle `h` is drawn, in pixels from the left end of the track.
    /// The stored time may lie past the track's end; the drawing stops there.
    pub fn handle_position(&self, h: Handle) -> (r: u64)
        ensures
            r == pixel_of(self.value_of(h) as int, self.range.duration as int, self.track_px as int),
            r <= self.track_px,
    {
        let v = match h {
            Handle::Start => self.range.start,
            Handle::End => self.range.end,
        };
        handle_pixel(v, self.range.duration, self.track_px)
    }

    /// The arguments of the trim that the session describes, or what is
    /// missing for it. Nothing is run where something is missing.
    pub fn trim_command(&self) -> (r: Result<Vec<String>, MissingInput>)
        ensures
            r is Ok <==> self.source is Some && self.destination is Some,
            r matches Err(m) ==> m == (MissingInput {
                source: self.source is None,
                destination: self.destination is None,
            }),
            r matches Ok(v) ==> texts(v@) == trim_args_of(
                self.mode,
                self.source->0@,
                self.destination->0@,
                time_text(self.range.start as nat),
                time_text(self.range.end as nat),
                self.overwrite,
                self.range.to_end,
            ),
    {
        match (&self.source, &self.destination) {
            (Some(path), Some(output)) => {
                let start = format_time(self.range.start);
                let end = format_time(self.range.end);
                Ok(
                    trim_args(
                        self.mode,
                        path.as_str(),
                        output.as_str(),
                        start.as_str(),
                        end.as_str(),
                        self.overwrite,
                        self.range.to_end,
                    ),
                )
            },
            _ => Err(
                MissingInput { source: self.source.is_none(), destination: self.destination.is_none() },
            ),
        }
    }
}

} // verus!
