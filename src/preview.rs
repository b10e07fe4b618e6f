//! One cached preview still per handle, invalidated when a drag starts and
//! refreshed from each fetch that follows a commit.

use crate::scrubber::Handle;
use vstd::prelude::*;

verus! {

/// A decoded still: its size and its pixels as RGBA bytes, four per pixel,
/// row by row.
#[derive(Debug)]
pub struct Frame {
    pub width: u32,
    pub height: u32,
    pub rgba: Vec<u8>,
}

impl Frame {
    pub open spec fn wf(&self) -> bool {
        self.rgba@.len() == 4 * self.width * self.height
    }

    /// A frame of the given size, where `rgba` holds exactly four bytes per
    /// pixel.
    pub fn from_rgba(width: u32, height: u32, rgba: Vec<u8>) -> (r: Option<Frame>)
        ensures
            r is Some <==> rgba@.len() == 4 * width * height,
            r matches Some(f) ==> f.width == width && f.height == height && f.rgba@ == rgba@
                && f.wf(),
    {
        assert(4 * (width as u128) * (height as u128) <= 4 * 0xffff_ffffu128 * 0xffff_ffffu128)
            by (nonlinear_arith)
            requires
                width <= 0xffff_ffffu32,
                height <= 0xffff_ffffu32,
        ;
        let n = 4 * (width as u128) * (height as u128);
        if rgba.len() as u128 == n {
            Some(Frame { width, height, rgba })
        } else {
            None
        }
    }
}

/// Width, height and RGBA bytes of the image that `bytes` encode, where they
/// encode one in a format that the decoder knows.
pub uninterp spec fn decoded_rgba(bytes: Seq<u8>) -> Option<(u32, u32, Seq<u8>)>;

/// Relies on `image::load_from_memory`, which guesses the format from the
/// leading bytes (and so fails on no bytes) and decodes the image or fails,
/// and on
/// `DynamicImage::to_rgba8`, whose buffer holds four bytes per pixel.
#[verifier::external_body]
fn decode_image(bytes: &[u8]) -> (r: Option<Frame>)
    ensures
        r is None <==> decoded_rgba(bytes@) is None,
        r matches Some(f) ==> decoded_rgba(bytes@) == Some((f.width, f.height, f.rgba@)),
        r matches Some(f) ==> f.wf(),
        bytes@.len() == 0 ==> r is None,
{
    match image::load_from_memory(bytes) {
        Ok(img) => {
            let rgba = img.to_rgba8();
            Some(Frame { width: rgba.width(), height: rgba.height(), rgba: rgba.into_raw() })
        },
        Err(_) => None,
    }
}

/// The preview of one handle. `frame` is what is shown (absent: a
/// placeholder); `stale` says that a drag has started since it was fetched.
#[derive(Debug)]
pub struct PreviewSlot {
    pub frame: Option<Frame>,
    pub stale: bool,
}

impl PreviewSlot {
    /// The slot once a drag has started: the frame stays shown.
    pub open spec fn invalidated(self) -> PreviewSlot {
        PreviewSlot { frame: self.frame, stale: true }
    }

    /// The slot once a fetch has come back: a frame replaces what was
    /// there; a failure leaves the slot absent where a drag made it stale,
    /// and keeps the frame otherwise.
    pub open spec fn stored(self, fetched: Option<Frame>) -> PreviewSlot {
        match fetched {
            Some(f) => PreviewSlot { frame: Some(f), stale: false },
            None => PreviewSlot {
                frame: if self.stale {
                    None
                } else {
                    self.frame
                },
                stale: false,
            },
        }
    }

    /// An absent preview.
    pub fn new() -> (r: PreviewSlot)
        ensures
            r.frame is None,
            !r.stale,
    {
        PreviewSlot { frame: None, stale: false }
    }

    pub fn invalidate(&mut self)
        ensures
            *final(self) == old(self).invalidated(),
    {
        self.stale = true;
    }

    pub fn store(&mut self, fetched: Option<Frame>)
        ensures
            *final(self) == old(self).stored(fetched),
    {
        match fetched {
            Some(f) => {
                self.frame = Some(f);
            },
            None => {
                if self.stale {
                    self.frame = None;
                }
            },
        }
        self.stale = false;
    }
}

/// The previews of both handles.
#[derive(Debug)]
pub struct PreviewCache {
    pub start: PreviewSlot,
    pub end: PreviewSlot,
}

impl PreviewCache {
    pub open spec fn slot_of(self, h: Handle) -> PreviewSlot {
        match h {
            Handle::Start => self.start,
            Handle::End => self.end,
        }
    }

    /// The cache with the slot of `h` replaced.
    pub open spec fn with_slot(self, h: Handle, s: PreviewSlot) -> PreviewCache {
        match h {
            Handle::Start => PreviewCache { start: s, end: self.end },
            Handle::End => PreviewCache { start: self.start, end: s },
        }
    }

    /// Both previews absent.
    pub fn new() -> (r: PreviewCache)
        ensures
            r.start.frame is None && !r.start.stale,
            r.end.frame is None && !r.end.stale,
    {
        PreviewCache { start: PreviewSlot::new(), end: PreviewSlot::new() }
    }

    pub fn slot(&self, h: Handle) -> (r: &PreviewSlot)
        ensures
            *r == self.slot_of(h),
    {
        match h {
            Handle::Start => &self.start,
            Handle::End => &self.end,
        }
    }

    /// A drag of `h` has started.
    pub fn invalidate(&mut self, h: Handle)
        ensures
            *final(self) == old(self).with_slot(h, old(self).slot_of(h).invalidated()),
    {
        match h {
            Handle::Start => self.start.invalidate(),
            Handle::End => self.end.invalidate(),
        }
    }

    /// A fetch for `h` has come back with `fetched`, a decoded frame or none.
    pub fn store(&mut self, h: Handle, fetched: Option<Frame>)
        ensures
            *final(self) == old(self).with_slot(h, old(self).slot_of(h).stored(fetched)),
    {
        match h {
            Handle::Start => self.start.store(fetched),
            Handle::End => self.end.store(fetched),
        }
    }

    /// A fetch for `h` has come back with the encoded still `bytes`, or with
    /// nothing where the fetch itself failed. A still that does not decode,
    /// empty output among them, counts as a failed fetch; no failure is
    /// reported to the caller.
    pub fn receive(&mut self, h: Handle, bytes: Option<&[u8]>)
        ensures
            final(self).slot_of(h).stale == false,
            final(self).with_slot(h, old(self).slot_of(h)) == *old(self),
            match bytes {
                Some(b) => match decoded_rgba(b@) {
                    Some(d) => final(self).slot_of(h).frame matches Some(f) && (f.width, f.height,
                        f.rgba@) == d && f.wf(),
                    None => final(self).slot_of(h) == old(self).slot_of(h).stored(None),
                },
                None => final(self).slot_of(h) == old(self).slot_of(h).stored(None),
            },
            bytes matches Some(b) && b@.len() == 0 ==> final(self).slot_of(h) == old(
                self,
            ).slot_of(h).stored(None),
    {
        let fetched = match bytes {
            Some(b) => decode_image(b),
            None => None,
        };
        self.store(h, fetched);
    }
}

/// A failed fetch is no error: it leaves a stale preview absent, and a
/// preview that no drag has made stale as it was. A frame is only ever
/// replaced by the frame of a successful fetch.
pub proof fn lemma_failed_fetch(slot: PreviewSlot, fetched: Option<Frame>)
    ensures
        slot.invalidated().stored(None).frame is None,
        !slot.stale ==> slot.stored(None).frame == slot.frame,
        slot.stored(fetched).frame is Some && slot.stored(fetched).frame != slot.frame
            ==> fetched is Some && slot.stored(fetched).frame == fetched,
        fetched is None ==> slot.stored(fetched).frame is None || slot.stored(fetched).frame
            == slot.frame,
{
}

} // verus!
