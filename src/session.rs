//! The scrolling-capture session: a tick-driven state machine that alternates
//! a scroll step and a capture step, and decides when enough content has been
//! gathered.
//!
//! The host owns the timer and the platform services. On each timer tick it
//! looks at `phase()`: in the scroll phase it calls `tick_scroll` and, when
//! that returns `true`, posts the scroll; in the capture phase it captures and
//! converts a frame and hands the result (or `None` on failure) to
//! `tick_capture`. A `false` from either means that the session is over and
//! `frames` holds what was gathered.
use vstd::prelude::*;
use crate::frame::RgbaImage;
use crate::overlap::{find_overlap, overlap_of};

verus! {

/// Scroll-step cap of a new session.
pub const DEFAULT_MAX_STEPS: usize = 50;

/// Which step the next tick performs.
#[derive(Clone, Copy, Debug, PartialEq, Eq, Structural)]
pub enum Phase {
    Scroll,
    Capture,
}

/// Overlap, in rows, at or above which the content is taken not to have moved.
pub open spec fn still_threshold(h: nat) -> nat {
    h * 19 / 20
}

/// Overlap, in rows, above which the content is taken to be near its end.
pub open spec fn end_threshold(h: nat) -> nat {
    h * 4 / 5
}

/// All frames are well formed, nonempty, and of the size of the first.
pub open spec fn frames_consistent(frames: Seq<RgbaImage>) -> bool {
    forall|i: int|
        #![trigger frames[i]]
        0 <= i < frames.len() ==> {
            &&& frames[i].wf()
            &&& frames[i].width == frames[0].width
            &&& frames[i].height == frames[0].height
            &&& frames[i].width > 0
            &&& frames[i].height > 0
        }
}

/// A captured frame that the session can take: well formed, nonempty, and of
/// the size of the frames already held.
pub open spec fn fits_session(frames: Seq<RgbaImage>, f: RgbaImage) -> bool {
    &&& f.wf()
    &&& f.width > 0
    &&& f.height > 0
    &&& frames.len() > 0 ==> f.width == frames[0].width && f.height == frames[0].height
}

/// Overlap between the last frame held and a new frame.
pub open spec fn overlap_with_last(frames: Seq<RgbaImage>, f: RgbaImage) -> nat {
    let last = frames.last();
    overlap_of(last.data@, f.data@, last.width as nat, last.height as nat)
}

/// State of one scrolling-capture session.
pub struct ScrollCaptureState {
    max_steps: usize,
    frames: Vec<RgbaImage>,
    step_count: usize,
    phase: Phase,
    border_window_id: Option<u32>,
    display_id: u32,
}

impl ScrollCaptureState {
    /// The frames held are well formed, nonempty, and of one size; at most
    /// one scroll step beyond the cap has been counted (the one that ended
    /// the session), and the cap leaves room for that count.
    pub open spec fn wf(&self) -> bool {
        &&& frames_consistent(self.spec_frames())
        &&& self.spec_step_count() <= self.spec_max_steps() + 1
        &&& self.spec_max_steps() < usize::MAX
    }

    /// Frames gathered so far.
    pub closed spec fn spec_frames(&self) -> Seq<RgbaImage> {
        self.frames@
    }

    pub closed spec fn spec_max_steps(&self) -> nat {
        self.max_steps as nat
    }

    pub closed spec fn spec_step_count(&self) -> nat {
        self.step_count as nat
    }

    pub closed spec fn spec_phase(&self) -> Phase {
        self.phase
    }

    pub closed spec fn spec_border_window_id(&self) -> Option<u32> {
        self.border_window_id
    }

    pub closed spec fn spec_display_id(&self) -> u32 {
        self.display_id
    }

    /// A session on display `display_id`: no frames, no steps, capture first.
    pub fn new(display_id: u32) -> (r: Self)
        ensures
            r.wf(),
            r.spec_max_steps() == DEFAULT_MAX_STEPS,
            r.spec_frames().len() == 0,
            r.spec_step_count() == 0,
            r.spec_phase() == Phase::Capture,
            r.spec_border_window_id() == None::<u32>,
            r.spec_display_id() == display_id,
    {
        ScrollCaptureState {
            max_steps: DEFAULT_MAX_STEPS,
            frames: Vec::new(),
            step_count: 0,
            phase: Phase::Capture,
            border_window_id: None,
            display_id,
        }
    }

    /// Leave the window `id` (the session's own border) out of every capture.
    pub fn set_border_window_id(&mut self, id: u32)
        ensures
            final(self).spec_border_window_id() == Some(id),
            final(self).spec_display_id() == old(self).spec_display_id(),
            final(self).spec_phase() == old(self).spec_phase(),
            final(self).spec_step_count() == old(self).spec_step_count(),
            final(self).spec_max_steps() == old(self).spec_max_steps(),
            final(self).spec_frames() == old(self).spec_frames(),
    {
        self.border_window_id = Some(id);
    }

    /// Change the scroll-step cap. The cap may not fall below the steps
    /// already issued.
    pub fn set_max_steps(&mut self, max_steps: usize)
        requires
            old(self).wf(),
            old(self).spec_step_count() <= max_steps,
            max_steps < usize::MAX,
        ensures
            final(self).wf(),
            final(self).spec_max_steps() == max_steps,
            final(self).spec_border_window_id() == old(self).spec_border_window_id(),
            final(self).spec_display_id() == old(self).spec_display_id(),
            final(self).spec_phase() == old(self).spec_phase(),
            final(self).spec_step_count() == old(self).spec_step_count(),
            final(self).spec_frames() == old(self).spec_frames(),
    {
        self.max_steps = max_steps;
    }

    /// The scroll-step cap.
    pub fn max_steps(&self) -> (r: usize)
        ensures
            r == self.spec_max_steps(),
    {
        self.max_steps
    }

    /// Frames gathered so far, in capture order.
    pub fn frames(&self) -> (r: &Vec<RgbaImage>)
        ensures
            r@ == self.spec_frames(),
    {
        &self.frames
    }

    /// The step that the next tick performs.
    pub fn phase(&self) -> (r: Phase)
        ensures
            r == self.spec_phase(),
    {
        self.phase
    }

    /// Scroll steps issued so far.
    pub fn step_count(&self) -> (r: usize)
        ensures
            r == self.spec_step_count(),
    {
        self.step_count
    }

    /// The window left out of captures, if any.
    pub fn border_window_id(&self) -> (r: Option<u32>)
        ensures
            r == self.spec_border_window_id(),
    {
        self.border_window_id
    }

    /// The display that frames are captured from.
    pub fn display_id(&self) -> (r: u32)
        ensures
            r == self.spec_display_id(),
    {
        self.display_id
    }

    /// Scroll tick. The step is counted; when the count now exceeds
    /// `max_steps` the session is over (`false`) and nothing is scrolled.
    /// Otherwise the next tick captures, and the host is to post the scroll
    /// (`true`). Only a session that has not ended on the cap may tick.
    pub fn tick_scroll(&mut self) -> (r: bool)
        requires
            old(self).wf(),
            old(self).spec_phase() == Phase::Scroll,
            old(self).spec_step_count() <= old(self).spec_max_steps(),
        ensures
            final(self).wf(),
            final(self).spec_step_count() == old(self).spec_step_count() + 1,
            r == (final(self).spec_step_count() <= final(self).spec_max_steps()),
            r ==> final(self).spec_phase() == Phase::Capture,
            !r ==> final(self).spec_phase() == Phase::Scroll,
            final(self).spec_frames() == old(self).spec_frames(),
            final(self).spec_max_steps() == old(self).spec_max_steps(),
            final(self).spec_border_window_id() == old(self).spec_border_window_id(),
            final(self).spec_display_id() == old(self).spec_display_id(),
    {
        self.step_count = self.step_count + 1;
        if self.step_count > self.max_steps {
            return false;
        }
        self.phase = Phase::Capture;
        true
    }

    /// Capture tick, given what the capture and pixel conversion produced.
    ///
    /// - No frame, or one that does not fit the session (malformed, empty, or
    ///   of another size than the first): nothing is stored, the next tick
    ///   scrolls again (`true`).
    /// - The first frame: stored, the next tick scrolls (`true`).
    /// - Otherwise, with `k` the overlap with the last frame held and `h` the
    ///   frame height: `k >= h*19/20` means the content did not move: the
    ///   frame is dropped and the session is over (`false`); `k > h*4/5`
    ///   means the end of the content: the frame is stored and the session is
    ///   over (`false`); else the frame is stored and the next tick scrolls
    ///   (`true`).
    pub fn tick_capture(&mut self, captured: Option<RgbaImage>) -> (r: bool)
        requires
            old(self).wf(),
            old(self).spec_phase() == Phase::Capture,
        ensures
            final(self).wf(),
            final(self).spec_max_steps() == old(self).spec_max_steps(),
            final(self).spec_step_count() == old(self).spec_step_count(),
            final(self).spec_border_window_id() == old(self).spec_border_window_id(),
            final(self).spec_display_id() == old(self).spec_display_id(),
            match captured {
                Some(f) if fits_session(old(self).spec_frames(), f) => {
                    let frames = old(self).spec_frames();
                    let h = f.height as nat;
                    if frames.len() == 0 {
                        &&& r
                        &&& final(self).spec_frames() == frames.push(f)
                        &&& final(self).spec_phase() == Phase::Scroll
                    } else if overlap_with_last(frames, f) >= still_threshold(h) {
                        &&& !r
                        &&& final(self).spec_frames() == frames
                        &&& final(self).spec_phase() == Phase::Capture
                    } else if overlap_with_last(frames, f) > end_threshold(h) {
                        &&& !r
                        &&& final(self).spec_frames() == frames.push(f)
                        &&& final(self).spec_phase() == Phase::Capture
                    } else {
                        &&& r
                        &&& final(self).spec_frames() == frames.push(f)
                        &&& final(self).spec_phase() == Phase::Scroll
                    }
                },
                _ => {
                    &&& r
                    &&& final(self).spec_frames() == old(self).spec_frames()
                    &&& final(self).spec_phase() == Phase::Scroll
                },
            },
    {
        let frame = match captured {
            None => {
                self.phase = Phase::Scroll;
                return true;
            },
            Some(f) => f,
        };
        let n = self.frames.len();
        let fits = frame.width > 0 && frame.height > 0 && frame.is_well_formed() && (n == 0 || (
        frame.width == self.frames[0].width && frame.height == self.frames[0].height));
        if !fits {
            self.phase = Phase::Scroll;
            return true;
        }
        if n > 0 {
            let prev = &self.frames[n - 1];
            let h = prev.height;
            let overlap = find_overlap(prev.data.as_slice(), frame.data.as_slice(), prev.width, h);
            let still = ((h as u128) * 19 / 20) as usize;
            let near_end = ((h as u128) * 4 / 5) as usize;
            if overlap >= still {
                return false;
            }
            if overlap > near_end {
                self.frames.push(frame);
                return false;
            }
        }
        self.frames.push(frame);
        self.phase = Phase::Scroll;
        true
    }
}

} // verus!
