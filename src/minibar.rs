//! State of the editor's mini bar: the frame range an annotation spans, the
//! playhead, and the handle being dragged.
use vstd::prelude::*;

verus! {

/// What the user is dragging on the mini bar.
#[derive(Clone, Copy, Debug, PartialEq, Eq, Structural)]
pub enum MiniBarDragTarget {
    Idle,
    StartHandle,
    EndHandle,
}

/// Frame-range state shown by the mini bar.
pub struct MiniBarViewIvars {
    pub total_frames: usize,
    pub start_frame: usize,
    /// `None`: the annotation lasts to the end of the video.
    pub end_frame: Option<usize>,
    pub current_frame: usize,
    pub dragging: MiniBarDragTarget,
    /// Frame the editor should seek to, set while a handle is dragged.
    pub pending_seek_frame: Option<usize>,
}

/// The mini bar under an annotation, with its range state.
pub struct MiniBarView {
    pub ivars: MiniBarViewIvars,
}

/// Last frame of the range, exclusive: the end handle, or the video's end.
pub open spec fn range_end(ivars: MiniBarViewIvars) -> nat {
    match ivars.end_frame {
        Some(e) => e as nat,
        None => ivars.total_frames as nat,
    }
}

impl MiniBarView {
    /// An empty bar: no frames, nothing dragged, nothing to seek to.
    pub fn new() -> (r: Self)
        ensures
            r.ivars.total_frames == 0,
            r.ivars.start_frame == 0,
            r.ivars.end_frame == None::<usize>,
            r.ivars.current_frame == 0,
            r.ivars.dragging == MiniBarDragTarget::Idle,
            r.ivars.pending_seek_frame == None::<usize>,
    {
        MiniBarView {
            ivars: MiniBarViewIvars {
                total_frames: 0,
                start_frame: 0,
                end_frame: None,
                current_frame: 0,
                dragging: MiniBarDragTarget::Idle,
                pending_seek_frame: None,
            },
        }
    }

    /// Replace the range, the playhead and the frame count.
    pub fn update_state(&mut self, start: usize, end: Option<usize>, current: usize, total: usize)
        ensures
            final(self).ivars.start_frame == start,
            final(self).ivars.end_frame == end,
            final(self).ivars.current_frame == current,
            final(self).ivars.total_frames == total,
            final(self).ivars.dragging == old(self).ivars.dragging,
            final(self).ivars.pending_seek_frame == old(self).ivars.pending_seek_frame,
    {
        self.ivars.start_frame = start;
        self.ivars.end_frame = end;
        self.ivars.current_frame = current;
        self.ivars.total_frames = total;
    }

    /// Take the pending seek frame, leaving none.
    pub fn take_pending_seek_frame(&mut self) -> (r: Option<usize>)
        ensures
            r == old(self).ivars.pending_seek_frame,
            final(self).ivars.pending_seek_frame == None::<usize>,
            final(self).ivars.start_frame == old(self).ivars.start_frame,
            final(self).ivars.end_frame == old(self).ivars.end_frame,
            final(self).ivars.current_frame == old(self).ivars.current_frame,
            final(self).ivars.total_frames == old(self).ivars.total_frames,
            final(self).ivars.dragging == old(self).ivars.dragging,
    {
        let r = self.ivars.pending_seek_frame;
        self.ivars.pending_seek_frame = None;
        r
    }

    /// First frame of the range.
    pub fn start_frame(&self) -> (r: usize)
        ensures
            r == self.ivars.start_frame,
    {
        self.ivars.start_frame
    }

    /// End of the range, if it does not last to the end of the video.
    pub fn end_frame(&self) -> (r: Option<usize>)
        ensures
            r == self.ivars.end_frame,
    {
        self.ivars.end_frame
    }

    /// Start dragging a handle.
    pub fn begin_drag(&mut self, target: MiniBarDragTarget)
        ensures
            final(self).ivars == (MiniBarViewIvars { dragging: target, ..old(self).ivars }),
    {
        self.ivars.dragging = target;
    }

    /// Move the dragged handle to `frame`. The start handle stays before the
    /// end of the range; the end handle stays after the start and within the
    /// video. The frame to seek to becomes the new start, or the last frame
    /// before the new end. With no handle dragged nothing changes.
    pub fn drag_to_frame(&mut self, frame: usize)
        ensures
            match old(self).ivars.dragging {
                MiniBarDragTarget::StartHandle => {
                    let end = range_end(old(self).ivars);
                    let bound = if end >= 1 { end - 1 } else { 0 };
                    let s = if frame <= bound { frame as nat } else { bound as nat };
                    &&& final(self).ivars.start_frame == s
                    &&& final(self).ivars.pending_seek_frame == Some(s as usize)
                    &&& final(self).ivars.end_frame == old(self).ivars.end_frame
                },
                MiniBarDragTarget::EndHandle => {
                    let lo = old(self).ivars.start_frame + 1;
                    let raised = if frame >= lo { frame as int } else { lo };
                    let total = old(self).ivars.total_frames as int;
                    let e = if raised <= total { raised } else { total };
                    &&& final(self).ivars.end_frame == Some(e as usize)
                    &&& final(self).ivars.pending_seek_frame == Some(
                        (if e >= 1 { e - 1 } else { 0 }) as usize,
                    )
                    &&& final(self).ivars.start_frame == old(self).ivars.start_frame
                },
                MiniBarDragTarget::Idle => final(self).ivars == old(self).ivars,
            },
            final(self).ivars.total_frames == old(self).ivars.total_frames,
            final(self).ivars.current_frame == old(self).ivars.current_frame,
            final(self).ivars.dragging == old(self).ivars.dragging,
    {
        match self.ivars.dragging {
            MiniBarDragTarget::StartHandle => {
                let end = match self.ivars.end_frame {
                    Some(e) => e,
                    None => self.ivars.total_frames,
                };
                let bound = end.saturating_sub(1);
                let clamped = if frame <= bound { frame } else { bound };
                self.ivars.start_frame = clamped;
                self.ivars.pending_seek_frame = Some(clamped);
            },
            MiniBarDragTarget::EndHandle => {
                let total = self.ivars.total_frames;
                let clamped = if self.ivars.start_frame >= total {
                    total
                } else if frame > self.ivars.start_frame {
                    if frame <= total { frame } else { total }
                } else {
                    self.ivars.start_frame + 1
                };
                self.ivars.end_frame = Some(clamped);
                self.ivars.pending_seek_frame = Some(clamped.saturating_sub(1));
            },
            MiniBarDragTarget::Idle => {},
        }
    }

    /// Stop dragging; `true` when a handle was being dragged.
    pub fn end_drag(&mut self) -> (r: bool)
        ensures
            r == (old(self).ivars.dragging != MiniBarDragTarget::Idle),
            final(self).ivars == (MiniBarViewIvars { dragging: MiniBarDragTarget::Idle, ..old(self).ivars }),
    {
        let was = self.ivars.dragging;
        self.ivars.dragging = MiniBarDragTarget::Idle;
        was != MiniBarDragTarget::Idle
    }
}

} // verus!
