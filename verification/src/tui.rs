//! Pure interaction state of the terminal player.
//!
//! Only the decisions live here: stepping and wrapping the current frame and
//! toggling playback. Drawing and key reading are terminal work and stay with
//! the binary that owns the terminal.

use vstd::prelude::*;

verus! {

/// Player state: which frame is shown, whether playback advances, and
/// whether the session is over.
pub struct TuiApp {
    pub done: bool,
    pub is_playing: bool,
    pub current_frame: usize,
    pub total_frames: usize,
}

impl TuiApp {
    /// A fresh player over `total_frames` frames, playing from the first.
    pub fn new(total_frames: usize) -> (app: TuiApp)
        ensures
            app.done == false,
            app.is_playing == true,
            app.current_frame == 0,
            app.total_frames == total_frames,
    {
        TuiApp { done: false, is_playing: true, current_frame: 0, total_frames }
    }

    /// Step the shown frame one forward (`increment`) or one back, wrapping
    /// around at either end of `0..total_frames`.
    pub fn set_current_frame(&mut self, increment: bool)
        requires
            old(self).total_frames > 0,
            old(self).current_frame < old(self).total_frames,
        ensures
            final(self).current_frame < final(self).total_frames,
            increment ==> final(self).current_frame
                == (old(self).current_frame + 1) % (old(self).total_frames as int),
            !increment && old(self).current_frame == 0 ==> final(self).current_frame
                == old(self).total_frames - 1,
            !increment && old(self).current_frame > 0 ==> final(self).current_frame
                == old(self).current_frame - 1,
            final(self).done == old(self).done,
            final(self).is_playing == old(self).is_playing,
            final(self).total_frames == old(self).total_frames,
    {
        if increment {
            self.current_frame += 1;
            self.current_frame = self.current_frame % self.total_frames;
        } else {
            if self.current_frame == 0 {
                self.current_frame = self.total_frames - 1;
            } else {
                self.current_frame -= 1;
            }
        }
    }

    /// Toggle playback.
    pub fn set_is_playing(&mut self)
        ensures
            final(self).is_playing == !old(self).is_playing,
            final(self).done == old(self).done,
            final(self).current_frame == old(self).current_frame,
            final(self).total_frames == old(self).total_frames,
    {
        self.is_playing = !self.is_playing;
    }
}

} // verus!
