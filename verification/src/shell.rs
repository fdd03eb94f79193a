//! The plain-value parts of the window shell: what it hands back each frame, and the window
//! buttons' labels.

use vstd::prelude::*;

verus! {

/// What the shell hands back: the content closure's value plus title-bar clicks.
pub struct ShellOutput<R> {
    pub inner: R,
    /// The gear button was clicked this frame.
    pub settings_clicked: bool,
    /// The window was asked to close this frame (× button or Cmd+W).
    pub close_requested: bool,
}

/// The title bar's window buttons.
#[derive(Clone, Copy, Debug, PartialEq, Eq, Structural)]
pub enum Glyph {
    Close,
    Max,
    Min,
}

pub open spec fn glyph_label(g: Glyph) -> Seq<char> {
    match g {
        Glyph::Close => "CLOSE WINDOW"@,
        Glyph::Max => "MAXIMIZE"@,
        Glyph::Min => "MINIMIZE"@,
    }
}

impl Glyph {
    /// Accessibility label of the button.
    pub fn label(self) -> (r: &'static str)
        ensures
            r@ == glyph_label(self),
    {
        match self {
            Glyph::Close => "CLOSE WINDOW",
            Glyph::Max => "MAXIMIZE",
            Glyph::Min => "MINIMIZE",
        }
    }

    /// Left to right on the title bar.
    pub fn position(self) -> (r: usize)
        ensures
            r == match self { Glyph::Close => 0usize, Glyph::Max => 1usize, Glyph::Min => 2usize },
    {
        match self {
            Glyph::Close => 0,
            Glyph::Max => 1,
            Glyph::Min => 2,
        }
    }
}

/// Idle animation rate, frames per second (the app may override it; 0 = every frame).
pub const IDLE_FPS: u32 = 20;

/// Microseconds between idle repaints at `fps` frames per second; 0 (repaint every frame)
/// for 0.
pub fn idle_interval_micros(fps: u32) -> (r: u64)
    ensures
        r == if fps == 0 { 0int } else { 1_000_000int / (fps as int) },
{
    if fps == 0 {
        0
    } else {
        1_000_000 / (fps as u64)
    }
}

} // verus!
