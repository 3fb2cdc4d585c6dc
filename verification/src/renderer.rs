//! The RGBA byte buffer that visualisation layers read after each frame.
//!
//! The solver itself never draws; it only guarantees a stable, fully
//! initialised pixel buffer of a fixed size that an external presenter may
//! fill and display.
use vstd::prelude::*;

verus! {

pub const WINDOW_WIDTH: usize = 800;

pub const WINDOW_HEIGHT: usize = 600;

/// A fixed-size RGBA buffer with the display toggles of the overlay.
pub struct Renderer {
    /// One RGBA byte quadruple per pixel.
    pub render_buffer: Vec<u8>,
    pub show_pressure: bool,
    pub show_smoke: bool,
    pub show_smoke_gradient: bool,
}

impl Renderer {
    /// The buffer always holds exactly one RGBA quadruple per pixel.
    pub open spec fn wf(self) -> bool {
        self.render_buffer@.len() == WINDOW_WIDTH * WINDOW_HEIGHT * 4
    }

    /// A fresh all-white buffer with every overlay disabled.
    pub fn new() -> (r: Renderer)
        ensures
            r.wf(),
            forall|k: int|
                0 <= k < r.render_buffer@.len() ==> (#[trigger] r.render_buffer@[k]) == 255,
            !r.show_pressure,
            !r.show_smoke,
            !r.show_smoke_gradient,
    {
        let total: usize = WINDOW_WIDTH * WINDOW_HEIGHT * 4;
        let mut buf: Vec<u8> = Vec::new();
        let mut i: usize = 0;
        while i < total
            invariant
                total == WINDOW_WIDTH * WINDOW_HEIGHT * 4,
                i <= total,
                buf@.len() == i,
                forall|k: int| 0 <= k < i ==> (#[trigger] buf@[k]) == 255,
            decreases total - i,
        {
            buf.push(255);
            i = i + 1;
        }
        Renderer {
            render_buffer: buf,
            show_pressure: false,
            show_smoke: false,
            show_smoke_gradient: false,
        }
    }

    /// Reset the buffer to all-white and disable every overlay.
    pub fn clear(&mut self)
        requires
            old(self).wf(),
        ensures
            final(self).wf(),
            forall|k: int|
                0 <= k < final(self).render_buffer@.len() ==> (
                #[trigger] final(self).render_buffer@[k]) == 255,
            !final(self).show_pressure,
            !final(self).show_smoke,
            !final(self).show_smoke_gradient,
    {
        let total = self.render_buffer.len();
        let mut i: usize = 0;
        while i < total
            invariant
                total == self.render_buffer@.len(),
                i <= total,
                forall|k: int| 0 <= k < i ==> (#[trigger] self.render_buffer@[k]) == 255,
                self.show_pressure == old(self).show_pressure,
                self.show_smoke == old(self).show_smoke,
                self.show_smoke_gradient == old(self).show_smoke_gradient,
                self.render_buffer@.len() == old(self).render_buffer@.len(),
            decreases total - i,
        {
            self.render_buffer.set(i, 255);
            i = i + 1;
        }
        self.show_pressure = false;
        self.show_smoke = false;
        self.show_smoke_gradient = false;
    }
}

} // verus!
