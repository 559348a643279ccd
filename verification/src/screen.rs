//! The RGB framebuffer that the display collaborator uploads as a texture.

use vstd::prelude::*;

use vstd::pervasive::VecAdditionalExecFns;

verus! {

/// The framebuffer's width in pixels.
pub const SCREENWIDTH: usize = 320;

/// The framebuffer's height in pixels.
pub const SCREENHEIGHT: usize = 200;

/// The framebuffer's size in bytes: three bytes per pixel, row-major.
pub const SCREENSIZE: usize = SCREENWIDTH * SCREENHEIGHT * 3;

/// A linear row-major RGB pixel buffer of fixed size.
pub struct Screen {
    pub buffer: Vec<u8>,
}

impl Screen {
    /// The buffer has exactly its fixed size.
    pub open spec fn wf(self) -> bool {
        self.buffer@.len() == SCREENSIZE
    }

    /// A black screen.
    pub fn new() -> (s: Screen)
        ensures
            s.wf(),
            s.buffer@ == Seq::new(SCREENSIZE as nat, |j: int| 0u8),
    {
        let buffer = vec![0u8; SCREENSIZE];
        proof {
            assert(buffer@ =~= Seq::new(SCREENSIZE as nat, |j: int| 0u8));
        }
        Screen { buffer }
    }

    /// Write one RGB pixel at `(x, y)`; coordinates outside the screen are
    /// ignored.
    pub fn draw(&mut self, x: usize, y: usize, px: [u8; 3])
        requires
            old(self).wf(),
        ensures
            final(self).wf(),
            x < SCREENWIDTH && y < SCREENHEIGHT ==> final(self).buffer@ == old(self).buffer@
                .update(((y * SCREENWIDTH + x) * 3) as int, px[0]).update(
                ((y * SCREENWIDTH + x) * 3 + 1) as int,
                px[1],
            ).update(((y * SCREENWIDTH + x) * 3 + 2) as int, px[2]),
            !(x < SCREENWIDTH && y < SCREENHEIGHT) ==> *final(self) == *old(self),
    {
        if x < SCREENWIDTH && y < SCREENHEIGHT {
            let index = (y * SCREENWIDTH + x) * 3;
            self.buffer.set(index, px[0]);
            self.buffer.set(index + 1, px[1]);
            self.buffer.set(index + 2, px[2]);
        }
    }
}

} // verus!
