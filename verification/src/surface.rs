use vstd::prelude::*;

verus! {

/// The window events the surface's size bookkeeping reacts to.
#[derive(Clone, Copy, PartialEq, Eq, Structural, Debug)]
pub enum SurfaceEvent {
    /// The window was resized or its scale factor changed.
    Resized,
    /// A frame is to be drawn; the window's surface has this size now.
    RedrawRequested { width: u32, height: u32 },
    /// Any other event.
    Other,
}

/// The size bookkeeping of the window's surface: its configured size, whether a
/// resize waits for the next frame, and whether this event resized it.
pub struct Surface {
    pub width: u32,
    pub height: u32,
    pub should_resize: bool,
    pub is_resized: bool,
}

impl Surface {
    /// A surface of the given size, to be configured on the first frame.
    pub fn new(width: u32, height: u32) -> (res: Self)
        ensures
            res.width == width,
            res.height == height,
            res.should_resize,
            !res.is_resized,
    {
        Surface { width, height, should_resize: true, is_resized: false }
    }

    /// Reacts to an event; returns whether the surface is to be configured with its new
    /// size. A resize waits for the next frame, and a zero-sized window (a minimized
    /// one) leaves the configuration as it was.
    pub fn handle(&mut self, event: SurfaceEvent) -> (res: bool)
        ensures
            match event {
                SurfaceEvent::Resized => {
                    &&& final(self).should_resize
                    &&& final(self).width == old(self).width
                    &&& final(self).height == old(self).height
                    &&& !res
                },
                SurfaceEvent::RedrawRequested { width, height } => {
                    &&& !final(self).should_resize
                    &&& res == (old(self).should_resize && width != 0 && height != 0)
                    &&& final(self).width == (if res {
                        width
                    } else {
                        old(self).width
                    })
                    &&& final(self).height == (if res {
                        height
                    } else {
                        old(self).height
                    })
                },
                SurfaceEvent::Other => {
                    &&& final(self).should_resize == old(self).should_resize
                    &&& final(self).width == old(self).width
                    &&& final(self).height == old(self).height
                    &&& !res
                },
            },
            final(self).is_resized == res,
    {
        self.is_resized = false;
        match event {
            SurfaceEvent::Resized => {
                self.should_resize = true;
                false
            },
            SurfaceEvent::RedrawRequested { width, height } => {
                let should_resize = self.should_resize;
                self.should_resize = false;
                if should_resize && width != 0 && height != 0 {
                    self.width = width;
                    self.height = height;
                    self.is_resized = true;
                    true
                } else {
                    false
                }
            },
            SurfaceEvent::Other => false,
        }
    }
}

} // verus!
