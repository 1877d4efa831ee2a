//! Render target size and shader sources.

use vstd::prelude::*;
use vstd::string::*;

verus! {

/// Size of the render target, in pixels.
#[derive(Copy, Clone, Debug, PartialEq, Eq, Structural)]
pub struct Extent {
    pub width: u32,
    pub height: u32,
}

impl Extent {
    /// A surface has at least one pixel.
    pub open spec fn wf(self) -> bool {
        self.width > 0 && self.height > 0
    }

    /// The size of a window's surface. A window may report no size at all.
    pub fn of_window(width: u32, height: u32) -> (r: Extent)
        ensures
            r.wf(),
            r.width == (if width == 0 {
                1
            } else {
                width
            }),
            r.height == (if height == 0 {
                1
            } else {
                height
            }),
    {
        Extent {
            width: if width == 0 {
                1
            } else {
                width
            },
            height: if height == 0 {
                1
            } else {
                height
            },
        }
    }

    /// Takes a new size, unless it is empty. Returns whether it did, and so
    /// whether the surface has to be configured anew.
    pub fn resize(&mut self, width: u32, height: u32) -> (r: bool)
        ensures
            r == (width != 0 && height != 0),
            r ==> *final(self) == (Extent { width, height }),
            !r ==> *final(self) == *old(self),
            old(self).wf() ==> final(self).wf(),
    {
        if width == 0 || height == 0 {
            return false;
        }
        self.width = width;
        self.height = height;
        true
    }
}

/// How the attempt to get the surface's next texture ended.
#[derive(Copy, Clone, Debug, PartialEq, Eq, Structural)]
pub enum Acquired {
    Success,
    Suboptimal,
    Outdated,
    Lost,
    Timeout,
    Occluded,
    Validation,
}

/// What to do about it.
#[derive(Copy, Clone, Debug, PartialEq, Eq, Structural)]
pub enum Response {
    Draw,
    /// Configure the surface anew and skip the frame.
    Reconfigure,
    Skip,
    /// Skip the frame and say why.
    Report,
}

impl Acquired {
    /// Suboptimal still presents; it just wants reconfiguring eventually, which
    /// the next resize will do anyway. Occluded means nothing is visible, so
    /// skipping the frame is the correct (and coolest-running) response.
    pub fn response(self) -> (r: Response)
        ensures
            r == Response::Draw <==> self == Acquired::Success || self == Acquired::Suboptimal,
            r == Response::Reconfigure <==> self == Acquired::Outdated || self == Acquired::Lost,
            r == Response::Skip <==> self == Acquired::Timeout || self == Acquired::Occluded,
            r == Response::Report <==> self == Acquired::Validation,
    {
        match self {
            Acquired::Success | Acquired::Suboptimal => Response::Draw,
            Acquired::Outdated | Acquired::Lost => Response::Reconfigure,
            Acquired::Timeout | Acquired::Occluded => Response::Skip,
            Acquired::Validation => Response::Report,
        }
    }
}

/// The source of a shader: the shared prelude, then the shader's own text on a
/// new line. WGSL has no `include` of its own, so the concatenation *is* it.
pub fn shader_source(common: &str, body: &str) -> (r: String)
    ensures
        r@ == common@ + "\n"@ + body@,
{
    let mut source: String = common.to_owned();
    source.append("\n");
    source.append(body);
    source
}

} // verus!
