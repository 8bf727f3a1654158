//! How the camera's canvas is fitted to a device of another shape.
use vstd::prelude::*;

verus! {

/// How the canvas is fitted to a device of another aspect ratio.
#[allow(non_camel_case_types)]
#[derive(Clone, Copy, Debug, PartialEq, Eq, Structural)]
pub enum ResolutionGate {
    /// Shrink the canvas so that the image fills the device; film that
    /// reaches beyond the device is cropped.
    FILL,
    /// Grow the canvas so that the whole film is shown; the device may show
    /// a margin.
    OVERSCAN,
}

/// An axis of the canvas.
#[derive(Clone, Copy, Debug, PartialEq, Eq, Structural)]
pub enum Axis {
    /// The horizontal axis. It is scaled by the aspect ratio of the device
    /// over that of the film.
    X,
    /// The vertical axis. It is scaled by the aspect ratio of the film over
    /// that of the device.
    Y,
}

impl ResolutionGate {
    /// The axis that is scaled; the other axis keeps the factor one. Where
    /// the film is wider than the device, FILL shrinks x and OVERSCAN grows
    /// y; elsewhere FILL shrinks y and OVERSCAN grows x.
    pub open spec fn scaled_axis_spec(self, film_is_wider: bool) -> Axis {
        match self {
            ResolutionGate::FILL => if film_is_wider {
                Axis::X
            } else {
                Axis::Y
            },
            ResolutionGate::OVERSCAN => if film_is_wider {
                Axis::Y
            } else {
                Axis::X
            },
        }
    }

    /// The axis that is scaled, given whether the aspect ratio of the film
    /// is greater than that of the device.
    pub fn scaled_axis(&self, film_is_wider: bool) -> (axis: Axis)
        ensures
            axis == self.scaled_axis_spec(film_is_wider),
    {
        match self {
            ResolutionGate::FILL => {
                if film_is_wider {
                    Axis::X
                } else {
                    Axis::Y
                }
            },
            ResolutionGate::OVERSCAN => {
                if film_is_wider {
                    Axis::Y
                } else {
                    Axis::X
                }
            },
        }
    }
}

/// For the same film and device, each gate scales one axis, and the two
/// gates scale different axes.
pub proof fn lemma_gates_scale_opposite_axes(film_is_wider: bool)
    ensures
        ResolutionGate::FILL.scaled_axis_spec(film_is_wider)
            != ResolutionGate::OVERSCAN.scaled_axis_spec(film_is_wider),
{
}

} // verus!
