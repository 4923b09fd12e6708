//! The elements that make up a frame, and what became of them.

use vstd::prelude::*;
use crate::buffer::UnderlyingStorage;
use crate::element_states::ExportBufferError;
use crate::float::{F32, F64};
use crate::geometry::{Point, Rectangle, Transform};
use crate::plane::SrcRect;

verus! {

/// What an element is good for.
#[derive(Clone, Copy, Debug, PartialEq, Eq, Structural)]
pub enum Kind {
    Cursor,
    ScanoutCandidate,
    Unspecified,
}

/// Why an element had to be rendered.
#[derive(Clone, Copy, Debug, PartialEq, Eq, Structural)]
pub enum RenderingReason {
    /// The format of the element's buffer is not supported by the plane.
    FormatUnsupported,
    /// The device refused to scan the element out.
    ScanoutFailed,
}

/// How an element was presented.
#[derive(Clone, Copy, Debug, PartialEq, Eq, Structural)]
pub enum RenderElementPresentationState {
    Rendering { reason: Option<RenderingReason> },
    ZeroCopy,
    Skipped,
}

/// What became of an element.
#[derive(Clone, Copy, Debug, PartialEq, Eq, Structural)]
pub struct RenderElementState {
    /// How many pixels of the element could be seen.
    pub visible_area: usize,
    pub presentation_state: RenderElementPresentationState,
    pub needs_capture: bool,
}

impl RenderElementState {
    pub open spec fn zero_copy_spec(visible_area: usize) -> RenderElementState {
        RenderElementState {
            visible_area,
            presentation_state: RenderElementPresentationState::ZeroCopy,
            needs_capture: false,
        }
    }

    /// The state of an element that a plane shows directly.
    pub fn zero_copy(visible_area: usize) -> (r: RenderElementState)
        ensures
            r == Self::zero_copy_spec(visible_area),
    {
        RenderElementState {
            visible_area,
            presentation_state: RenderElementPresentationState::ZeroCopy,
            needs_capture: false,
        }
    }

    pub open spec fn rendering_with_reason_spec(reason: RenderingReason) -> RenderElementState {
        RenderElementState {
            visible_area: 0,
            presentation_state: RenderElementPresentationState::Rendering { reason: Some(reason) },
            needs_capture: false,
        }
    }

    /// The state of an element that could not be shown directly.
    pub fn rendering_with_reason(reason: RenderingReason) -> (r: RenderElementState)
        ensures
            r == Self::rendering_with_reason_spec(reason),
    {
        RenderElementState {
            visible_area: 0,
            presentation_state: RenderElementPresentationState::Rendering { reason: Some(reason) },
            needs_capture: false,
        }
    }

    pub open spec fn rendered_spec(visible_area: usize) -> RenderElementState {
        RenderElementState {
            visible_area,
            presentation_state: RenderElementPresentationState::Rendering { reason: None },
            needs_capture: false,
        }
    }

    /// The state of an element that was drawn.
    pub fn rendered(visible_area: usize) -> (r: RenderElementState)
        ensures
            r == Self::rendered_spec(visible_area),
    {
        RenderElementState {
            visible_area,
            presentation_state: RenderElementPresentationState::Rendering { reason: None },
            needs_capture: false,
        }
    }

    pub open spec fn skipped_spec() -> RenderElementState {
        RenderElementState {
            visible_area: 0,
            presentation_state: RenderElementPresentationState::Skipped,
            needs_capture: false,
        }
    }

    /// The state of an element that can not be seen.
    pub fn skipped() -> (r: RenderElementState)
        ensures
            r == Self::skipped_spec(),
    {
        RenderElementState {
            visible_area: 0,
            presentation_state: RenderElementPresentationState::Skipped,
            needs_capture: false,
        }
    }
}

impl ExportBufferError {
    pub open spec fn rendering_reason_spec(self) -> Option<RenderingReason> {
        match self {
            ExportBufferError::ExportFailed => Some(RenderingReason::ScanoutFailed),
            _ => None,
        }
    }

    /// The reason to report for an element that is rendered because of the error.
    ///
    /// A failed export may succeed with another buffer, so the client is given the chance. About
    /// the others nothing can be done.
    pub fn rendering_reason(self) -> (r: Option<RenderingReason>)
        ensures
            r == self.rendering_reason_spec(),
    {
        match self {
            ExportBufferError::ExportFailed => Some(RenderingReason::ScanoutFailed),
            ExportBufferError::NoUnderlyingStorage | ExportBufferError::Unsupported => None,
        }
    }
}

/// A color with single-precision channels.
#[derive(Clone, Copy, Debug, PartialEq, Eq, Structural)]
pub struct Color32F {
    pub r: F32,
    pub g: F32,
    pub b: F32,
    pub a: F32,
}

impl Color32F {
    /// Whether a channel is zero.
    pub open spec fn channel_is_zero(channel: F32) -> bool {
        channel.magnitude() == 0
    }

    pub open spec fn is_black_or_clear_spec(self) -> bool {
        (Self::channel_is_zero(self.r) && Self::channel_is_zero(self.g) && Self::channel_is_zero(
            self.b,
        )) || Self::channel_is_zero(self.a)
    }

    /// Whether the color is what a CRTC shows where no plane is: black, or nothing at all.
    pub fn is_black_or_clear(self) -> (r: bool)
        ensures
            r == self.is_black_or_clear_spec(),
    {
        let zero = F32 { bits: 0 };
        (self.r.same(zero) && self.g.same(zero) && self.b.same(zero)) || self.a.same(zero)
    }
}

/// The scale of an output.
#[derive(Clone, Copy, Debug, PartialEq, Eq, Structural)]
pub struct Scale {
    pub x: F64,
    pub y: F64,
}

impl Scale {
    pub open spec fn same_spec(self, other: Scale) -> bool {
        self.x.same_spec(other.x) && self.y.same_spec(other.y)
    }

    pub fn same(self, other: Scale) -> (r: bool)
        ensures
            r == self.same_spec(other),
    {
        self.x.same(other.x) && self.y.same(other.y)
    }
}

/// An element as it looks at the scale of the output.
#[derive(Clone, Copy, Debug, PartialEq, Eq, Structural)]
pub struct ElementInfo {
    pub id: u64,
    /// Changes whenever the content does.
    pub commit: u64,
    pub kind: Kind,
    pub geometry: Rectangle,
    pub location: Point,
    /// The part of the buffer that is shown.
    pub src: SrcRect,
    pub transform: Transform,
    pub alpha: F32,
    pub storage: Option<UnderlyingStorage>,
    /// Whether the exporter could make a framebuffer of the storage.
    pub exportable: bool,
    pub is_framebuffer_effect: bool,
    /// The color of a storage that is a single pixel.
    pub single_pixel: Option<Color32F>,
}

impl ElementInfo {
    /// Whether no value that is compared later is NaN.
    pub open spec fn comparable(self) -> bool {
        !self.src.has_nan() && !self.alpha.is_nan_spec()
    }
}

/// An element together with the parts of it that hide what is behind, relative to its location.
#[derive(Clone, Debug)]
pub struct Element {
    pub info: ElementInfo,
    pub opaque_regions: Vec<Rectangle>,
}

/// What the frame is composed for.
#[derive(Clone, Copy, Debug, PartialEq, Eq, Structural)]
pub struct OutputState {
    /// The extent of the mode.
    pub size: crate::geometry::Size,
    pub scale: Scale,
    /// The transform the renderer applies.
    pub transform: Transform,
    /// The area that elements are laid out in.
    pub geometry: Rectangle,
}

} // verus!
