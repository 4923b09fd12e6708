//! Trying out formats for the primary swapchain.

use vstd::prelude::*;
use crate::buffer::{CachedDrmFramebuffer, DrmFramebuffer, FramebufferInfo, Slot};
use crate::error::{DrmError, FrameError};
use crate::formats::FormatError;
use crate::frame_build::{primary_swapchain_state, swapchain_state};
use crate::frame_state::{idle_entries, with_state, FrameState};
use crate::geometry::Size;
use crate::plane::{PlaneState, Planes};

verus! {

impl FormatError {
    /// The same error of a frame.
    pub fn frame_error<A, B, F>(self) -> (r: FrameError<A, B, F>)
        ensures
            r == (match self {
                FormatError::NoSupportedPlaneFormat => FrameError::<A, B, F>::NoSupportedPlaneFormat,
                FormatError::NoSupportedRendererFormat => FrameError::NoSupportedRendererFormat,
            }),
    {
        match self {
            FormatError::NoSupportedPlaneFormat => FrameError::NoSupportedPlaneFormat,
            FormatError::NoSupportedRendererFormat => FrameError::NoSupportedRendererFormat,
        }
    }
}

/// What the test of a format waits for.
#[derive(Debug)]
pub enum ProbePhase<A, B, F> {
    /// A buffer of the swapchain.
    Acquire,
    /// The extent of the buffer, exported.
    Export { slot: Slot },
    /// A framebuffer.
    Framebuffer { slot: Slot, size: Size },
    /// The claim of the primary plane.
    Claim { slot: Slot, size: Size, fb: CachedDrmFramebuffer },
    /// The device's verdict on a frame with the buffer on the primary plane.
    Test { state: PlaneState },
    /// Nothing any more.
    Done(Result<bool, FrameError<A, B, F>>),
}

/// The test of a format: a buffer of it is allocated, exported and shown to the device.
#[derive(Debug)]
pub struct FormatProbe<A, B, F> {
    /// Whether the plane only takes the format without its alpha channel.
    pub use_opaque: bool,
    pub mode_size: Size,
    pub phase: ProbePhase<A, B, F>,
}

impl<A, B, F> FormatProbe<A, B, F> {
    pub fn begin(use_opaque: bool, mode_size: Size) -> (r: FormatProbe<A, B, F>)
        ensures
            r == (FormatProbe { use_opaque, mode_size, phase: ProbePhase::<A, B, F>::Acquire }),
    {
        FormatProbe { use_opaque, mode_size, phase: ProbePhase::Acquire }
    }

    /// Takes the buffer of the swapchain.
    pub fn acquired(self, result: Result<Slot, A>) -> (r: FormatProbe<A, B, F>)
        requires
            self.phase is Acquire,
        ensures
            r == (FormatProbe {
                phase: match result {
                    Ok(slot) => ProbePhase::Export { slot },
                    Err(error) => ProbePhase::Done(Err(FrameError::Allocator(error))),
                },
                ..self
            }),
    {
        FormatProbe {
            use_opaque: self.use_opaque,
            mode_size: self.mode_size,
            phase: match result {
                Ok(slot) => ProbePhase::Export { slot },
                Err(error) => ProbePhase::Done(Err(FrameError::Allocator(error))),
            },
        }
    }

    /// Takes the extent of the exported buffer.
    pub fn exported(self, result: Result<Size, B>) -> (r: FormatProbe<A, B, F>)
        requires
            self.phase is Export,
        ensures
            self.phase matches ProbePhase::Export { slot } && r == (FormatProbe {
                phase: match result {
                    Ok(size) => ProbePhase::Framebuffer { slot, size },
                    Err(error) => ProbePhase::Done(Err(FrameError::AsDmabufError(error))),
                },
                ..self
            }),
    {
        let (use_opaque, mode_size) = (self.use_opaque, self.mode_size);
        match self.phase {
            ProbePhase::Export { slot } => FormatProbe {
                use_opaque,
                mode_size,
                phase: match result {
                    Ok(size) => ProbePhase::Framebuffer { slot, size },
                    Err(error) => ProbePhase::Done(Err(FrameError::AsDmabufError(error))),
                },
            },
            phase => FormatProbe { use_opaque, mode_size, phase },
        }
    }

    /// Takes the framebuffer.
    pub fn framebuffer(self, result: Result<Option<FramebufferInfo>, F>) -> (r: FormatProbe<
        A,
        B,
        F,
    >)
        requires
            self.phase is Framebuffer,
        ensures
            self.phase matches ProbePhase::Framebuffer { slot, size } && r == (FormatProbe {
                phase: match result {
                    Ok(Some(info)) => ProbePhase::Claim {
                        slot,
                        size,
                        fb: CachedDrmFramebuffer { framebuffer: DrmFramebuffer::Exporter(info) },
                    },
                    Ok(None) => ProbePhase::Done(Err(FrameError::NoFramebuffer)),
                    Err(error) => ProbePhase::Done(Err(FrameError::FramebufferExport(error))),
                },
                ..self
            }),
    {
        let (use_opaque, mode_size) = (self.use_opaque, self.mode_size);
        match self.phase {
            ProbePhase::Framebuffer { slot, size } => FormatProbe {
                use_opaque,
                mode_size,
                phase: match FrameError::framebuffer(result) {
                    Ok(fb) => ProbePhase::Claim { slot, size, fb },
                    Err(error) => ProbePhase::Done(Err(error)),
                },
            },
            phase => FormatProbe { use_opaque, mode_size, phase },
        }
    }

    /// Takes the claim of the primary plane.
    pub fn claimed(self, claim: Option<u64>) -> (r: FormatProbe<A, B, F>)
        requires
            self.phase is Claim,
        ensures
            self.phase matches ProbePhase::Claim { slot, size, fb } && r == (FormatProbe {
                phase: match claim {
                    Some(claim) => ProbePhase::Test {
                        state: PlaneState {
                            needs_test: true,
                            ..swapchain_state(slot, fb, size, self.mode_size, claim)
                        },
                    },
                    None => ProbePhase::Done(Err(FrameError::PrimaryPlaneClaimFailed)),
                },
                ..self
            }),
    {
        let (use_opaque, mode_size) = (self.use_opaque, self.mode_size);
        match self.phase {
            ProbePhase::Claim { slot, size, fb } => FormatProbe {
                use_opaque,
                mode_size,
                phase: match claim {
                    Some(claim) => {
                        let mut state = primary_swapchain_state(slot, fb, size, mode_size, claim);
                        state.needs_test = true;
                        ProbePhase::Test { state }
                    },
                    None => ProbePhase::Done(Err(FrameError::PrimaryPlaneClaimFailed)),
                },
            },
            phase => FormatProbe { use_opaque, mode_size, phase },
        }
    }

    /// The frame to be tested, as a modeset: nothing but the buffer on the primary plane.
    pub fn test_frame(&self, primary: u32, planes: &Planes, include_cursor_planes: bool) -> (r:
        FrameState)
        requires
            self.phase is Test,
        ensures
            self.phase matches ProbePhase::Test { state } && r@ == with_state(
                seq![(primary, PlaneState::idle())] + (if include_cursor_planes {
                    idle_entries(planes.cursor@)
                } else {
                    Seq::empty()
                }) + idle_entries(planes.overlay@),
                primary,
                state,
            ),
    {
        let mut frame = FrameState::from_planes(primary, planes, include_cursor_planes);
        if let ProbePhase::Test { state } = &self.phase {
            frame.set_state(primary, *state);
        }
        frame
    }

    /// Takes the verdict.
    pub fn tested(self, result: Result<(), DrmError>) -> (r: FormatProbe<A, B, F>)
        requires
            self.phase is Test,
        ensures
            r == (FormatProbe {
                phase: ProbePhase::<A, B, F>::Done(
                    match result {
                        Ok(_) => Ok(self.use_opaque),
                        Err(error) => Err(FrameError::DrmError(error)),
                    },
                ),
                ..self
            }),
    {
        FormatProbe {
            use_opaque: self.use_opaque,
            mode_size: self.mode_size,
            phase: ProbePhase::Done(
                match result {
                    Ok(_) => Ok(self.use_opaque),
                    Err(error) => Err(FrameError::DrmError(error)),
                },
            ),
        }
    }
}

/// The search for the first format that works, in the order of preference.
pub struct FormatSearch<A, B, F> {
    pub formats: Vec<u32>,
    pub index: usize,
    /// Why the format before did not work.
    pub error: Option<FrameError<A, B, F>>,
}

impl<A, B, F> FormatSearch<A, B, F> {
    /// There is a reason for every format that was passed over.
    pub open spec fn wf(self) -> bool {
        self.index <= self.formats@.len() && (self.index > 0 ==> self.error.is_some())
    }

    pub fn begin(formats: Vec<u32>) -> (r: FormatSearch<A, B, F>)
        ensures
            r.wf(),
            r.formats == formats,
            r.index == 0,
            r.error is None,
    {
        FormatSearch { formats, index: 0, error: None }
    }

    /// The format to be tried next, if any is left.
    pub fn current(&self) -> (r: Option<u32>)
        requires
            self.wf(),
        ensures
            r == (if self.index < self.formats@.len() {
                Some(self.formats@[self.index as int])
            } else {
                None
            }),
    {
        if self.index < self.formats.len() {
            Some(self.formats[self.index])
        } else {
            None
        }
    }

    /// Passes over a format that does not work.
    pub fn failed(&mut self, error: FrameError<A, B, F>)
        requires
            old(self).wf(),
            old(self).index < old(self).formats.len(),
        ensures
            final(self).wf(),
            *final(self) == (FormatSearch {
                index: (old(self).index + 1) as usize,
                error: Some(error),
                ..*old(self)
            }),
    {
        self.index = self.index + 1;
        self.error = Some(error);
    }

    /// Why no format works: the reason of the last one.
    pub fn into_error(self) -> (r: FrameError<A, B, F>)
        requires
            self.wf(),
            self.formats@.len() > 0,
            self.index == self.formats@.len(),
        ensures
            Some(r) == self.error,
    {
        self.error.unwrap()
    }
}

} // verus!
