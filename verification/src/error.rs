//! What can go wrong with a frame.

use vstd::prelude::*;
use crate::buffer::{CachedDrmFramebuffer, DrmFramebuffer, FramebufferInfo, Slot};

verus! {

/// An error of the device.
#[derive(Clone, Copy, Debug, PartialEq, Eq, Structural)]
pub enum DrmError {
    /// The session may not use the device now.
    DeviceInactive,
    /// The device refused an access, by the error number of the system.
    Access { invalid_input: bool, raw_os_error: Option<i32> },
    /// Any other error, by a number that tells it apart.
    Other(u64),
}

/// Errors thrown by a compositor. `A`, `B` and `F` are the errors of the allocator, of the export
/// of buffers and of the export of framebuffers.
#[derive(Clone, Copy, Debug, PartialEq, Eq)]
pub enum FrameError<A, B, F> {
    /// Failed to claim the primary plane
    PrimaryPlaneClaimFailed,
    /// No supported pixel format for the given plane could be determined
    NoSupportedPlaneFormat,
    /// No supported pixel format for the given renderer could be determined
    NoSupportedRendererFormat,
    /// The swapchain is exhausted, you need to call `frame_submitted`
    NoFreeSlotsError,
    /// Error accessing the drm device
    DrmError(DrmError),
    /// Error during buffer allocation
    Allocator(A),
    /// Error during exporting the buffer as dmabuf
    AsDmabufError(B),
    /// Error during exporting a framebuffer
    FramebufferExport(F),
    /// No framebuffer available
    NoFramebuffer,
    /// The frame is empty
    ///
    /// Possible reasons are that nothing was rendered before queueing, or that a frame without
    /// changes is queued.
    EmptyFrame,
}

/// Errors of rendering.
#[derive(Clone, Copy, Debug, PartialEq, Eq)]
pub enum OutputDamageTrackerError<R> {
    Rendering(R),
    /// The output has no mode.
    OutputNoMode,
}

/// Error returned from rendering a frame
#[derive(Clone, Copy, Debug, PartialEq, Eq)]
pub enum RenderFrameError<A, B, F, R> {
    /// Preparing the frame encountered an error
    PrepareFrame(FrameError<A, B, F>),
    /// Rendering the frame encountered an error
    RenderFrame(OutputDamageTrackerError<R>),
}

/// What a failure to show a frame means.
#[derive(Clone, Copy, Debug, PartialEq, Eq)]
pub enum SwapBuffersError<A, B, F> {
    /// The compositor can not go on as it is set up.
    ContextLost(FrameError<A, B, F>),
    /// The allocator failed, and the compositor can not go on.
    AllocatorLost(A),
    /// Buffers can not be exported, and the compositor can not go on.
    ExportLost(B),
    /// Framebuffers can not be exported, and the compositor can not go on.
    FramebufferLost(F),
    /// Another frame may work.
    TemporaryFailure(FrameError<A, B, F>),
    /// The device has to be looked at.
    Drm(DrmError),
}

impl<A, B, F> vstd::std_specs::convert::FromSpecImpl<FrameError<A, B, F>> for SwapBuffersError<A, B, F> {
    open spec fn obeys_from_spec() -> bool {
        true
    }

    open spec fn from_spec(err: FrameError<A, B, F>) -> SwapBuffersError<A, B, F> {
        match err {
            FrameError::NoFreeSlotsError => SwapBuffersError::TemporaryFailure(err),
            FrameError::EmptyFrame => SwapBuffersError::TemporaryFailure(err),
            FrameError::DrmError(err) => SwapBuffersError::Drm(err),
            FrameError::Allocator(err) => SwapBuffersError::AllocatorLost(err),
            FrameError::AsDmabufError(err) => SwapBuffersError::ExportLost(err),
            FrameError::FramebufferExport(err) => SwapBuffersError::FramebufferLost(err),
            _ => SwapBuffersError::ContextLost(err),
        }
    }
}

impl<A, B, F> From<FrameError<A, B, F>> for SwapBuffersError<A, B, F> {
    fn from(err: FrameError<A, B, F>) -> (r: SwapBuffersError<A, B, F>) {
        match err {
            FrameError::NoSupportedPlaneFormat => {
                SwapBuffersError::ContextLost(FrameError::NoSupportedPlaneFormat)
            },
            FrameError::NoSupportedRendererFormat => {
                SwapBuffersError::ContextLost(FrameError::NoSupportedRendererFormat)
            },
            FrameError::PrimaryPlaneClaimFailed => {
                SwapBuffersError::ContextLost(FrameError::PrimaryPlaneClaimFailed)
            },
            FrameError::NoFramebuffer => SwapBuffersError::ContextLost(FrameError::NoFramebuffer),
            FrameError::NoFreeSlotsError => {
                SwapBuffersError::TemporaryFailure(FrameError::NoFreeSlotsError)
            },
            FrameError::EmptyFrame => SwapBuffersError::TemporaryFailure(FrameError::EmptyFrame),
            FrameError::DrmError(err) => SwapBuffersError::Drm(err),
            FrameError::Allocator(err) => SwapBuffersError::AllocatorLost(err),
            FrameError::AsDmabufError(err) => SwapBuffersError::ExportLost(err),
            FrameError::FramebufferExport(err) => SwapBuffersError::FramebufferLost(err),
        }
    }
}

impl<A, B, F> FrameError<A, B, F> {
    /// The slot that the swapchain gave, or why there is none.
    pub fn acquired(result: Result<Option<Slot>, A>) -> (r: Result<Slot, FrameError<A, B, F>>)
        ensures
            r == (match result {
                Ok(Some(slot)) => Ok(slot),
                Ok(None) => Err(FrameError::<A, B, F>::NoFreeSlotsError),
                Err(error) => Err(FrameError::Allocator(error)),
            }),
    {
        match result {
            Ok(Some(slot)) => Ok(slot),
            Ok(None) => Err(FrameError::NoFreeSlotsError),
            Err(error) => Err(FrameError::Allocator(error)),
        }
    }

    /// The framebuffer that the exporter made, or why there is none.
    pub fn framebuffer(result: Result<Option<FramebufferInfo>, F>) -> (r: Result<
        CachedDrmFramebuffer,
        FrameError<A, B, F>,
    >)
        ensures
            r == (match result {
                Ok(Some(info)) => Ok(
                    CachedDrmFramebuffer { framebuffer: DrmFramebuffer::Exporter(info) },
                ),
                Ok(None) => Err(FrameError::<A, B, F>::NoFramebuffer),
                Err(error) => Err(FrameError::FramebufferExport(error)),
            }),
    {
        match result {
            Ok(Some(info)) => Ok(CachedDrmFramebuffer::new(DrmFramebuffer::Exporter(info))),
            Ok(None) => Err(FrameError::NoFramebuffer),
            Err(error) => Err(FrameError::FramebufferExport(error)),
        }
    }
}

} // verus!
