//! Buffers that can be put on a plane, and the framebuffers made of them.

use vstd::prelude::*;

verus! {

/// A pixel format: a fourcc code and a memory layout.
#[derive(Clone, Copy, Debug, PartialEq, Eq, Structural)]
pub struct Format {
    pub code: u32,
    pub modifier: u64,
}

/// A client buffer, as far as the compositor looks at it.
#[derive(Clone, Copy, Debug, PartialEq, Eq, Structural)]
pub struct WaylandBuffer {
    pub id: u64,
    /// Whether the content is stored bottom up, where that is known.
    pub y_inverted: Option<bool>,
    /// Whether the client attached an explicit acquire point.
    pub has_acquire_point: bool,
}

/// What an element's content is stored in.
#[derive(Clone, Copy, Debug, PartialEq, Eq, Structural)]
pub enum UnderlyingStorage {
    Wayland(WaylandBuffer),
    Memory,
}

impl UnderlyingStorage {
    pub open spec fn y_inverted_spec(self) -> bool {
        match self {
            UnderlyingStorage::Wayland(buffer) => buffer.y_inverted == Some(true),
            UnderlyingStorage::Memory => false,
        }
    }
}

/// A buffer of the primary swapchain.
#[derive(Clone, Copy, Debug, PartialEq, Eq, Structural)]
pub struct Slot {
    pub id: u64,
    pub format: Format,
}

/// A synchronization point that guards the content of a buffer.
#[derive(Clone, Copy, Debug, PartialEq, Eq, Structural)]
pub enum SyncPoint {
    /// Reached already.
    Signaled,
    /// Reached when the renderer is done.
    Pending(u64),
}

/// The synchronization point of a plane's buffer, with the native fence made of it so far.
#[derive(Clone, Copy, Debug, PartialEq, Eq, Structural)]
pub struct PlaneSync {
    pub point: SyncPoint,
    pub fence: Option<u64>,
}

/// A buffer that is kept alive while a plane shows it.
#[derive(Clone, Copy, Debug, PartialEq, Eq, Structural)]
pub enum ScanoutBuffer {
    Wayland(WaylandBuffer),
    Swapchain(Slot),
    Cursor(u64),
}

impl ScanoutBuffer {
    pub open spec fn acquire_point_spec(self, signaled_fence: Option<u64>) -> Option<
        PlaneSync,
    > {
        match self {
            ScanoutBuffer::Wayland(buffer) => if buffer.has_acquire_point {
                Some(PlaneSync { point: SyncPoint::Signaled, fence: signaled_fence })
            } else {
                None
            },
            _ => None,
        }
    }

    /// The acquire point of a client buffer that has one. It has been waited for by the time the
    /// buffer gets here, so it counts as signaled.
    pub fn acquire_point(&self, signaled_fence: Option<u64>) -> (r: Option<PlaneSync>)
        ensures
            r == self.acquire_point_spec(signaled_fence),
    {
        if let ScanoutBuffer::Wayland(buffer) = self {
            if buffer.has_acquire_point {
                return Some(PlaneSync { point: SyncPoint::Signaled, fence: signaled_fence });
            }
        }
        None
    }

    pub open spec fn from_underlying_storage_spec(storage: UnderlyingStorage) -> Option<
        ScanoutBuffer,
    > {
        match storage {
            UnderlyingStorage::Wayland(buffer) => Some(ScanoutBuffer::Wayland(buffer)),
            UnderlyingStorage::Memory => None,
        }
    }

    /// The buffer behind a storage; plain memory has none.
    pub fn from_underlying_storage(storage: UnderlyingStorage) -> (r: Option<ScanoutBuffer>)
        ensures
            r == Self::from_underlying_storage_spec(storage),
    {
        match storage {
            UnderlyingStorage::Wayland(buffer) => Some(ScanoutBuffer::Wayland(buffer)),
            UnderlyingStorage::Memory => None,
        }
    }
}

/// A framebuffer registered with the device.
#[derive(Clone, Copy, Debug, PartialEq, Eq, Structural)]
pub struct FramebufferInfo {
    pub handle: u32,
    pub format: Format,
}

/// A framebuffer, by the exporter it came from.
#[derive(Clone, Copy, Debug, PartialEq, Eq, Structural)]
pub enum DrmFramebuffer {
    Exporter(FramebufferInfo),
    Gbm(FramebufferInfo),
}

impl DrmFramebuffer {
    pub open spec fn info_spec(self) -> FramebufferInfo {
        match self {
            DrmFramebuffer::Exporter(info) => info,
            DrmFramebuffer::Gbm(info) => info,
        }
    }

    pub fn info(&self) -> (r: FramebufferInfo)
        ensures
            r == self.info_spec(),
    {
        match self {
            DrmFramebuffer::Exporter(info) => *info,
            DrmFramebuffer::Gbm(info) => *info,
        }
    }
}

/// A framebuffer that may be shared by several frames.
#[derive(Clone, Copy, Debug, PartialEq, Eq, Structural)]
pub struct CachedDrmFramebuffer {
    pub framebuffer: DrmFramebuffer,
}

impl CachedDrmFramebuffer {
    pub fn new(framebuffer: DrmFramebuffer) -> (r: CachedDrmFramebuffer)
        ensures
            r.framebuffer == framebuffer,
    {
        CachedDrmFramebuffer { framebuffer }
    }

    pub open spec fn handle_spec(self) -> u32 {
        self.framebuffer.info_spec().handle
    }

    pub open spec fn format_spec(self) -> Format {
        self.framebuffer.info_spec().format
    }

    pub fn handle(&self) -> (r: u32)
        ensures
            r == self.handle_spec(),
    {
        self.framebuffer.info().handle
    }

    pub fn format(&self) -> (r: Format)
        ensures
            r == self.format_spec(),
    {
        self.framebuffer.info().format
    }
}

/// A buffer together with the framebuffer that shows it.
#[derive(Clone, Copy, Debug, PartialEq, Eq, Structural)]
pub struct DrmScanoutBuffer {
    pub buffer: ScanoutBuffer,
    pub fb: CachedDrmFramebuffer,
}

} // verus!
