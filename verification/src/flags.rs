//! What a frame may be realized with.

use vstd::prelude::*;

verus! {

/// Selects the ways in which a frame may be realized.
#[derive(Clone, Copy, Debug, PartialEq, Eq, Hash, Structural)]
pub struct FrameFlags {
    pub bits: u32,
}

impl FrameFlags {
    /// Allow to realize the frame by scanning out elements on the primary plane
    /// with the same pixel format as the main swapchain
    pub const ALLOW_PRIMARY_PLANE_SCANOUT: u32 = 1;

    /// Allow to realize the frame by scanning out elements on the primary plane
    /// regardless of their format
    pub const ALLOW_PRIMARY_PLANE_SCANOUT_ANY: u32 = 2;

    /// Allow to realize the frame by scanning out elements on overlay planes
    pub const ALLOW_OVERLAY_PLANE_SCANOUT: u32 = 4;

    /// Allow to realize the frame by scanning out elements on cursor planes
    pub const ALLOW_CURSOR_PLANE_SCANOUT: u32 = 8;

    /// Report an empty frame, if only the cursor plane would have been updated
    pub const SKIP_CURSOR_ONLY_UPDATES: u32 = 16;

    /// Allow to realize a cursor element through legacy cursor ioctls.
    pub const ALLOW_LEGACY_CURSOR: u32 = 32;

    /// Allow to realize the frame by assigning elements on any plane
    pub const ALLOW_SCANOUT: u32 = 13;

    /// Safe default set of flags
    pub const DEFAULT: u32 = 45;

    pub fn new(bits: u32) -> (r: FrameFlags)
        ensures
            r.bits == bits,
    {
        FrameFlags { bits }
    }

    /// No flags at all.
    pub fn empty() -> (r: FrameFlags)
        ensures
            r.bits == 0,
    {
        FrameFlags { bits: 0 }
    }

    /// Whether all the given flags are set.
    pub open spec fn has_all(self, flags: u32) -> bool {
        self.bits & flags == flags
    }

    /// Whether some of the given flags is set.
    pub open spec fn has_any(self, flags: u32) -> bool {
        self.bits & flags != 0
    }

    pub fn contains(self, flags: u32) -> (r: bool)
        ensures
            r == self.has_all(flags),
    {
        self.bits & flags == flags
    }

    pub fn intersects(self, flags: u32) -> (r: bool)
        ensures
            r == self.has_any(flags),
    {
        self.bits & flags != 0
    }
}

/// What the combined sets stand for: scanning out covers the primary, overlay and cursor planes,
/// and the default adds the legacy cursor and nothing that drops updates.
pub proof fn combined_flags()
    ensures
        FrameFlags::ALLOW_SCANOUT == FrameFlags::ALLOW_PRIMARY_PLANE_SCANOUT
            | FrameFlags::ALLOW_OVERLAY_PLANE_SCANOUT | FrameFlags::ALLOW_CURSOR_PLANE_SCANOUT,
        FrameFlags::DEFAULT == FrameFlags::ALLOW_SCANOUT | FrameFlags::ALLOW_LEGACY_CURSOR,
        (FrameFlags { bits: FrameFlags::DEFAULT }).has_all(FrameFlags::ALLOW_LEGACY_CURSOR),
        !(FrameFlags { bits: FrameFlags::DEFAULT }).has_any(FrameFlags::SKIP_CURSOR_ONLY_UPDATES),
        !(FrameFlags { bits: 0 }).has_all(FrameFlags::ALLOW_LEGACY_CURSOR),
{
    assert(13u32 == 1u32 | 4u32 | 8u32) by (bit_vector);
    assert(45u32 == 13u32 | 32u32) by (bit_vector);
    assert(45u32 & 32u32 == 32u32) by (bit_vector);
    assert(45u32 & 16u32 == 0) by (bit_vector);
    assert(0u32 & 32u32 != 32u32) by (bit_vector);
}

/// A flag stands for itself: a set that has all of some single flag has any of it.
pub proof fn single_flags(flags: FrameFlags)
    ensures
        flags.has_all(FrameFlags::ALLOW_PRIMARY_PLANE_SCANOUT_ANY) == flags.has_any(
            FrameFlags::ALLOW_PRIMARY_PLANE_SCANOUT_ANY,
        ),
        flags.has_all(FrameFlags::ALLOW_OVERLAY_PLANE_SCANOUT) ==> flags.has_any(
            FrameFlags::ALLOW_SCANOUT,
        ),
        flags.has_all(FrameFlags::ALLOW_CURSOR_PLANE_SCANOUT) ==> flags.has_any(
            FrameFlags::ALLOW_SCANOUT,
        ),
{
    let bits = flags.bits;
    assert((bits & 2 == 2) == (bits & 2 != 0)) by (bit_vector);
    assert(bits & 4 == 4 ==> bits & 13 != 0) by (bit_vector);
    assert(bits & 8 == 8 ==> bits & 13 != 0) by (bit_vector);
}

} // verus!
