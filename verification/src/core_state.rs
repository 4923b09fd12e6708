//! What the assignment of elements to planes works with.

use vstd::prelude::*;
use crate::assignment::CursorState;
use crate::element_states::{ElementStateView, ElementStates};
use crate::geometry::Size;
use crate::legacy_cursor::CursorPlanePolicy;
use crate::plane::{sorted_by_type, PlaneInfo, Planes};

verus! {

/// What is known about a pixel format.
#[derive(Clone, Copy, Debug, PartialEq, Eq, Structural)]
pub struct FormatTraits {
    pub code: u32,
    /// The format with the same layout and no alpha channel.
    pub opaque: Option<u32>,
    pub has_alpha: bool,
}

/// The pixel formats that something is known about.
#[derive(Clone, Debug)]
pub struct FormatTable {
    pub formats: Vec<FormatTraits>,
}

/// The first entry for a format.
pub open spec fn traits_of(formats: Seq<FormatTraits>, code: u32) -> Option<FormatTraits>
    decreases formats.len(),
{
    if formats.len() == 0 {
        None
    } else if formats[0].code == code {
        Some(formats[0])
    } else {
        traits_of(formats.skip(1), code)
    }
}

impl FormatTable {
    pub fn find(&self, code: u32) -> (r: Option<FormatTraits>)
        ensures
            r == traits_of(self.formats@, code),
    {
        let mut i: usize = 0;
        assert(self.formats@.skip(0) =~= self.formats@);
        while i < self.formats.len()
            invariant
                i <= self.formats.len(),
                traits_of(self.formats@, code) == traits_of(self.formats@.skip(i as int), code),
            decreases self.formats.len() - i,
        {
            assert(self.formats@.skip(i as int)[0] == self.formats@[i as int]);
            assert(self.formats@.skip(i as int).skip(1) =~= self.formats@.skip(i as int + 1));
            if self.formats[i].code == code {
                return Some(self.formats[i]);
            }
            i = i + 1;
        }
        assert(traits_of(self.formats@.skip(i as int), code) is None);
        None
    }

    pub open spec fn has_alpha_spec(&self, code: u32) -> bool {
        traits_of(self.formats@, code) matches Some(traits) && traits.has_alpha
    }

    /// Whether the format has an alpha channel.
    pub fn has_alpha(&self, code: u32) -> (r: bool)
        ensures
            r == self.has_alpha_spec(code),
    {
        match self.find(code) {
            Some(traits) => traits.has_alpha,
            None => false,
        }
    }

    pub open spec fn opaque_or_same(&self, code: u32) -> u32 {
        match traits_of(self.formats@, code) {
            Some(traits) => match traits.opaque {
                Some(opaque) => opaque,
                None => code,
            },
            None => code,
        }
    }

    /// The format without its alpha channel, or the format itself where there is none such.
    pub fn opaque_code(&self, code: u32) -> (r: u32)
        ensures
            r == self.opaque_or_same(code),
    {
        match self.find(code) {
            Some(traits) => match traits.opaque {
                Some(opaque) => opaque,
                None => code,
            },
            None => code,
        }
    }
}

/// The parts of a compositor that the assignment of elements reads and changes.
pub struct Core {
    pub primary: PlaneInfo,
    pub planes: Planes,
    pub formats: FormatTable,
    pub cursor_size: Size,
    pub policy: CursorPlanePolicy,
    pub signaled_fence: Option<u64>,
    pub cursor: Option<CursorState>,
    pub states: ElementStates,
    pub previous_states: ElementStates,
}

/// The contents of a [`Core`].
#[verifier::ext_equal]
pub struct CoreView {
    pub primary: PlaneInfo,
    pub planes: Planes,
    pub formats: FormatTable,
    pub cursor_size: Size,
    pub policy: CursorPlanePolicy,
    pub signaled_fence: Option<u64>,
    pub cursor: Option<CursorState>,
    pub states: Map<u64, ElementStateView>,
    pub previous_states: Map<u64, ElementStateView>,
}

impl View for Core {
    type V = CoreView;

    open spec fn view(&self) -> CoreView {
        CoreView {
            primary: self.primary,
            planes: self.planes,
            formats: self.formats,
            cursor_size: self.cursor_size,
            policy: self.policy,
            signaled_fence: self.signaled_fence,
            cursor: self.cursor,
            states: self.states@,
            previous_states: self.previous_states@,
        }
    }
}

impl CoreView {
    /// The planes are sorted by type, listed once and fit in the masks that note them, and the cursor
    /// state is well formed.
    pub open spec fn wf(self) -> bool {
        &&& sorted_by_type(self.primary, self.planes)
        &&& self.planes.cursor@.len() <= 32
        &&& self.planes.overlay@.len() <= 32
        &&& self.cursor matches Some(cursor) ==> cursor.legacy.wf()
    }
}

/// Whether two states of a compositor have the same planes and the same legacy cursor.
pub open spec fn same_planes(a: CoreView, b: CoreView) -> bool {
    &&& a.planes == b.planes
    &&& a.primary == b.primary
    &&& a.formats == b.formats
    &&& a.policy == b.policy
    &&& a.cursor_size == b.cursor_size
    &&& a.signaled_fence == b.signaled_fence
    &&& match (a.cursor, b.cursor) {
        (Some(x), Some(y)) => x.legacy == y.legacy,
        (None, None) => true,
        _ => false,
    }
}

} // verus!
