//! Planes of the display engine and the state a frame gives them.

use vstd::prelude::*;
use crate::buffer::{DrmScanoutBuffer, Format, PlaneSync};
use crate::float::{F32, F64};
use crate::geometry::{Rectangle, Size, Transform};

verus! {

/// What a plane is meant for.
#[derive(Clone, Copy, Debug, PartialEq, Eq, Structural)]
pub enum PlaneType {
    Primary,
    Overlay,
    Cursor,
}

/// What is known about a plane.
#[derive(Clone, Debug)]
pub struct PlaneInfo {
    pub handle: u32,
    pub type_: PlaneType,
    /// The place in the stacking order, where the device tells it.
    pub zpos: Option<i32>,
    pub formats: Vec<Format>,
    /// Preferred extents of a cursor plane, best first.
    pub size_hints: Option<Vec<Size>>,
}

impl PlaneInfo {
    /// The stacking position; planes without one count as position zero.
    pub open spec fn z_spec(&self) -> int {
        match self.zpos {
            Some(z) => z as int,
            None => 0,
        }
    }

    pub fn z(&self) -> (r: i32)
        ensures
            r == self.z_spec(),
    {
        match self.zpos {
            Some(z) => z,
            None => 0,
        }
    }

    /// Whether the plane can show buffers of the given format.
    pub fn supports(&self, format: Format) -> (r: bool)
        ensures
            r == self.formats@.contains(format),
    {
        let mut i: usize = 0;
        while i < self.formats.len()
            invariant
                i <= self.formats.len(),
                forall|j: int| 0 <= j < i ==> self.formats@[j] != format,
            decreases self.formats.len() - i,
        {
            if self.formats[i] == format {
                assert(self.formats@[i as int] == format);
                return true;
            }
            i = i + 1;
        }
        false
    }
}

/// The planes a compositor may use.
#[derive(Clone, Debug)]
pub struct Planes {
    pub primary: Vec<PlaneInfo>,
    pub cursor: Vec<PlaneInfo>,
    pub overlay: Vec<PlaneInfo>,
}

/// Whether no plane is listed twice.
#[verifier::opaque]
pub open spec fn listed_once(planes: Planes) -> bool {
    let cursor = planes.cursor@;
    let overlay = planes.overlay@;
    &&& handles_differ(cursor)
    &&& handles_differ(overlay)
    &&& forall|i: int, j: int|
        0 <= i < cursor.len() && 0 <= j < overlay.len() ==> (#[trigger] cursor[i]).handle != (
        #[trigger] overlay[j]).handle
}

pub open spec fn handles_differ(planes: Seq<PlaneInfo>) -> bool {
    forall|i: int, j: int|
        0 <= i < j < planes.len() ==> (#[trigger] planes[i]).handle != (#[trigger] planes[j]).handle
}

/// Whether every plane is of the type of its list, none of them is the primary plane itself, and
/// none is listed twice.
pub open spec fn sorted_by_type(primary: PlaneInfo, planes: Planes) -> bool {
    &&& listed_once(planes)
    &&& primary.type_ == PlaneType::Primary
    &&& forall|i: int|
        0 <= i < planes.cursor@.len() ==> (#[trigger] planes.cursor@[i]).type_
            == PlaneType::Cursor && planes.cursor@[i].handle != primary.handle
    &&& forall|i: int|
        0 <= i < planes.overlay@.len() ==> (#[trigger] planes.overlay@[i]).type_
            == PlaneType::Overlay && planes.overlay@[i].handle != primary.handle
}

fn all_of_type(planes: &Vec<PlaneInfo>, type_: PlaneType, primary: u32) -> (r: bool)
    ensures
        r <==> forall|i: int|
            0 <= i < planes@.len() ==> (#[trigger] planes@[i]).type_ == type_ && planes@[i].handle
                != primary,
{
    let mut i: usize = 0;
    while i < planes.len()
        invariant
            i <= planes.len(),
            forall|j: int|
                0 <= j < i ==> (#[trigger] planes@[j]).type_ == type_ && planes@[j].handle
                    != primary,
        decreases planes.len() - i,
    {
        if planes[i].type_ != type_ || planes[i].handle == primary {
            assert(planes@[i as int].type_ != type_ || planes@[i as int].handle == primary);
            return false;
        }
        i = i + 1;
    }
    true
}

/// Whether one of the planes from a position on has the handle.
fn lists_handle(planes: &Vec<PlaneInfo>, start: usize, handle: u32) -> (r: bool)
    ensures
        r <==> exists|i: int| start <= i < planes@.len() && (#[trigger] planes@[i]).handle == handle,
{
    let mut i: usize = start;
    while i < planes.len()
        invariant
            start <= i,
            forall|j: int| start <= j < i ==> (#[trigger] planes@[j]).handle != handle,
        decreases planes.len() - i,
    {
        if planes[i].handle == handle {
            assert(planes@[i as int].handle == handle);
            return true;
        }
        i = i + 1;
    }
    false
}

/// Whether no plane has the handle of another one in its list or in the other list.
fn is_listed_once(planes: &Vec<PlaneInfo>, others: &Vec<PlaneInfo>) -> (r: bool)
    ensures
        r <==> handles_differ(planes@) && forall|i: int, j: int|
            0 <= i < planes@.len() && 0 <= j < others@.len() ==> (#[trigger] planes@[i]).handle != (
            #[trigger] others@[j]).handle,
{
    let mut i: usize = 0;
    while i < planes.len()
        invariant
            i <= planes.len(),
            forall|k: int, j: int|
                0 <= k < i && k < j < planes@.len() ==> (#[trigger] planes@[k]).handle != (
                #[trigger] planes@[j]).handle,
            forall|k: int, j: int|
                0 <= k < i && 0 <= j < others@.len() ==> (#[trigger] planes@[k]).handle != (
                #[trigger] others@[j]).handle,
        decreases planes.len() - i,
    {
        let handle: u32 = planes[i].handle;
        assert(planes@[i as int].handle == handle);
        if lists_handle(planes, i + 1, handle) || lists_handle(others, 0, handle) {
            return false;
        }
        i = i + 1;
    }
    true
}

/// Whether a compositor can work with these planes: they are sorted by type and listed once, and not
/// too many to be noted in a mask.
pub fn are_planes_usable(primary: &PlaneInfo, planes: &Planes) -> (r: bool)
    ensures
        r == (sorted_by_type(*primary, *planes) && planes.cursor@.len() <= 32
            && planes.overlay@.len() <= 32),
{
    proof {
        reveal(listed_once);
    }
    let empty: Vec<PlaneInfo> = Vec::new();
    is_listed_once(&planes.cursor, &planes.overlay) && is_listed_once(&planes.overlay, &empty)
        && primary.type_ == PlaneType::Primary && all_of_type(
        &planes.cursor,
        PlaneType::Cursor,
        primary.handle,
    ) && all_of_type(&planes.overlay, PlaneType::Overlay, primary.handle) && planes.cursor.len()
        <= 32 && planes.overlay.len() <= 32
}

/// The part of a buffer that a plane shows, in buffer coordinates.
#[derive(Clone, Copy, Debug, PartialEq, Eq, Structural)]
pub struct SrcRect {
    pub x: F64,
    pub y: F64,
    pub w: F64,
    pub h: F64,
}

impl SrcRect {
    pub open spec fn same_spec(self, other: SrcRect) -> bool {
        self.x.same_spec(other.x) && self.y.same_spec(other.y) && self.w.same_spec(other.w)
            && self.h.same_spec(other.h)
    }

    pub open spec fn has_nan(self) -> bool {
        self.x.is_nan_spec() || self.y.is_nan_spec() || self.w.is_nan_spec()
            || self.h.is_nan_spec()
    }

    pub fn same(self, other: SrcRect) -> (r: bool)
        ensures
            r == self.same_spec(other),
    {
        self.x.same(other.x) && self.y.same(other.y) && self.w.same(other.w) && self.h.same(
            other.h,
        )
    }

    /// The whole of a buffer with the given extent.
    pub open spec fn whole_spec(size: Size) -> SrcRect {
        SrcRect {
            x: F64 { bits: 0 },
            y: F64 { bits: 0 },
            w: F64::from_i32_spec(size.w),
            h: F64::from_i32_spec(size.h),
        }
    }

    pub fn whole(size: Size) -> (r: SrcRect)
        ensures
            r == Self::whole_spec(size),
            r.covers_all_of(size),
    {
        SrcRect { x: F64::zero(), y: F64::zero(), w: F64::from_i32(size.w), h: F64::from_i32(size.h) }
    }

    /// Whether this is the whole of a buffer with the given extent.
    pub open spec fn covers_all_of(self, size: Size) -> bool {
        &&& self.x.bits == 0
        &&& self.y.bits == 0
        &&& crate::float::encodes(self.w.bits, size.w as int)
        &&& crate::float::encodes(self.h.bits, size.h as int)
        &&& !self.has_nan()
    }
}

/// How a plane shows its buffer.
#[derive(Clone, Copy, Debug, PartialEq, Eq, Structural)]
pub struct PlaneProperties {
    pub src: SrcRect,
    pub dst: Rectangle,
    pub transform: Transform,
    pub alpha: F32,
    pub format: Format,
}

impl PlaneProperties {
    pub open spec fn compatible(self, other: PlaneProperties) -> bool {
        self.src.same_spec(other.src) && self.dst == other.dst && self.transform == other.transform
            && self.alpha.same_spec(other.alpha) && self.format == other.format
    }

    pub open spec fn has_nan(self) -> bool {
        self.src.has_nan() || self.alpha.is_nan_spec()
    }

    /// Whether a plane can go from one to the other without being tested again.
    pub fn is_compatible(&self, other: &PlaneProperties) -> (r: bool)
        ensures
            r == self.compatible(*other),
    {
        self.src.same(other.src) && self.dst == other.dst && self.transform == other.transform
            && self.alpha.same(other.alpha) && self.format == other.format
    }
}

/// Compatibility is symmetric, and every configuration free of NaN is compatible with itself.
pub proof fn compatibility_is_symmetric(a: PlaneProperties, b: PlaneProperties)
    ensures
        a.compatible(b) == b.compatible(a),
        a.compatible(a) == !a.has_nan(),
{
}

/// Everything that is needed to show a buffer on a plane.
#[derive(Clone, Copy, Debug, PartialEq, Eq, Structural)]
pub struct PlaneConfig {
    pub properties: PlaneProperties,
    pub buffer: DrmScanoutBuffer,
    /// The blob with the damaged rectangles, where there is one.
    pub damage_clips: Option<u64>,
    /// The claim that keeps others off the plane.
    pub plane_claim: u64,
    pub sync: Option<PlaneSync>,
}

impl PlaneConfig {
    pub open spec fn compatible(self, other: PlaneConfig) -> bool {
        self.properties.compatible(other.properties)
    }

    pub fn is_compatible(&self, other: &PlaneConfig) -> (r: bool)
        ensures
            r == self.compatible(*other),
    {
        self.properties.is_compatible(&other.properties)
    }
}

/// The element that a plane shows.
#[derive(Clone, Copy, Debug, PartialEq, Eq, Structural)]
pub struct PlaneElementState {
    pub id: u64,
    pub commit: u64,
    pub z_index: usize,
    pub cursor_size: Option<Size>,
}

/// What a frame does with one plane.
#[derive(Clone, Copy, Debug, PartialEq, Eq, Structural)]
pub struct PlaneState {
    /// Nothing about the plane changed, so it needs no update.
    pub skip: bool,
    /// The device has not accepted the state yet.
    pub needs_test: bool,
    pub element_state: Option<PlaneElementState>,
    /// `None` takes the plane off the screen.
    pub config: Option<PlaneConfig>,
}

impl PlaneState {
    pub open spec fn idle() -> PlaneState {
        PlaneState { skip: true, needs_test: false, element_state: None, config: None }
    }

    pub open spec fn compatible(self, other: PlaneState) -> bool {
        match (self.config, other.config) {
            (Some(a), Some(b)) => a.compatible(b),
            (None, None) => true,
            _ => false,
        }
    }

    pub open spec fn buffer_spec(self) -> Option<DrmScanoutBuffer> {
        match self.config {
            Some(config) => Some(config.buffer),
            None => None,
        }
    }

    pub fn buffer(&self) -> (r: Option<DrmScanoutBuffer>)
        ensures
            r == self.buffer_spec(),
    {
        match self.config {
            Some(config) => Some(config.buffer),
            None => None,
        }
    }

    pub fn is_compatible(&self, other: &PlaneState) -> (r: bool)
        ensures
            r == self.compatible(*other),
    {
        match (self.config, other.config) {
            (Some(a), Some(b)) => a.is_compatible(&b),
            (None, None) => true,
            _ => false,
        }
    }
}

impl Default for PlaneState {
    fn default() -> (r: PlaneState)
        ensures
            r == PlaneState::idle(),
    {
        PlaneState { skip: true, needs_test: false, element_state: None, config: None }
    }
}

/// Which plane an element went to.
#[derive(Clone, Copy, Debug, PartialEq, Eq, Structural)]
pub struct PlaneAssignment {
    pub handle: u32,
    pub type_: PlaneType,
}

impl PlaneInfo {
    pub open spec fn assignment_spec(&self) -> PlaneAssignment {
        PlaneAssignment { handle: self.handle, type_: self.type_ }
    }

    pub fn assignment(&self) -> (r: PlaneAssignment)
        ensures
            r == self.assignment_spec(),
    {
        PlaneAssignment { handle: self.handle, type_: self.type_ }
    }
}

} // verus!
