//! What holds of rectangles, colors, numbers, errors and what planes show.

use vstd::prelude::*;
use vstd::std_specs::convert::FromSpec;
use crate::assignment::{first_reason, overlaps_underlay_spec, stays_compatible};
use crate::buffer::{ScanoutBuffer, SyncPoint, UnderlyingStorage, WaylandBuffer};
use crate::core_state::CoreView;
use crate::element::{Color32F, RenderingReason};
use crate::element_states::ExportBufferError;
use crate::error::{FrameError, SwapBuffersError};
use crate::float::{F32, F64};
use crate::frame_build::FrameView;
use crate::frame_state::{plane_overlaps, state_of};
use crate::geometry::{Point, Rectangle, Size};
use crate::plane::{PlaneConfig, PlaneState};

verus! {

// ---------------------------------------------------------------------------------------------
// Geometry
// ---------------------------------------------------------------------------------------------

/// Whether a pixel lies in a rectangle.
pub open spec fn has_pixel(r: Rectangle, x: int, y: int) -> bool {
    r.loc.x <= x && x < r.loc.x + r.size.w && r.loc.y <= y && y < r.loc.y + r.size.h
}

/// Rectangles overlap exactly where they share a pixel, and their intersection has the pixels that
/// both have.
pub proof fn overlapping_rectangles_share_pixels(a: Rectangle, b: Rectangle, x: int, y: int)
    requires
        a.size.w > 0 && a.size.h > 0 && b.size.w > 0 && b.size.h > 0,
        a.regular() && b.regular(),
    ensures
        has_pixel(a, x, y) && has_pixel(b, x, y) ==> a.overlaps_spec(b),
        a.overlaps_spec(b) ==> exists|px: int, py: int| #[trigger]
            has_pixel(a, px, py) && has_pixel(b, px, py),
        a.intersection_spec(b) is Some <==> a.overlaps_spec(b),
        a.intersection_spec(b) matches Some(both) ==> (has_pixel(both, x, y) <==> has_pixel(a, x, y)
            && has_pixel(b, x, y)),
{
    if a.overlaps_spec(b) {
        let px = if a.loc.x >= b.loc.x {
            a.loc.x as int
        } else {
            b.loc.x as int
        };
        let py = if a.loc.y >= b.loc.y {
            a.loc.y as int
        } else {
            b.loc.y as int
        };
        assert(has_pixel(a, px, py) && has_pixel(b, px, py));
    }
}

/// A rectangle contains another one exactly if it has all its pixels.
pub proof fn contained_rectangles_have_no_other_pixels(a: Rectangle, b: Rectangle, x: int, y: int)
    requires
        b.size.w > 0 && b.size.h > 0,
        a.regular() && b.regular(),
    ensures
        a.contains_spec(b) && has_pixel(b, x, y) ==> has_pixel(a, x, y),
        (forall|px: int, py: int| #[trigger] has_pixel(b, px, py) ==> has_pixel(a, px, py))
            ==> a.contains_spec(b),
{
    if forall|px: int, py: int| #[trigger] has_pixel(b, px, py) ==> has_pixel(a, px, py) {
        assert(has_pixel(b, b.loc.x as int, b.loc.y as int));
        assert(has_pixel(b, b.loc.x + b.size.w - 1, b.loc.y + b.size.h - 1));
    }
}

/// A rectangle of a size alone begins at the origin; going somewhere and back leads to where one was.
pub proof fn places_are_relative(size: Size, a: Point, b: Point)
    ensures
        Rectangle::from_size_spec(size).size == size,
        Rectangle::from_size_spec(size).loc == (Point { x: 0, y: 0 }),
        a.minus_fits(b) ==> a.minus_spec(b).plus_spec(b) == a,
        a.plus_fits(b) ==> a.plus_spec(b).minus_spec(b) == a,
        a.plus_fits(b) ==> a.plus_spec(b).x - a.x == b.x && a.plus_spec(b).y - a.y == b.y,
        a.minus_fits(b) ==> a.minus_spec(b).x + b.x == a.x && a.minus_spec(b).y + b.y == a.y,
{
}

// ---------------------------------------------------------------------------------------------
// Numbers and colors
// ---------------------------------------------------------------------------------------------

/// Numbers are equal if they have the same bits, with two exceptions: a number that is none equals
/// nothing, and the two zeros are equal.
pub proof fn single_numbers_are_compared_as_numbers(a: F32, b: F32)
    ensures
        ({
            let a_none = (a.bits >> 23) & 0xff == 0xff && a.bits & 0x7f_ffff != 0;
            let b_none = (b.bits >> 23) & 0xff == 0xff && b.bits & 0x7f_ffff != 0;
            let zeros = (a.bits == 0 || a.bits == 0x8000_0000) && (b.bits == 0 || b.bits
                == 0x8000_0000);
            &&& a.is_nan_spec() == a_none
            &&& a.same_spec(b) <==> !a_none && !b_none && (a.bits == b.bits || zeros)
        }),
{
    let x = a.bits;
    let y = b.bits;
    assert((x % 0x8000_0000u32 > 0x7f80_0000u32) == ((x >> 23) & 0xff == 0xff && x & 0x7f_ffff != 0))
        by (bit_vector);
    assert((y % 0x8000_0000u32 > 0x7f80_0000u32) == ((y >> 23) & 0xff == 0xff && y & 0x7f_ffff != 0))
        by (bit_vector);
}

/// The same holds of numbers with twice the length.
pub proof fn double_numbers_are_compared_as_numbers(a: F64, b: F64)
    ensures
        ({
            let a_none = (a.bits >> 52) & 0x7ff == 0x7ff && a.bits & 0xf_ffff_ffff_ffff != 0;
            let b_none = (b.bits >> 52) & 0x7ff == 0x7ff && b.bits & 0xf_ffff_ffff_ffff != 0;
            let zeros = (a.bits == 0 || a.bits == 0x8000_0000_0000_0000) && (b.bits == 0 || b.bits
                == 0x8000_0000_0000_0000);
            &&& a.is_nan_spec() == a_none
            &&& a.same_spec(b) <==> !a_none && !b_none && (a.bits == b.bits || zeros)
        }),
{
    let x = a.bits;
    let y = b.bits;
    assert((x % 0x8000_0000_0000_0000u64 > 0x7ff0_0000_0000_0000u64) == ((x >> 52) & 0x7ff == 0x7ff
        && x & 0xf_ffff_ffff_ffff != 0)) by (bit_vector);
    assert((y % 0x8000_0000_0000_0000u64 > 0x7ff0_0000_0000_0000u64) == ((y >> 52) & 0x7ff == 0x7ff
        && y & 0xf_ffff_ffff_ffff != 0)) by (bit_vector);
}

/// A color is what is shown where nothing is exactly if it can not be seen, or has no light in any
/// channel.
pub proof fn dark_colors_need_no_plane(color: Color32F)
    ensures
        color.is_black_or_clear_spec() <==> (color.a.bits == 0 || color.a.bits == 0x8000_0000) || ((
        color.r.bits == 0 || color.r.bits == 0x8000_0000) && (color.g.bits == 0 || color.g.bits
            == 0x8000_0000) && (color.b.bits == 0 || color.b.bits == 0x8000_0000)),
{
}

// ---------------------------------------------------------------------------------------------
// Errors and reasons
// ---------------------------------------------------------------------------------------------

/// Another frame may work after a failure exactly if there was no free buffer or nothing to show; an
/// error of the device, the allocator or an exporter is handed on as it is.
pub proof fn failures_are_told_by_what_helps<A, B, F>(
    error: FrameError<A, B, F>,
    drm: crate::error::DrmError,
    allocator: A,
    export: B,
    framebuffer: F,
)
    ensures
        <SwapBuffersError<A, B, F> as FromSpec<FrameError<A, B, F>>>::from_spec(
            error,
        ) is TemporaryFailure <==> error is NoFreeSlotsError || error is EmptyFrame,
        error is NoFreeSlotsError || error is EmptyFrame ==> <SwapBuffersError<
            A,
            B,
            F,
        > as FromSpec<FrameError<A, B, F>>>::from_spec(error)
            == SwapBuffersError::<A, B, F>::TemporaryFailure(error),
        <SwapBuffersError<A, B, F> as FromSpec<FrameError<A, B, F>>>::from_spec(
            FrameError::DrmError(drm),
        ) == SwapBuffersError::<A, B, F>::Drm(drm),
        <SwapBuffersError<A, B, F> as FromSpec<FrameError<A, B, F>>>::from_spec(
            FrameError::Allocator(allocator),
        ) == SwapBuffersError::<A, B, F>::AllocatorLost(allocator),
        <SwapBuffersError<A, B, F> as FromSpec<FrameError<A, B, F>>>::from_spec(
            FrameError::AsDmabufError(export),
        ) == SwapBuffersError::<A, B, F>::ExportLost(export),
        <SwapBuffersError<A, B, F> as FromSpec<FrameError<A, B, F>>>::from_spec(
            FrameError::FramebufferExport(framebuffer),
        ) == SwapBuffersError::<A, B, F>::FramebufferLost(framebuffer),
{
}

/// A reason is told only for what another buffer may change, and the first reason is the one that is
/// told.
pub proof fn reasons_are_told_where_they_help(
    error: ExportBufferError,
    first: Option<RenderingReason>,
    second: Option<RenderingReason>,
)
    ensures
        error.rendering_reason_spec() is Some <==> error is ExportFailed,
        error.rendering_reason_spec() matches Some(reason) ==> reason
            == RenderingReason::ScanoutFailed,
        first is Some ==> first_reason(first, second) == first,
        first is None ==> first_reason(first, second) == second,
{
}

// ---------------------------------------------------------------------------------------------
// Planes
// ---------------------------------------------------------------------------------------------

/// What a plane shows overlaps a place exactly if it has a buffer whose place on the screen shares a
/// pixel with it.
pub proof fn planes_overlap_where_they_show_something(
    frame: Seq<(u32, PlaneState)>,
    plane: u32,
    place: Rectangle,
    x: int,
    y: int,
)
    requires
        state_of(frame, plane) is Some,
        place.size.w > 0 && place.size.h > 0,
        place.regular(),
        state_of(frame, plane)->0.config matches Some(config) ==> config.properties.dst.regular(),
    ensures
        state_of(frame, plane)->0.config is None ==> !plane_overlaps(frame, plane, place),
        state_of(frame, plane)->0.config matches Some(config) ==> {
            &&& has_pixel(config.properties.dst, x, y) && has_pixel(place, x, y) ==> plane_overlaps(
                frame,
                plane,
                place,
            )
            &&& plane_overlaps(frame, plane, place) && config.properties.dst.size.w > 0
                && config.properties.dst.size.h > 0 ==> exists|px: int, py: int| #[trigger]
                has_pixel(config.properties.dst, px, py) && has_pixel(place, px, py)
        },
{
    if let Some(config) = state_of(frame, plane)->0.config {
        let dst = config.properties.dst;
        if dst.size.w > 0 && dst.size.h > 0 {
            overlapping_rectangles_share_pixels(dst, place, x, y);
        }
    }
}

/// The primary plane is tried for the last element if nothing is rendered, no plane below shows
/// anything at its place, and either nothing but it can be seen or what lies beside it is dark.
pub proof fn the_primary_plane_is_tried_for_the_last_element(view: FrameView, core: CoreView)
    requires
        view.visible.len() > 0,
        view.index == view.visible.len() - 1,
        view.primary_plane_elements.len() == 0,
        forall|i: int|
            0 <= i < core.planes.overlay@.len() && (#[trigger] core.planes.overlay@[i]).z_spec()
                < core.primary.z_spec() ==> !plane_overlaps(
                view.frame,
                core.planes.overlay@[i].handle,
                view.visible[view.index as int].info.geometry,
            ),
    ensures
        view.context(core).try_primary <==> view.clear_color.is_black_or_clear_spec() || (
        view.visible[view.index as int].is_opaque
            && view.visible[view.index as int].info.geometry.contains_spec(view.output.geometry)),
{
    assert(!overlaps_underlay_spec(
        view.frame,
        core.primary,
        core.planes.overlay@,
        view.visible[view.index as int].info.geometry,
    ));
}

/// A plane above which something below would be covered is left to it.
pub proof fn the_primary_plane_covers_no_underlay(view: FrameView, core: CoreView, i: int)
    requires
        0 <= i < core.planes.overlay@.len(),
        core.planes.overlay@[i].z_spec() < core.primary.z_spec(),
        plane_overlaps(
            view.frame,
            core.planes.overlay@[i].handle,
            view.visible[view.index as int].info.geometry,
        ),
    ensures
        !view.context(core).try_primary,
{
    assert(crate::assignment::is_underlay_spec(core.primary, core.planes.overlay@[i]));
}

/// A buffer is waited for exactly if it comes from a client that says when it is ready, which it is by
/// then.
pub proof fn buffers_are_waited_for_where_they_say_so(buffer: ScanoutBuffer, fence: Option<u64>)
    ensures
        buffer.acquire_point_spec(fence) is Some <==> (buffer matches ScanoutBuffer::Wayland(client)
            && client.has_acquire_point),
        buffer.acquire_point_spec(fence) matches Some(sync) ==> sync.point == SyncPoint::Signaled
            && sync.fence == fence,
{
}

/// Only client buffers can be scanned out.
pub proof fn plain_memory_is_not_scanned_out(buffer: WaylandBuffer)
    ensures
        ScanoutBuffer::from_underlying_storage_spec(UnderlyingStorage::Wayland(buffer)) == Some(
            ScanoutBuffer::Wayland(buffer),
        ),
        ScanoutBuffer::from_underlying_storage_spec(UnderlyingStorage::Memory) is None,
{
}

/// A plane that is shown in the same way as before needs no test; one that showed nothing does.
pub proof fn planes_without_a_past_are_tested(previous: Option<PlaneState>, config: PlaneConfig)
    ensures
        previous is None ==> !stays_compatible(previous, config),
        previous matches Some(state) ==> (state.config is None ==> !stays_compatible(
            previous,
            config,
        )),
        previous matches Some(state) ==> (state.config matches Some(before) ==> (stays_compatible(
            previous,
            config,
        ) ==> before.properties.dst == config.properties.dst && before.properties.transform
            == config.properties.transform && before.properties.format == config.properties.format)),
{
}

} // verus!
