//! Testing whether a frame can be composed.

use vstd::prelude::*;
use crate::assignment::cursor_plane_size;
use crate::attempt::cursor_fits;
use crate::core_state::Core;
use crate::element::{Element, ElementInfo, Kind, OutputState};
use crate::frame_build::composable;
use crate::geometry::{fits, Point, Rectangle, Size, Transform};
use crate::legacy_attempt::legacy_fits;
use crate::region::area;
use crate::transform::cursor_plane_location_fits;
use crate::visibility::{on_output, placeable, searchable};

verus! {

fn in_range(v: i64) -> (r: bool)
    ensures
        r == fits(v as int),
{
    -0x8000_0000 <= v && v <= 0x7fff_ffff
}

fn is_regular(rect: Rectangle) -> (r: bool)
    ensures
        r == rect.regular(),
{
    rect.size.w >= 0 && rect.size.h >= 0 && in_range(rect.loc.x as i64 + rect.size.w as i64)
        && in_range(rect.loc.y as i64 + rect.size.h as i64)
}

fn is_placeable(element: &Element) -> (r: bool)
    ensures
        r == placeable(*element),
{
    if !is_regular(element.info.geometry) {
        return false;
    }
    let loc = element.info.geometry.loc;
    let mut i: usize = 0;
    while i < element.opaque_regions.len()
        invariant
            i <= element.opaque_regions.len(),
            loc == element.info.geometry.loc,
            forall|k: int|
                0 <= k < i ==> (#[trigger] element.opaque_regions@[k]).loc.plus_fits(loc),
        decreases element.opaque_regions.len() - i,
    {
        let region = element.opaque_regions[i];
        if !in_range(region.loc.x as i64 + loc.x as i64) || !in_range(
            region.loc.y as i64 + loc.y as i64,
        ) {
            assert(!element.opaque_regions@[i as int].loc.plus_fits(loc));
            return false;
        }
        i = i + 1;
    }
    true
}

/// Where a point ends up, in numbers that hold every place.
fn wide_point(transform: Transform, point: Point, size: Size) -> (r: (i64, i64))
    ensures
        (r.0 as int, r.1 as int) == transform.point_spec(point, size),
        -0x1_0000_0000 <= r.0 <= 0x1_0000_0000,
        -0x1_0000_0000 <= r.1 <= 0x1_0000_0000,
{
    let x: i64 = point.x as i64;
    let y: i64 = point.y as i64;
    let w: i64 = size.w as i64;
    let h: i64 = size.h as i64;
    match transform {
        Transform::Normal => (x, y),
        Transform::_90 => (h - y, x),
        Transform::_180 => (w - x, h - y),
        Transform::_270 => (y, w - x),
        Transform::Flipped => (w - x, y),
        Transform::Flipped90 => (y, x),
        Transform::Flipped180 => (x, h - y),
        Transform::Flipped270 => (h - y, w - x),
    }
}

/// Whether every coordinate on the way to the origin of a cursor plane can be represented.
fn location_fits(location: Point, plane_size: Size, geometry: Rectangle, transform: Transform) -> (r:
    bool)
    ensures
        r == cursor_plane_location_fits(location, plane_size, geometry, transform),
{
    let placed: (i64, i64) = wide_point(transform, location, geometry.size);
    let origin: (i64, i64) = wide_point(transform, Point { x: 0, y: 0 }, plane_size);
    in_range(placed.0) && in_range(placed.1) && in_range(origin.0) && in_range(origin.1)
        && in_range(placed.0 - origin.0) && in_range(placed.1 - origin.1)
}

fn fits_everywhere(info: &ElementInfo, output: &OutputState, core: &Core) -> (r: bool)
    ensures
        r == (cursor_fits(*info, *output, core@) && legacy_fits(
            *info,
            *output,
            core@.cursor_size,
        )),
{
    if info.kind != Kind::Cursor {
        return true;
    }
    if !location_fits(
        info.location,
        core.cursor_size,
        output.geometry,
        output.transform,
    ) {
        return false;
    }
    let size = output.transform.transform_size(info.geometry.size);
    let mut i: usize = 0;
    while i < core.planes.cursor.len()
        invariant
            i <= core.planes.cursor.len(),
            core@.planes == core.planes,
            core@.cursor_size == core.cursor_size,
            size == output.transform.transform_size_spec(info.geometry.size),
            info.kind == Kind::Cursor,
            forall|k: int|
                0 <= k < i ==> cursor_plane_location_fits(
                    info.location,
                    crate::assignment::cursor_plane_size_spec(
                        #[trigger] core.planes.cursor@[k],
                        size,
                        core.cursor_size,
                    ),
                    output.geometry,
                    output.transform,
                ),
        decreases core.planes.cursor.len() - i,
    {
        let plane_size = cursor_plane_size(&core.planes.cursor[i], size, core.cursor_size);
        if !location_fits(info.location, plane_size, output.geometry, output.transform) {
            assert(plane_size == crate::assignment::cursor_plane_size_spec(
                core@.planes.cursor@[i as int],
                output.transform.transform_size_spec(info.geometry.size),
                core@.cursor_size,
            ));
            return false;
        }
        i = i + 1;
    }
    true
}

fn is_comparable(info: &ElementInfo) -> (r: bool)
    ensures
        r == info.comparable(),
{
    !(info.src.x.is_nan() || info.src.y.is_nan() || info.src.w.is_nan() || info.src.h.is_nan())
        && !info.alpha.is_nan()
}

/// Whether a frame can be made of the elements: those on the output can be laid out, cursors can be
/// placed, and no more pixels can be counted than there are numbers for.
pub fn is_composable(elements: &Vec<Element>, output: &OutputState, core: &Core) -> (r: bool)
    requires
        core@.wf(),
    ensures
        r == composable(elements@, *output, core@),
{
    let geometry = output.geometry;
    if !is_regular(geometry) || geometry.loc.x != 0 || geometry.loc.y != 0 {
        return false;
    }
    let w: u128 = geometry.size.w as u128;
    let h: u128 = geometry.size.h as u128;
    assert(0 <= w * h <= 0x7fff_ffff * 0x7fff_ffff) by (nonlinear_arith)
        requires
            0 <= w <= 0x7fff_ffff,
            0 <= h <= 0x7fff_ffff,
    ;
    let pixels: u128 = w * h;
    if pixels > 0x7fff_ffff {
        return false;
    }
    let count: u128 = elements.len() as u128 + 1;
    assert(0 <= count * pixels <= 0x1_0000_0000_0000_0000 * 0x7fff_ffff) by (nonlinear_arith)
        requires
            0 <= count <= 0x1_0000_0000_0000_0000,
            0 <= pixels <= 0x7fff_ffff,
    ;
    assert((elements@.len() + 1) * area(geometry) == count * pixels);
    if count * pixels > usize::MAX as u128 {
        return false;
    }
    let mut i: usize = 0;
    while i < elements.len()
        invariant
            i <= elements.len(),
            geometry == output.geometry,
            forall|k: int|
                0 <= k < i && on_output(#[trigger] elements@[k], output.geometry) ==> {
                    &&& placeable(elements@[k])
                    &&& elements@[k].info.comparable()
                    &&& cursor_fits(elements@[k].info, *output, core@)
                    &&& legacy_fits(elements@[k].info, *output, core@.cursor_size)
                },
        decreases elements.len() - i,
    {
        let element = &elements[i];
        if element.info.geometry.intersection(geometry).is_some() {
            if !is_placeable(element) || !is_comparable(&element.info) || !fits_everywhere(
                &element.info,
                output,
                core,
            ) {
                assert(on_output(elements@[i as int], output.geometry));
                return false;
            }
        }
        i = i + 1;
    }
    assert(searchable(geometry));
    true
}

} // verus!
