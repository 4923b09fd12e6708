//! What holds of elements on planes, in terms of the pixels that are seen.

use vstd::prelude::*;
use crate::assignment::{
    cursor_config_spec, cursor_plane_size_spec, cursor_plane_state, cursor_stays_compatible,
    cursor_update_spec, element_plane_config, element_plane_state, element_properties_spec,
    overlay_admits_spec, plane_matches_spec, previous_commit_spec, primary_open_spec,
    primary_refusal_spec, CursorPlacement, CursorState, CursorUpdate, ElementPlaneConfig,
};
use crate::buffer::{
    CachedDrmFramebuffer, DrmFramebuffer, FramebufferInfo, ScanoutBuffer, UnderlyingStorage,
};
use crate::compositor::OutputMode;
use crate::element::{ElementInfo, OutputState, RenderingReason};
use crate::element_states::PlanesSnapshot;
use crate::flags::FrameFlags;
use crate::frame_state::{
    assigned, built_planes, plane_overlaps, state_of, surface_state, test_skippable,
    SurfacePlaneState,
};
use crate::geometry::{Point, Rectangle, Size, Transform};
use crate::plane::{PlaneConfig, PlaneInfo, PlaneProperties, PlaneState};
use crate::transform::{apply_output_transform_spec, cursor_plane_location_spec};

verus! {

// ---------------------------------------------------------------------------------------------
// Turning and mirroring
// ---------------------------------------------------------------------------------------------

/// How far a transform turns, in degrees.
pub open spec fn degrees(t: Transform) -> int {
    match t {
        Transform::Normal => 0,
        Transform::_90 => 90,
        Transform::_180 => 180,
        Transform::_270 => 270,
        Transform::Flipped => 0,
        Transform::Flipped90 => 90,
        Transform::Flipped180 => 180,
        Transform::Flipped270 => 270,
    }
}

/// Whether a transform shows a mirror image.
pub open spec fn mirrors(t: Transform) -> bool {
    match t {
        Transform::Normal => false,
        Transform::_90 => false,
        Transform::_180 => false,
        Transform::_270 => false,
        Transform::Flipped => true,
        Transform::Flipped90 => true,
        Transform::Flipped180 => true,
        Transform::Flipped270 => true,
    }
}

/// Where the point `(x, y)` of a `w` by `h` area ends up: it is turned first, and mirrored then.
pub open spec fn turned_point(t: Transform, x: int, y: int, w: int, h: int) -> (int, int) {
    let (a, b, width) = if degrees(t) == 0 {
        (x, y, w)
    } else if degrees(t) == 90 {
        (h - y, x, h)
    } else if degrees(t) == 180 {
        (w - x, h - y, w)
    } else {
        (y, w - x, h)
    };
    if mirrors(t) {
        (width - a, b)
    } else {
        (a, b)
    }
}

/// Where the pixel at `(x, y)` ends up: the pixels are the cells between the points.
pub open spec fn turned_pixel(t: Transform, x: int, y: int, w: int, h: int) -> (int, int) {
    let a = turned_point(t, x, y, w, h);
    let b = turned_point(t, x + 1, y + 1, w, h);
    (
        if a.0 <= b.0 {
            a.0
        } else {
            b.0
        },
        if a.1 <= b.1 {
            a.1
        } else {
            b.1
        },
    )
}

/// Whether the pixel at `(x, y)` lies in the rectangle.
pub open spec fn lies_in(rect: Rectangle, x: int, y: int) -> bool {
    rect.loc.x <= x < rect.loc.x + rect.size.w && rect.loc.y <= y < rect.loc.y + rect.size.h
}

/// Whether the content of a storage is upside down.
pub open spec fn is_upside_down(storage: UnderlyingStorage) -> bool {
    storage matches UnderlyingStorage::Wayland(buffer) && (buffer.y_inverted matches Some(inverted)
        && inverted)
}

/// The area that elements are laid out in is the mode as one sees it: turned back, so that its sides
/// trade places on an upright screen.
pub proof fn outputs_are_laid_out_upright(mode: OutputMode)
    ensures
        (degrees(mode.output_spec().transform) + degrees(mode.transform)) % 360 == 0,
        mirrors(mode.output_spec().transform) == mirrors(mode.transform),
        mode.output_spec().size == mode.size,
        mode.output_spec().scale == mode.scale,
        mode.output_spec().geometry.loc == (Point { x: 0, y: 0 }),
        mode.output_spec().geometry.size == (if degrees(mode.transform) == 90 || degrees(
            mode.transform,
        ) == 270 {
            Size { w: mode.size.h, h: mode.size.w }
        } else {
            mode.size
        }),
{
}

/// A plane turns its buffer by as much as the output is turned and the content is not yet; so content
/// that was drawn for the output as it is turned is shown as it is. Everything else about the plane is
/// as the element and its framebuffer have it.
pub proof fn scanned_out_elements_face_the_right_way(
    mode: OutputMode,
    element: ElementInfo,
    storage: UnderlyingStorage,
    fb: CachedDrmFramebuffer,
)
    ensures
        ({
            let shown = element_properties_spec(element, storage, mode.output_spec(), fb);
            &&& degrees(shown.transform) == (degrees(mode.transform) - degrees(element.transform))
                % 360
            &&& mirrors(shown.transform) == (mirrors(mode.transform) != (mirrors(element.transform)
                != is_upside_down(storage)))
            &&& element.transform == Transform::Normal && !is_upside_down(storage)
                ==> shown.transform == mode.transform
            &&& element.transform == mode.transform && !is_upside_down(storage) ==> shown.transform
                == Transform::Normal
            &&& shown.src == element.src
            &&& shown.alpha == element.alpha
            &&& match fb.framebuffer {
                DrmFramebuffer::Exporter(info) => shown.format == info.format,
                DrmFramebuffer::Gbm(info) => shown.format == info.format,
            }
        }),
{
}

/// A plane shows its element just where rendering would: a pixel belongs to the element exactly if
/// the pixel that it becomes on the output belongs to the plane.
pub proof fn scanned_out_elements_are_in_place(
    element: ElementInfo,
    storage: UnderlyingStorage,
    output: OutputState,
    fb: CachedDrmFramebuffer,
    x: int,
    y: int,
)
    requires
        output.transform.rect_fits(element.geometry, output.geometry.size),
    ensures
        ({
            let pixel = turned_pixel(
                output.transform,
                x,
                y,
                output.geometry.size.w as int,
                output.geometry.size.h as int,
            );
            lies_in(element.geometry, x, y) == lies_in(
                element_properties_spec(element, storage, output, fb).dst,
                pixel.0,
                pixel.1,
            )
        }),
{
}

/// The buffer of a cursor plane is drawn with the transform of the output. So that the cursor is seen
/// in place, each point of it, at an offset from its top left corner, has to end up where that point
/// of the output does.
pub proof fn cursors_are_in_place(
    location: Point,
    plane_size: Size,
    output: Rectangle,
    transform: Transform,
    dx: int,
    dy: int,
)
    ensures
        ({
            let origin = cursor_plane_location_spec(location, plane_size, output, transform);
            let drawn = turned_point(transform, dx, dy, plane_size.w as int, plane_size.h as int);
            let seen = turned_point(
                transform,
                location.x + dx,
                location.y + dy,
                output.size.w as int,
                output.size.h as int,
            );
            origin.0 + drawn.0 == seen.0 && origin.1 + drawn.1 == seen.1
        }),
{
}

/// Seen through an output, turns are taken off those of the output and mirrorings cancel out.
pub proof fn turns_are_taken_off_the_output(transform: Transform, output: Transform)
    ensures
        (degrees(apply_output_transform_spec(transform, output)) + degrees(transform)) % 360
            == degrees(output),
        mirrors(apply_output_transform_spec(transform, output)) == (mirrors(transform) != mirrors(
            output,
        )),
{
}

// ---------------------------------------------------------------------------------------------
// Primary and overlay planes
// ---------------------------------------------------------------------------------------------

/// Whether two planes show a buffer in the same way.
pub open spec fn shown_alike(a: PlaneProperties, b: PlaneProperties) -> bool {
    &&& a.src.x.same_spec(b.src.x)
    &&& a.src.y.same_spec(b.src.y)
    &&& a.src.w.same_spec(b.src.w)
    &&& a.src.h.same_spec(b.src.h)
    &&& a.dst.loc.x == b.dst.loc.x
    &&& a.dst.loc.y == b.dst.loc.y
    &&& a.dst.size.w == b.dst.size.w
    &&& a.dst.size.h == b.dst.size.h
    &&& a.transform == b.transform
    &&& a.alpha.same_spec(b.alpha)
    &&& a.format.code == b.format.code
    &&& a.format.modifier == b.format.modifier
}

/// A state goes without a test only after one that shows its buffer in the same way, down to every
/// property.
pub proof fn compatible_planes_show_alike(a: PlaneProperties, b: PlaneProperties)
    ensures
        a.compatible(b) == shown_alike(a, b),
{
}

/// A plane for an element shows the buffer of the element as it is to be shown, names the element
/// with its content and its place in the stack, and still has to be tested. An update is saved only
/// where nothing changed: the content is not damaged, and the same framebuffer is shown in the same
/// way; and there it is saved. A buffer with an acquire point has a fence to wait for, and no other.
pub proof fn planes_show_their_elements(
    previous: Option<PlaneState>,
    element: ElementInfo,
    config: ElementPlaneConfig,
    has_damage: bool,
    damage_clips: Option<u64>,
    plane_claim: u64,
    signaled_fence: Option<u64>,
)
    ensures
        ({
            let shown = element_plane_config(config, damage_clips, plane_claim, signaled_fence);
            let state = element_plane_state(previous, element, config.z_index, shown, has_damage);
            &&& state.config == Some(shown)
            &&& shown.properties == config.properties
            &&& shown.buffer == config.buffer
            &&& shown.damage_clips == damage_clips
            &&& shown.plane_claim == plane_claim
            &&& state.needs_test
            &&& state.element_state matches Some(of) && of.id == element.id && of.commit
                == element.commit && of.z_index == config.z_index
            &&& has_damage ==> !state.skip
            &&& state.skip <==> !has_damage && (previous matches Some(before) && (
            before.config matches Some(other) && shown_alike(other.properties, config.properties)
                && other.buffer.fb.framebuffer.info_spec().handle
                == config.buffer.fb.framebuffer.info_spec().handle))
            &&& shown.sync.is_some() == (config.buffer.buffer matches ScanoutBuffer::Wayland(buffer)
                && buffer.has_acquire_point)
            &&& shown.sync matches Some(sync) ==> sync.fence == signaled_fence
        }),
{
}

/// Damage is collected since the content that the plane showed of the same element, and since ever
/// where it showed another one or none.
pub proof fn damage_is_since_what_was_shown(state: PlaneState, id: u64)
    ensures
        previous_commit_spec(None, id) is None,
        previous_commit_spec(Some(state), id) matches Some(commit) ==> (
        state.element_state matches Some(of) && of.id == id && of.commit == commit),
        state.element_state matches Some(of) ==> (of.id == id ==> previous_commit_spec(
            Some(state),
            id,
        ) == Some(of.commit)),
{
}

/// The primary plane takes an element only in place of nothing but rendered content, where a flag
/// admits it.
pub proof fn the_primary_plane_takes_one_element(
    entries: Seq<(u32, PlaneState)>,
    primary: u32,
    flags: FrameFlags,
)
    ensures
        primary_open_spec(entries, primary, flags) ==> (flags.bits & 1 != 0 || flags.bits & 2 != 0),
        primary_open_spec(entries, primary, flags) ==> (state_of(entries, primary) matches Some(
            state,
        ) && state.element_state is None),
        (flags.bits & 1 != 0 || flags.bits & 2 != 0) && (state_of(entries, primary) matches Some(
            state,
        ) && state.element_state is None) ==> primary_open_spec(entries, primary, flags),
{
    let bits = flags.bits;
    assert((bits & 3 != 0) == (bits & 1 != 0 || bits & 2 != 0)) by (bit_vector);
}

/// An element on the primary plane in place of the swapchain has its format, unless any will do; no
/// underlay is in use that the plane would cover; and the plane did not fail for it before. A known
/// failure is the only reason that is worth telling.
pub proof fn the_primary_plane_refuses_for_a_reason(
    entries: Seq<(u32, PlaneState)>,
    primary: PlaneInfo,
    overlay: Seq<PlaneInfo>,
    flags: FrameFlags,
    config: ElementPlaneConfig,
    failed_planes: PlanesSnapshot,
    underlay: int,
    shown: PlaneConfig,
)
    requires
        0 <= underlay < overlay.len(),
        state_of(entries, primary.handle) matches Some(state) && state.config == Some(shown),
    ensures
        ({
            let verdict = primary_refusal_spec(
                entries,
                primary,
                overlay,
                flags,
                config,
                failed_planes,
            );
            &&& verdict is Ok && overlay[underlay].z_spec() < primary.z_spec() ==> !assigned(
                entries,
                overlay[underlay].handle,
            )
            &&& verdict is Ok ==> !failed_planes.primary
            &&& verdict is Ok && flags.bits & 2 == 0 ==> (
            shown.buffer.buffer matches ScanoutBuffer::Swapchain(slot) ==> slot.format
                == config.properties.format)
            &&& verdict matches Err(reason) ==> (reason matches Some(reason) ==> reason
                == RenderingReason::ScanoutFailed && failed_planes.primary)
            &&& (forall|i: int|
                0 <= i < overlay.len() && (#[trigger] overlay[i]).z_spec() < primary.z_spec()
                    ==> !assigned(entries, overlay[i].handle)) && !failed_planes.primary && (
            flags.bits & 2 != 0 || !(shown.buffer.buffer matches ScanoutBuffer::Swapchain(slot)
                && slot.format != config.properties.format)) ==> verdict is Ok
        }),
{
    let bits = flags.bits;
    assert((bits & 2 == 2) == (bits & 2 != 0)) by (bit_vector);
}

/// An overlay plane takes an element where nothing gets out of order: it is free, nothing that it
/// shows is drawn behind what is rendered in front of it, an underlay is seen through the primary
/// plane and shows no background of its own, and what overlaps on other planes stays in front. Where
/// all that holds the element is not kept off.
pub proof fn overlay_planes_keep_the_order(
    entries: Seq<(u32, PlaneState)>,
    primary: PlaneInfo,
    overlay: Seq<PlaneInfo>,
    plane: PlaneInfo,
    geometry: Rectangle,
    is_opaque: bool,
    primary_has_alpha: bool,
    below_rendered: bool,
)
    ensures
        overlay_admits_spec(
            entries,
            primary,
            overlay,
            plane,
            geometry,
            is_opaque,
            primary_has_alpha,
            below_rendered,
        ) <==> {
            &&& !assigned(entries, plane.handle)
            &&& plane.z_spec() < primary.z_spec() ==> is_opaque && primary_has_alpha && forall|i: int|
                0 <= i < overlay.len() && (#[trigger] overlay[i]).handle != plane.handle
                    && plane_overlaps(entries, overlay[i].handle, geometry) ==> plane.z_spec()
                    < overlay[i].z_spec()
            &&& plane.z_spec() >= primary.z_spec() ==> !below_rendered && forall|i: int|
                0 <= i < overlay.len() && ((#[trigger] overlay[i]).handle != plane.handle
                    || overlay[i].z_spec() > plane.z_spec()) ==> !plane_overlaps(
                    entries,
                    overlay[i].handle,
                    geometry,
                )
        },
{
}

/// A plane is gone back to without a test only if it showed an element that was no further back, in
/// the same way.
pub proof fn planes_are_gone_back_to_for_the_same(
    previous: Seq<(u32, PlaneState)>,
    plane: u32,
    config: ElementPlaneConfig,
)
    ensures
        plane_matches_spec(previous, plane, config) <==> (state_of(previous, plane) matches Some(
            state,
        ) && (state.element_state matches Some(of) && of.z_index <= config.z_index) && (
        state.config matches Some(before) && shown_alike(before.properties, config.properties))),
{
}

// ---------------------------------------------------------------------------------------------
// Cursor planes
// ---------------------------------------------------------------------------------------------

/// A cursor plane is as large as the cursor needs: its size holds the element, as far as the device
/// or the plane has such a size, and a size that the plane prefers comes before the others.
pub proof fn cursor_planes_hold_their_cursor(
    plane: PlaneInfo,
    element_size: Size,
    cursor_size: Size,
    i: int,
)
    requires
        element_size.w <= cursor_size.w,
        element_size.h <= cursor_size.h,
    ensures
        ({
            let size = cursor_plane_size_spec(plane, element_size, cursor_size);
            &&& element_size.w <= size.w && element_size.h <= size.h
            &&& size == cursor_size || (plane.size_hints matches Some(hints) && hints@.contains(size))
            &&& plane.size_hints matches Some(hints) ==> (0 <= i < hints@.len() && element_size.w
                <= hints@[i].w && element_size.h <= hints@[i].h ==> exists|j: int|
                0 <= j <= i && (#[trigger] hints@[j]) == size)
        }),
{
    if let Some(hints) = plane.size_hints {
        lemma_first_hint(hints@, element_size, i);
    }
}

proof fn lemma_first_hint(hints: Seq<Size>, element_size: Size, i: int)
    ensures
        crate::assignment::first_hint(hints, element_size) matches Some(size) ==> hints.contains(size)
            && element_size.w <= size.w && element_size.h <= size.h,
        0 <= i < hints.len() && element_size.w <= hints[i].w && element_size.h <= hints[i].h ==> (
        crate::assignment::first_hint(hints, element_size) matches Some(size) && exists|j: int|
            0 <= j <= i && (#[trigger] hints[j]) == size),
    decreases hints.len(),
{
    if hints.len() > 0 {
        let rest = hints.skip(1);
        lemma_first_hint(rest, element_size, i - 1);
        if let Some(size) = crate::assignment::first_hint(hints, element_size) {
            if size == hints[0] {
                assert(hints[0] == size);
            } else {
                let k = choose|k: int| 0 <= k < rest.len() && rest[k] == size;
                assert(hints[k + 1] == size);
                if 1 <= i < hints.len() && element_size.w <= hints[i].w && element_size.h
                    <= hints[i].h {
                    assert(rest[i - 1] == hints[i]);
                    let j = choose|j: int| 0 <= j <= i - 1 && (#[trigger] rest[j]) == size;
                    assert(hints[j + 1] == size);
                }
            }
        }
    }
}

/// A cursor plane is kept or moved only if it shows this content of this element, in this size, drawn
/// for this output; then it is where the cursor is, shows the same buffer as before, and an update is
/// saved exactly where it did not move. Whatever else there was before, the cursor is drawn anew.
pub proof fn kept_cursors_show_the_same(
    cursor: CursorState,
    previous: Option<PlaneState>,
    element: ElementInfo,
    placement: CursorPlacement,
    output: OutputState,
)
    ensures
        ({
            let same = previous matches Some(before) && (before.element_state matches Some(of)
                && of.id == element.id && of.commit == element.commit && of.cursor_size == Some(
                placement.element_size,
            )) && (before.config matches Some(config) && config.properties.dst.size
                == placement.size) && cursor.previous_output_transform == Some(output.transform) && (
            cursor.previous_output_scale matches Some(scale) && scale.x.same_spec(output.scale.x)
                && scale.y.same_spec(output.scale.y));
            let after = match cursor_update_spec(cursor, previous, element, placement, output) {
                CursorUpdate::Keep(state) => Some(state),
                CursorUpdate::Reposition(state) => Some(state),
                CursorUpdate::Render => None,
            };
            &&& same <==> after is Some
            &&& after matches Some(state) ==> {
                &&& state.config matches Some(config) && config.properties.dst == (Rectangle {
                    loc: placement.location,
                    size: placement.size,
                }) && config.buffer == previous->0.config->0.buffer && config.properties.src
                    == previous->0.config->0.properties.src && config.properties.transform
                    == previous->0.config->0.properties.transform && config.properties.alpha
                    == previous->0.config->0.properties.alpha && config.properties.format
                    == previous->0.config->0.properties.format && config.plane_claim
                    == previous->0.config->0.plane_claim
                &&& state.element_state == previous->0.element_state
                &&& !state.needs_test
                &&& state.skip == (previous->0.config->0.properties.dst.loc == placement.location)
            }
        }),
{
}

/// A freshly drawn cursor is shown whole, as it was drawn, where the cursor is. It needs no test only
/// where a buffer was shown in the same way before, wherever that was.
pub proof fn drawn_cursors_are_shown_whole(
    previous: Option<PlaneState>,
    element: ElementInfo,
    z_index: usize,
    placement: CursorPlacement,
    buffer: u64,
    framebuffer: FramebufferInfo,
    plane_claim: u64,
)
    ensures
        ({
            let config = cursor_config_spec(placement, buffer, framebuffer, plane_claim);
            let compatible = cursor_stays_compatible(previous, config);
            let state = cursor_plane_state(
                element,
                z_index,
                placement.element_size,
                config,
                compatible,
            );
            &&& state.config == Some(config)
            &&& config.properties.dst == (Rectangle { loc: placement.location, size: placement.size })
            &&& config.properties.transform == Transform::Normal
            &&& config.properties.alpha.bits == 0x3f80_0000
            &&& config.properties.format == framebuffer.format
            &&& config.buffer.buffer == ScanoutBuffer::Cursor(buffer)
            &&& config.buffer.fb.framebuffer.info_spec() == framebuffer
            &&& config.plane_claim == plane_claim
            &&& config.sync is None
            &&& config.damage_clips is None
            &&& config.properties.src.x.bits == 0 && config.properties.src.y.bits == 0
            &&& !state.skip
            &&& state.element_state matches Some(of) && of.id == element.id && of.commit
                == element.commit && of.z_index == z_index && of.cursor_size == Some(
                placement.element_size,
            )
            &&& state.needs_test <==> !(previous matches Some(before) && (
            before.config matches Some(other) && shown_alike(
                PlaneProperties {
                    dst: Rectangle { loc: placement.location, ..other.properties.dst },
                    ..other.properties
                },
                config.properties,
            )))
        }),
{
}

// ---------------------------------------------------------------------------------------------
// Updates
// ---------------------------------------------------------------------------------------------

/// Whether what is sent for a plane is what the frame has on it.
pub open spec fn tells_the_plane(sent: SurfacePlaneState, entry: (u32, PlaneState)) -> bool {
    &&& sent.handle == entry.0
    &&& sent.config is Some <==> entry.1.config is Some
    &&& sent.config matches Some(config) ==> {
        &&& config.src == entry.1.config->0.properties.src
        &&& config.dst == entry.1.config->0.properties.dst
        &&& config.transform == entry.1.config->0.properties.transform
        &&& config.alpha == entry.1.config->0.properties.alpha
        &&& config.damage_clips == entry.1.config->0.damage_clips
        &&& config.fb == entry.1.config->0.buffer.fb.framebuffer.info_spec().handle
        &&& config.fence == (match entry.1.config->0.sync {
            Some(sync) => sync.fence,
            None => None,
        })
    }
}

/// An update names every plane in use with what the frame has on it. A partial one also names those
/// that changed, so that a plane out of use is taken off the screen; a full one names each further
/// plane that could be claimed.
pub proof fn updates_name_what_is_shown(
    entries: Seq<(u32, PlaneState)>,
    allow_partial_update: bool,
    claimed: Seq<u32>,
    i: int,
)
    requires
        0 <= i < entries.len(),
        entries[i].1.config is Some || (allow_partial_update && !entries[i].1.skip) || (
        !allow_partial_update && claimed.contains(entries[i].0)),
    ensures
        exists|k: int|
            0 <= k < built_planes(entries, allow_partial_update, claimed).len() && tells_the_plane(
                #[trigger] built_planes(entries, allow_partial_update, claimed)[k],
                entries[i],
            ),
    decreases entries.len(),
{
    let front = entries.drop_last();
    let before = built_planes(front, allow_partial_update, claimed);
    let all = built_planes(entries, allow_partial_update, claimed);
    if i < entries.len() - 1 {
        assert(front[i] == entries[i]);
        updates_name_what_is_shown(front, allow_partial_update, claimed, i);
        let k = choose|k: int|
            0 <= k < before.len() && tells_the_plane(#[trigger] before[k], front[i]);
        assert(all[k] == before[k]);
    } else {
        assert(tells_the_plane(all[before.len() as int], entries[i]));
    }
}

/// An update names nothing but planes of the frame that are in use, changed or claimed.
pub proof fn updates_name_nothing_else(
    entries: Seq<(u32, PlaneState)>,
    allow_partial_update: bool,
    claimed: Seq<u32>,
    k: int,
)
    requires
        0 <= k < built_planes(entries, allow_partial_update, claimed).len(),
    ensures
        exists|i: int|
            0 <= i < entries.len() && tells_the_plane(
                built_planes(entries, allow_partial_update, claimed)[k],
                #[trigger] entries[i],
            ) && (entries[i].1.config is Some || (allow_partial_update && !entries[i].1.skip) || (
            !allow_partial_update && claimed.contains(entries[i].0))),
    decreases entries.len(),
{
    let front = entries.drop_last();
    let before = built_planes(front, allow_partial_update, claimed);
    if k < before.len() {
        updates_name_nothing_else(front, allow_partial_update, claimed, k);
        let i = choose|i: int|
            0 <= i < front.len() && tells_the_plane(before[k], #[trigger] front[i]) && (
            front[i].1.config is Some || (allow_partial_update && !front[i].1.skip) || (
            !allow_partial_update && claimed.contains(front[i].0)));
        assert(entries[i] == front[i]);
    } else {
        assert(tells_the_plane(surface_state(entries.last()), entries[entries.len() - 1]));
    }
}

/// The test of a complete frame is saved only in a partial update, and only if every plane that
/// waits for one shows its buffer as it did in the frame before.
pub proof fn tests_are_saved_for_nothing_new(
    entries: Seq<(u32, PlaneState)>,
    previous: Seq<(u32, PlaneState)>,
    allow_partial_update: bool,
    i: int,
)
    requires
        0 <= i < entries.len(),
    ensures
        test_skippable(entries, previous, allow_partial_update) ==> allow_partial_update,
        test_skippable(entries, previous, allow_partial_update) && entries[i].1.needs_test ==> (
        state_of(previous, entries[i].0) matches Some(before) && match (
            entries[i].1.config,
            before.config,
        ) {
            (Some(a), Some(b)) => shown_alike(a.properties, b.properties),
            (None, None) => true,
            _ => false,
        }),
        allow_partial_update && (forall|j: int|
            0 <= j < entries.len() ==> !(#[trigger] entries[j]).1.needs_test) ==> test_skippable(
            entries,
            previous,
            allow_partial_update,
        ),
{
}

} // verus!
