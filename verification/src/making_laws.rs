//! What holds of a frame in the making.

use vstd::prelude::*;
use crate::buffer::{CachedDrmFramebuffer, ScanoutBuffer, Slot, SyncPoint};
use crate::core_state::CoreView;
use crate::element::{RenderElementPresentationState, RenderElementState, RenderingReason};
use crate::frame_build::{fresh_frame, legacy_choice, swapchain_state, FrameStep, FrameView};
use crate::frame_finish::{
    by_depth, by_depth_sorts, damage_report_spec, fallen_back, in_list, merged_states,
    rendered_state, retreated, stand_ins, z_of, DamageReport,
};
use crate::frame_state::{assigned, idle_entries, state_of};
use crate::geometry::{Point, Size, Transform};
use crate::legacy_cursor::CursorPlanePolicy;
use crate::overlay_map::{
    has_plane_id, id_for, ids_after, ids_cleaned, key_index_is_first, plane_index, without_plane,
};
use crate::plane::{PlaneAssignment, PlaneInfo, PlaneState, PlaneType};
use crate::prepared::{outgoing, planes_skipped, primary_element_spec, PrimaryPlaneElement};
use crate::render_states::{with_hidden, with_reason, with_rendered, with_zero_copy};

verus! {

// ---------------------------------------------------------------------------------------------
// Beginning
// ---------------------------------------------------------------------------------------------

/// A frame begins with nothing on any plane: each plane that showed something before is to be taken
/// off, and each other one left alone. It has the primary plane and all overlay planes, and the cursor
/// planes unless they are left to legacy cursors.
pub proof fn frames_begin_empty(
    core: CoreView,
    previous: Seq<(u32, PlaneState)>,
    i: int,
    cursor: int,
    overlay: int,
)
    ensures
        ({
            let frame = fresh_frame(core, previous);
            &&& frame.len() >= 1 && frame[0].0 == core.primary.handle
            &&& 0 <= i < frame.len() ==> frame[i].1.config is None && frame[i].1.element_state is None
                && !frame[i].1.needs_test && frame[i].1.skip == !assigned(previous, frame[i].0)
            &&& 0 <= overlay < core.planes.overlay@.len() ==> exists|j: int|
                0 <= j < frame.len() && (#[trigger] frame[j]).0 == core.planes.overlay@[overlay].handle
            &&& 0 <= cursor < core.planes.cursor@.len() && core.policy == CursorPlanePolicy::Atomic
                ==> exists|j: int|
                0 <= j < frame.len() && (#[trigger] frame[j]).0 == core.planes.cursor@[cursor].handle
            &&& frame.len() == 1 + core.planes.overlay@.len() + (if core.policy
                == CursorPlanePolicy::Atomic {
                core.planes.cursor@.len()
            } else {
                0
            })
        }),
{
    let frame = fresh_frame(core, previous);
    let cursors = if core.policy.reserves_spec() {
        Seq::empty()
    } else {
        idle_entries(core.planes.cursor@)
    };
    let overlays = idle_entries(core.planes.overlay@);
    if 0 <= overlay < core.planes.overlay@.len() {
        let j = 1 + cursors.len() + overlay;
        assert(overlays[overlay].0 == core.planes.overlay@[overlay].handle);
        assert(frame[j].0 == core.planes.overlay@[overlay].handle);
    }
    if 0 <= cursor < core.planes.cursor@.len() && core.policy == CursorPlanePolicy::Atomic {
        assert(cursors[cursor].0 == core.planes.cursor@[cursor].handle);
        assert(frame[1 + cursor].0 == core.planes.cursor@[cursor].handle);
    }
}

/// The buffer that is rendered to is shown whole, on the whole screen, as it is.
pub proof fn rendered_buffers_fill_the_screen(
    slot: Slot,
    fb: CachedDrmFramebuffer,
    buffer_size: Size,
    mode_size: Size,
    claim: u64,
)
    ensures
        ({
            let state = swapchain_state(slot, fb, buffer_size, mode_size, claim);
            &&& state.element_state is None
            &&& !state.skip
            &&& state.config matches Some(config) && config.buffer.buffer == ScanoutBuffer::Swapchain(
                slot,
            ) && config.buffer.fb == fb && config.plane_claim == claim && config.properties.dst.loc
                == (Point { x: 0, y: 0 }) && config.properties.dst.size == mode_size
                && config.properties.transform == Transform::Normal && config.properties.alpha.bits
                == 0x3f80_0000 && config.properties.format == slot.format
                && config.properties.src.x.bits == 0 && config.properties.src.y.bits == 0
        }),
{
}

/// The legacy cursor is for the only cursor element, where the flags admit legacy cursors and cursor
/// planes are left to them; a cursor that is installed and not wanted has to go first.
pub proof fn legacy_cursors_are_chosen_where_they_are_allowed(view: FrameView, core: CoreView)
    requires
        legacy_choice(view, core),
    ensures
        view.legacy_index matches Some(i) ==> {
            &&& view.flags.bits & 32 != 0
            &&& core.policy == CursorPlanePolicy::Legacy
            &&& i < view.visible.len()
            &&& view.visible[i as int].info.kind == crate::element::Kind::Cursor
            &&& !view.visible[i as int].info.is_framebuffer_effect
            &&& !view.disable_pending
        },
        view.legacy_index is None ==> (view.disable_pending <==> (core.cursor matches Some(cursor)
            && cursor.legacy.ownership is Active)),
{
    let bits = view.flags.bits;
    assert((bits & 32 == 32) == (bits & 32 != 0)) by (bit_vector);
}

// ---------------------------------------------------------------------------------------------
// One element after the other
// ---------------------------------------------------------------------------------------------

/// A plane is looked for the element itself, at its place in the stack; whether something rendered
/// lies in front of it, and whether the primary plane could show it alone, is as it is.
pub proof fn circumstances_are_told_as_they_are(view: FrameView, core: CoreView)
    requires
        view.index < view.visible.len(),
    ensures
        ({
            let ctx = view.context(core);
            let element = view.visible[view.index as int];
            &&& ctx.info == element.info
            &&& ctx.z_index == view.index
            &&& ctx.is_opaque == element.is_opaque
            &&& ctx.flags == view.flags
            &&& ctx.output == view.output
            &&& ctx.below_rendered <==> exists|k: int|
                0 <= k < view.primary_plane_elements.len()
                    && element.info.geometry.overlaps_spec(
                    view.visible[#[trigger] view.primary_plane_elements[k] as int].info.geometry,
                )
            &&& ctx.try_primary ==> view.index == view.visible.len() - 1
                && view.primary_plane_elements.len() == 0
            &&& ctx.try_primary && !view.clear_color.is_black_or_clear_spec() ==> element.is_opaque
                && element.info.geometry.contains_spec(view.output.geometry)
        }),
{
    let element = view.visible[view.index as int];
    assert forall|k: int| 0 <= k < view.primary_plane_elements.len() implies
        element.info.geometry.overlaps_spec(
        view.visible[#[trigger] view.primary_plane_elements[k] as int].info.geometry,
    ) == view.visible[view.primary_plane_elements[k] as int].info.geometry.overlaps_spec(
        element.info.geometry,
    ) by {}
}

/// An element is noted where it went: on its plane, which shows it without rendering, or among what is
/// rendered. Then the next one is looked at.
pub proof fn elements_are_noted_where_they_went(
    view: FrameView,
    plane: PlaneAssignment,
    reason: Option<RenderingReason>,
)
    requires
        view.index < view.visible.len(),
        view.visible.len() <= usize::MAX,
    ensures
        ({
            let shown = view.after_element(Ok(plane));
            let id = view.visible[view.index as int].info.id;
            &&& plane.type_ == PlaneType::Overlay ==> exists|k: int|
                0 <= k < shown.overlay_elements.len() && #[trigger] shown.overlay_elements[k] == (
                    plane.handle,
                    view.index,
                )
            &&& plane.type_ == PlaneType::Primary ==> shown.primary_scanout == Some(view.index)
            &&& plane.type_ == PlaneType::Cursor ==> shown.cursor_element == Some(view.index)
            &&& plane.type_ != PlaneType::Overlay ==> shown.overlay_elements == view.overlay_elements
            &&& plane.type_ != PlaneType::Primary ==> shown.primary_scanout == view.primary_scanout
            &&& plane.type_ != PlaneType::Cursor ==> shown.cursor_element == view.cursor_element
            &&& shown.primary_plane_elements == view.primary_plane_elements
            &&& shown.states.contains_key(id) && shown.states[id].presentation_state
                == RenderElementPresentationState::ZeroCopy
            &&& shown.index == view.index + 1
            &&& shown.frame == view.frame
        }),
        ({
            let rendered = view.after_element(Err(reason));
            &&& rendered.primary_plane_elements == view.primary_plane_elements.push(view.index)
            &&& rendered.overlay_elements == view.overlay_elements
            &&& rendered.cursor_element == view.cursor_element
            &&& rendered.primary_scanout == view.primary_scanout
            &&& rendered.index == view.index + 1
            &&& rendered.frame == view.frame
        }),
{
    key_index_is_first(view.overlay_elements, plane.handle);
    let shown = view.after_element(Ok(plane));
    if plane.type_ == PlaneType::Overlay {
        let k = crate::overlay_map::key_index(view.overlay_elements, plane.handle);
        assert(shown.overlay_elements[k] == (plane.handle, view.index));
    }
}

/// The legacy cursor comes off before anything else; then elements are looked at front to back, and the
/// whole frame is put to the test once all were.
pub proof fn frames_are_made_front_to_back(view: FrameView)
    ensures
        view.disable_pending <==> view.step() == FrameStep::DisableLegacyCursor,
        !view.disable_pending ==> (view.step() == FrameStep::TestFrame <==> view.index
            >= view.visible.len()),
        view.step() == FrameStep::KeepLegacyCursor || view.step() == FrameStep::TryLegacyCursor
            ==> view.legacy_index == Some(view.index) && !view.legacy_tried,
        view.step() == FrameStep::KeepLegacyCursor ==> view.legacy_cursor is Some,
        view.step() == FrameStep::TryLegacyCursor ==> view.legacy_cursor is None,
        !view.disable_pending && view.index < view.visible.len() && view.legacy_index != Some(
            view.index,
        ) ==> view.step() == FrameStep::AssignElement,
{
}

// ---------------------------------------------------------------------------------------------
// What became of elements
// ---------------------------------------------------------------------------------------------

/// An element that a plane shows counts as shown without rendering, with all its visible pixels; one
/// that is hidden counts as skipped, unless another part of it was seen; one that could not be shown
/// directly has the reason that was found first. Nothing changes for other elements.
pub proof fn states_tell_what_became_of_elements(
    states: Map<u64, RenderElementState>,
    id: u64,
    other: u64,
    area: usize,
    reason: RenderingReason,
)
    requires
        other != id,
    ensures
        with_zero_copy(states, id, area)[id].presentation_state
            == RenderElementPresentationState::ZeroCopy,
        !states.contains_key(id) ==> with_zero_copy(states, id, area)[id].visible_area == area,
        states.contains_key(id) && states[id].visible_area + area <= usize::MAX ==> with_zero_copy(
            states,
            id,
            area,
        )[id].visible_area == states[id].visible_area + area,
        with_hidden(states, id).contains_key(id),
        states.contains_key(id) ==> with_hidden(states, id) == states,
        !states.contains_key(id) ==> with_hidden(states, id)[id].presentation_state
            == RenderElementPresentationState::Skipped && with_hidden(states, id)[id].visible_area
            == 0,
        with_reason(states, id, None) == states,
        states.contains_key(id) ==> with_reason(states, id, Some(reason)) == states,
        !states.contains_key(id) ==> with_reason(states, id, Some(reason))[id].presentation_state == (
        RenderElementPresentationState::Rendering { reason: Some(reason) }),
        with_zero_copy(states, id, area).contains_key(other) == states.contains_key(other),
        states.contains_key(other) ==> with_zero_copy(states, id, area)[other] == states[other],
        with_hidden(states, id).contains_key(other) == states.contains_key(other),
        states.contains_key(other) ==> with_hidden(states, id)[other] == states[other],
{
}

/// What the renderer reports of an element is taken over if nothing else is known of it; otherwise
/// only its pixels are added, so that an element which a plane shows in part stays shown so, and a
/// reason is kept.
pub proof fn reports_add_to_what_is_known(
    states: Map<u64, RenderElementState>,
    id: u64,
    reported: RenderElementState,
)
    ensures
        with_rendered(states, id, reported).contains_key(id),
        !states.contains_key(id) ==> with_rendered(states, id, reported)[id] == reported,
        states.contains_key(id) && states[id].presentation_state
            == RenderElementPresentationState::Skipped ==> with_rendered(states, id, reported)[id]
            == reported,
        states.contains_key(id) && states[id].presentation_state
            != RenderElementPresentationState::Skipped ==> with_rendered(
            states,
            id,
            reported,
        )[id].presentation_state == states[id].presentation_state && (states[id].visible_area
            + reported.visible_area <= usize::MAX ==> with_rendered(
            states,
            id,
            reported,
        )[id].visible_area == states[id].visible_area + reported.visible_area),
{
}

/// Reports about stand-ins are no reports about elements.
pub proof fn stand_ins_are_not_reported(
    states: Map<u64, RenderElementState>,
    ids: Seq<(u32, u64, u64)>,
    reported: Seq<(u64, RenderElementState)>,
    id: u64,
)
    requires
        has_plane_id(ids, id),
    ensures
        merged_states(states, ids, reported).contains_key(id) == states.contains_key(id),
        states.contains_key(id) ==> merged_states(states, ids, reported)[id] == states[id],
    decreases reported.len(),
{
    if reported.len() > 0 {
        stand_ins_are_not_reported(states, ids, reported.drop_last(), id);
    }
}

/// Every other report is taken in.
pub proof fn reports_are_taken_in(
    states: Map<u64, RenderElementState>,
    ids: Seq<(u32, u64, u64)>,
    reported: Seq<(u64, RenderElementState)>,
    i: int,
)
    requires
        0 <= i < reported.len(),
        !has_plane_id(ids, reported[i].0),
    ensures
        merged_states(states, ids, reported).contains_key(reported[i].0),
    decreases reported.len(),
{
    if i < reported.len() - 1 {
        assert(reported.drop_last()[i] == reported[i]);
        reports_are_taken_in(states, ids, reported.drop_last(), i);
    }
}

// ---------------------------------------------------------------------------------------------
// Refused frames
// ---------------------------------------------------------------------------------------------

/// After a frame was refused, each plane that the device had accepted stays as it is, but for the
/// primary plane; and if anything is taken back the primary plane shows what is rendered.
pub proof fn accepted_planes_stay(view: FrameView, core: CoreView, i: int)
    requires
        0 <= i < view.frame.len(),
        view.frame[i].0 != core.primary.handle,
        !view.frame[i].1.needs_test,
        forall|j: int, k: int|
            0 <= j < k < view.frame.len() ==> (#[trigger] view.frame[j]).0 != (
            #[trigger] view.frame[k]).0,
    ensures
        fallen_back(view, core).frame.len() == view.frame.len(),
        fallen_back(view, core).frame[i] == view.frame[i],
{
    lemma_retreat(view, core, view.frame.len(), i);
    let r = retreated(view, core, view.frame.len());
    crate::frame_state::index_is_the_first_entry(r.view.frame, core.primary.handle);
}

proof fn lemma_retreat(view: FrameView, core: CoreView, upto: nat, i: int)
    requires
        upto <= view.frame.len(),
        0 <= i < view.frame.len(),
    ensures
        retreated(view, core, upto).view.frame.len() == view.frame.len(),
        retreated(view, core, upto).view.frame[i].0 == view.frame[i].0,
        !view.frame[i].1.needs_test || i >= upto ==> retreated(view, core, upto).view.frame[i]
            == view.frame[i],
    decreases upto,
{
    if upto > 0 {
        lemma_retreat(view, core, (upto - 1) as nat, i);
        lemma_retreat(view, core, (upto - 1) as nat, upto - 1);
    }
}

/// An element that the device had not accepted is taken off its plane, which then shows nothing, and
/// is rendered.
pub proof fn refused_overlays_are_rendered(view: FrameView, core: CoreView, i: int, element: usize)
    requires
        0 <= i < view.frame.len(),
        view.frame[i].1.needs_test,
        view.frame[i].0 != core.primary.handle,
        !in_list(core.planes.cursor@, view.frame[i].0),
        crate::overlay_map::value_of(
            retreated(view, core, i as nat).view.overlay_elements,
            view.frame[i].0,
        ) == Some(element),
    ensures
        ({
            let after = retreated(view, core, (i + 1) as nat);
            &&& after.view.frame[i].1.config is None
            &&& after.view.frame[i].1.element_state is None
            &&& !after.view.frame[i].1.skip
            &&& after.removed.len() > 0
            &&& after.removed.last().1 == element
        }),
{
    lemma_retreat(view, core, i as nat, i);
}

/// Elements that are taken back are rendered before those that were left to be rendered, sorted by
/// their place in the stack; the order of the latter stays.
pub proof fn refused_elements_are_rendered_in_order(view: FrameView, core: CoreView)
    ensures
        ({
            let removed = retreated(view, core, view.frame.len()).removed;
            let rendered = fallen_back(view, core).primary_plane_elements;
            &&& rendered.len() == removed.len() + view.primary_plane_elements.len()
            &&& rendered.skip(removed.len() as int) == view.primary_plane_elements
            &&& forall|i: int|
                0 <= i < removed.len() ==> exists|k: int|
                    0 <= k < removed.len() && (#[trigger] removed[k]).1 == #[trigger] rendered[i]
            &&& forall|i: int, j: int|
                0 <= i < j < removed.len() ==> exists|k: int, l: int|
                    0 <= k < removed.len() && 0 <= l < removed.len() && (#[trigger] removed[k]).1
                        == #[trigger] rendered[i] && (#[trigger] removed[l]).1
                        == #[trigger] rendered[j] && removed[k].0 <= removed[l].0
        }),
{
    let removed = retreated(view, core, view.frame.len()).removed;
    let sorted = by_depth(removed);
    let rendered = fallen_back(view, core).primary_plane_elements;
    by_depth_sorts(removed);
    assert(rendered.skip(removed.len() as int) =~= view.primary_plane_elements);
    removed.to_multiset_ensures();
    sorted.to_multiset_ensures();
    assert forall|i: int| 0 <= i < removed.len() implies removed.contains(
        #[trigger] sorted[i],
    ) && sorted[i].1 == rendered[i] by {
        assert(sorted.contains(sorted[i]));
        assert(sorted.to_multiset().contains(sorted[i]));
    }
    assert forall|i: int| 0 <= i < removed.len() implies exists|k: int|
        0 <= k < removed.len() && (#[trigger] removed[k]).1 == #[trigger] rendered[i] by {
        let k = choose|k: int| 0 <= k < removed.len() && removed[k] == sorted[i];
        assert(removed[k].1 == rendered[i]);
    }
    assert forall|i: int, j: int| 0 <= i < j < removed.len() implies exists|k: int, l: int|
        0 <= k < removed.len() && 0 <= l < removed.len() && (#[trigger] removed[k]).1
            == #[trigger] rendered[i] && (#[trigger] removed[l]).1 == #[trigger] rendered[j]
            && removed[k].0 <= removed[l].0 by {
        let k = choose|k: int| 0 <= k < removed.len() && removed[k] == sorted[i];
        let l = choose|l: int| 0 <= l < removed.len() && removed[l] == sorted[j];
        assert(removed[k].1 == rendered[i] && removed[l].1 == rendered[j]);
        assert(sorted[i].0 <= sorted[j].0);
    }
}

// ---------------------------------------------------------------------------------------------
// Rendering
// ---------------------------------------------------------------------------------------------

/// After an element was on the primary plane, or if nothing is known about it, the whole output counts
/// as damaged; otherwise what the renderer damaged.
pub proof fn rendering_damages_what_changed(
    previous: Seq<(u32, PlaneState)>,
    primary: u32,
    has_damage: bool,
)
    ensures
        ({
            let knew = state_of(previous, primary) matches Some(state) && state.element_state is None;
            &&& !knew ==> damage_report_spec(previous, primary, has_damage)
                == DamageReport::WholeOutput
            &&& knew && has_damage ==> damage_report_spec(previous, primary, has_damage)
                == DamageReport::Rendered
            &&& knew && !has_damage ==> damage_report_spec(previous, primary, has_damage)
                == DamageReport::Nothing
        }),
{
}

/// A plane that was rendered to waits for the renderer, and has the damage that was rendered; one that
/// was not damaged is left as it was, with the buffer it showed before.
pub proof fn rendered_planes_wait_for_the_renderer(
    state: PlaneState,
    previous: Seq<(u32, PlaneState)>,
    primary: u32,
    clips: Option<u64>,
    sync: SyncPoint,
)
    requires
        state.config is Some,
        !state.skip,
    ensures
        ({
            let rendered = rendered_state(
                state,
                previous,
                primary,
                DamageReport::Rendered,
                clips,
                sync,
            );
            let whole = rendered_state(
                state,
                previous,
                primary,
                DamageReport::WholeOutput,
                clips,
                sync,
            );
            let kept = rendered_state(state, previous, primary, DamageReport::Nothing, clips, sync);
            &&& !rendered.skip && !whole.skip && kept.skip
            &&& rendered.config matches Some(config) && config.damage_clips == clips && (
            config.sync matches Some(s) && s.point == sync && s.fence is None) && config.buffer
                == state.config->0.buffer && config.properties == state.config->0.properties
            &&& whole.config matches Some(config) && (config.sync matches Some(s) && s.point == sync
                && s.fence is None) && config.buffer == state.config->0.buffer && config.properties
                == state.config->0.properties
            &&& kept.config is Some
            &&& state_of(previous, primary) matches Some(before) ==> (before.config is Some
                ==> kept.config == before.config)
            &&& rendered.element_state == state.element_state && rendered.needs_test
                == state.needs_test
        }),
{
}

/// Each element on an overlay plane has its stand-in in what is rendered, which is a hole exactly if
/// its plane lies below the primary plane.
pub proof fn overlays_have_their_stand_in(
    view: FrameView,
    core: CoreView,
    ids: Seq<(u32, u64, u64)>,
    fresh: Seq<u64>,
    upto: nat,
    i: int,
)
    requires
        upto <= view.overlay_elements.len(),
        0 <= i < upto,
    ensures
        ({
            let stood = stand_ins(view, core, ids, fresh, upto).0;
            &&& stood.len() == upto
            &&& stood[i].element == view.overlay_elements[i].1
            &&& forall|k: int|
                0 <= k < core.planes.overlay@.len() && (#[trigger] core.planes.overlay@[k]).handle
                    == view.overlay_elements[i].0 && (forall|j: int|
                    0 <= j < k ==> (#[trigger] core.planes.overlay@[j]).handle
                        != view.overlay_elements[i].0) ==> stood[i].underlay == (
                core.planes.overlay@[k].z_spec() < core.primary.z_spec())
        }),
    decreases upto,
{
    lemma_stand_ins(view, core, ids, fresh, (upto - 1) as nat);
    if i < upto - 1 {
        overlays_have_their_stand_in(view, core, ids, fresh, (upto - 1) as nat, i);
    } else {
        assert forall|k: int|
            0 <= k < core.planes.overlay@.len() && (#[trigger] core.planes.overlay@[k]).handle
                == view.overlay_elements[i].0 && (forall|j: int|
                0 <= j < k ==> (#[trigger] core.planes.overlay@[j]).handle
                    != view.overlay_elements[i].0) implies z_of(
            core.planes.overlay@,
            view.overlay_elements[i].0,
        ) == core.planes.overlay@[k].z_spec() by {
            lemma_z_of(core.planes.overlay@, view.overlay_elements[i].0, k);
        }
    }
}

proof fn lemma_stand_ins(
    view: FrameView,
    core: CoreView,
    ids: Seq<(u32, u64, u64)>,
    fresh: Seq<u64>,
    upto: nat,
)
    ensures
        stand_ins(view, core, ids, fresh, upto).0.len() == upto,
    decreases upto,
{
    if upto > 0 {
        lemma_stand_ins(view, core, ids, fresh, (upto - 1) as nat);
    }
}

proof fn lemma_z_of(planes: Seq<PlaneInfo>, handle: u32, k: int)
    requires
        0 <= k < planes.len(),
        planes[k].handle == handle,
        forall|j: int| 0 <= j < k ==> (#[trigger] planes[j]).handle != handle,
    ensures
        z_of(planes, handle) == planes[k].z_spec(),
    decreases planes.len(),
{
    if k > 0 {
        let rest = planes.skip(1);
        assert(planes[0].handle != handle);
        assert forall|j: int| 0 <= j < k - 1 implies (#[trigger] rest[j]).handle != handle by {
            assert(rest[j] == planes[j + 1]);
        }
        lemma_z_of(rest, handle, k - 1);
    }
}

/// A plane that shows another element than before gets the new id, and one that is new too; the ids of
/// other planes stay.
pub proof fn other_elements_get_another_id(
    ids: Seq<(u32, u64, u64)>,
    plane: u32,
    element: u64,
    fresh: u64,
    next: u64,
    next_fresh: u64,
    other: u32,
    others_element: u64,
)
    requires
        next != element,
        other != plane,
    ensures
        id_for(ids_after(ids, plane, element, fresh), plane, next, next_fresh) == next_fresh,
        id_for(Seq::empty(), plane, element, fresh) == fresh,
        id_for(ids_after(ids, plane, element, fresh), other, others_element, next_fresh) == id_for(
            ids,
            other,
            others_element,
            next_fresh,
        ),
{
    let after = ids_after(ids, plane, element, fresh);
    lemma_position(ids, plane);
    lemma_position(after, plane);
    lemma_position(ids, other);
    lemma_position(after, other);
    let i = plane_index(ids, plane);
    let k = plane_index(after, plane);
    assert(after[i].0 == plane);
    if k < i {
        assert(ids[k].0 != plane);
    }
    let o = plane_index(ids, other);
    let q = plane_index(after, other);
    if o < ids.len() {
        assert(after[o].0 == other);
        if q < o {
            assert(ids[q].0 != other);
        }
    } else if q < after.len() {
        assert(q < ids.len() ==> ids[q].0 != other);
    }
}

proof fn lemma_position(ids: Seq<(u32, u64, u64)>, plane: u32)
    ensures
        0 <= plane_index(ids, plane) <= ids.len(),
        plane_index(ids, plane) < ids.len() ==> ids[plane_index(ids, plane)].0 == plane,
        forall|j: int| 0 <= j < plane_index(ids, plane) ==> (#[trigger] ids[j]).0 != plane,
    decreases ids.len(),
{
    if ids.len() > 0 && ids[0].0 != plane {
        let rest = ids.skip(1);
        lemma_position(rest, plane);
        assert forall|j: int| 0 <= j < plane_index(ids, plane) implies (#[trigger] ids[j]).0
            != plane by {
            if j > 0 {
                assert(ids[j] == rest[j - 1]);
            }
        }
    }
}

proof fn lemma_without_plane(ids: Seq<(u32, u64, u64)>, plane: u32, entry: (u32, u64, u64))
    ensures
        without_plane(ids, plane).contains(entry) <==> ids.contains(entry) && entry.0 != plane,
    decreases ids.len(),
{
    reveal(Seq::filter);
    let kept = without_plane(ids, plane);
    if ids.len() > 0 {
        let front = ids.drop_last();
        lemma_without_plane(front, plane, entry);
        let before = without_plane(front, plane);
        if before.contains(entry) {
            let k = choose|k: int| 0 <= k < before.len() && before[k] == entry;
            assert(kept[k] == entry);
        }
        if front.contains(entry) {
            let k = choose|k: int| 0 <= k < front.len() && front[k] == entry;
            assert(ids[k] == entry);
        }
        if ids.last() == entry {
            assert(ids[ids.len() - 1] == entry);
            if entry.0 != plane {
                assert(kept[kept.len() - 1] == entry);
            }
        }
        if ids.contains(entry) {
            let k = choose|k: int| 0 <= k < ids.len() && ids[k] == entry;
            if k < front.len() {
                assert(front[k] == entry);
            }
        }
        if kept.contains(entry) {
            let k = choose|k: int| 0 <= k < kept.len() && kept[k] == entry;
            if k < before.len() {
                assert(before[k] == entry);
            }
        }
    }
}

/// A plane loses its id exactly when it stops showing anything.
pub proof fn ids_last_while_planes_are_used(
    ids: Seq<(u32, u64, u64)>,
    previous: Seq<(u32, PlaneState)>,
    next: Seq<(u32, PlaneState)>,
    entry: (u32, u64, u64),
)
    ensures
        ids_cleaned(ids, previous, next).contains(entry) <==> ids.contains(entry) && !(exists|i: int|
            0 <= i < previous.len() && (#[trigger] previous[i]).0 == entry.0
                && previous[i].1.config is Some && !assigned(next, entry.0)),
    decreases previous.len(),
{
    if previous.len() > 0 {
        let front = previous.drop_last();
        ids_last_while_planes_are_used(ids, front, next, entry);
        let before = ids_cleaned(ids, front, next);
        let (handle, state) = previous.last();
        lemma_without_plane(before, handle, entry);
        let gone = |s: Seq<(u32, PlaneState)>|
            exists|i: int|
                0 <= i < s.len() && (#[trigger] s[i]).0 == entry.0 && s[i].1.config is Some
                    && !assigned(next, entry.0);
        if gone(front) {
            let i = choose|i: int|
                0 <= i < front.len() && (#[trigger] front[i]).0 == entry.0
                    && front[i].1.config is Some && !assigned(next, entry.0);
            assert(previous[i] == front[i]);
        }
        if handle == entry.0 && state.config is Some && !assigned(next, entry.0) {
            assert(previous[previous.len() - 1].0 == entry.0);
        }
        if gone(previous) {
            let i = choose|i: int|
                0 <= i < previous.len() && (#[trigger] previous[i]).0 == entry.0
                    && previous[i].1.config is Some && !assigned(next, entry.0);
            if i < front.len() {
                assert(front[i] == previous[i]);
            }
        }
    }
}

// ---------------------------------------------------------------------------------------------
// The result
// ---------------------------------------------------------------------------------------------

/// Nothing of a frame is left out unless that is asked for, in a partial update, and then nothing but
/// cursor planes is; what is on the planes stays in any case.
pub proof fn updates_are_left_out_only_on_demand(view: FrameView, core: CoreView, i: int)
    requires
        0 <= i < view.frame.len(),
    ensures
        view.flags.bits & 16 == 0 || !view.allow_partial_update ==> outgoing(view, core) == view.frame,
        outgoing(view, core).len() == view.frame.len(),
        outgoing(view, core)[i].0 == view.frame[i].0,
        outgoing(view, core)[i].1.config == view.frame[i].1.config,
        outgoing(view, core)[i].1.element_state == view.frame[i].1.element_state,
        outgoing(view, core)[i].1.skip && !view.frame[i].1.skip ==> in_list(
            core.planes.cursor@,
            view.frame[i].0,
        ),
        (exists|j: int|
            0 <= j < view.frame.len() && !(#[trigger] view.frame[j]).1.skip && !in_list(
                core.planes.cursor@,
                view.frame[j].0,
            )) ==> outgoing(view, core) == view.frame,
{
    let bits = view.flags.bits;
    assert((bits & 16 == 16) == (bits & 16 != 0)) by (bit_vector);
    lemma_skipped(view.frame, core.planes.cursor@, i);
}

proof fn lemma_skipped(frame: Seq<(u32, PlaneState)>, planes: Seq<PlaneInfo>, i: int)
    requires
        0 <= i < frame.len(),
    ensures
        planes_skipped(frame, planes).len() == frame.len(),
        planes_skipped(frame, planes)[i].0 == frame[i].0,
        planes_skipped(frame, planes)[i].1.config == frame[i].1.config,
        planes_skipped(frame, planes)[i].1.element_state == frame[i].1.element_state,
        planes_skipped(frame, planes)[i].1.skip && !frame[i].1.skip ==> in_list(planes, frame[i].0),
    decreases planes.len(),
{
    if planes.len() > 0 {
        let front = planes.drop_last();
        let before = planes_skipped(frame, front);
        lemma_skipped(frame, front, i);
        crate::frame_state::index_is_the_first_entry(before, planes.last().handle);
        if in_list(front, frame[i].0) {
            let k = choose|k: int|
                0 <= k < front.len() && (#[trigger] front[k]).handle == frame[i].0;
            assert(planes[k].handle == frame[i].0);
        }
        assert(planes[planes.len() - 1].handle == planes.last().handle);
    }
}

/// The result tells what is on the primary plane: the buffer that was rendered with its point to wait
/// for, or the element that is shown in its place.
pub proof fn results_tell_of_the_primary_plane(view: FrameView, core: CoreView)
    ensures
        state_of(view.frame, core.primary.handle) matches Some(state) ==> (
        state.config matches Some(config) ==> (primary_element_spec(
            view,
            core,
            true,
        ) matches PrimaryPlaneElement::Swapchain { slot, transform, sync } && slot == config.buffer
            && transform == view.output.transform && (config.sync matches Some(s) ==> sync == s.point)
            && (config.sync is None ==> sync == SyncPoint::Signaled))),
        view.primary_scanout matches Some(i) ==> primary_element_spec(view, core, false)
            == PrimaryPlaneElement::Element(i),
{
}

} // verus!
