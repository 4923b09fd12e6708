//! What becomes of the elements of a frame.

use vstd::prelude::*;
use crate::assignment::overlaps_underlay_spec;
use crate::attempt::{target_plane, ElementContext, Target};
use crate::attempt_laws::{
    allowed, allowed_assignment, cursor_allowed, shows_element, shows_on, shows_on_or_tested,
};
use crate::core_state::CoreView;
use crate::element::RenderingReason;
use crate::frame_build::{fresh_frame, is_first_with_id, is_only_cursor, FrameView};
use crate::frame_finish::{
    by_depth_sorts, fallen_back, given_up, in_list, is_rendered, retreat_step, retreated, Retreat,
};
use crate::frame_laws::{every_element_is_placed, falling_back_loses_no_element, on_overlay, placed};
use crate::frame_state::{
    adding_planes_keeps_the_frame, all_tested, assigned, entry_fenced, fenced,
    index_is_the_first_entry, index_of, knows, plane_overlaps, set_state_changes_one_plane, state_of,
    with_planes, with_state,
};
use crate::geometry::Rectangle;
use crate::overlay_map::{has_key, key_index, key_index_is_first};
use crate::plane::{listed_once, PlaneAssignment, PlaneInfo, PlaneState, PlaneType};
use crate::prepared::{
    outgoing, planes_skipped, primary_element_spec, PrimaryPlaneElement, RenderFrameResult,
};
use crate::visibility::VisibleElement;

verus! {

/// Whether no plane is in the frame twice.
pub open spec fn entries_once(frame: Seq<(u32, PlaneState)>) -> bool {
    forall|i: int, j: int|
        0 <= i < j < frame.len() ==> (#[trigger] frame[i]).0 != (#[trigger] frame[j]).0
}

/// Whether the frame shows the element with an id on a plane.
pub open spec fn shows(frame: Seq<(u32, PlaneState)>, handle: u32, id: u64) -> bool {
    state_of(frame, handle) matches Some(state) && state.config.is_some() && (
    state.element_state matches Some(element) && element.id == id)
}

/// Whether a plane still is to be tested.
pub open spec fn untested(frame: Seq<(u32, PlaneState)>, handle: u32) -> bool {
    state_of(frame, handle) matches Some(state) && state.needs_test
}

/// Whether the frame shows the element on one of the planes.
pub open spec fn shown_among(frame: Seq<(u32, PlaneState)>, planes: Seq<PlaneInfo>, id: u64) -> bool {
    exists|i: int| 0 <= i < planes.len() && shows(frame, (#[trigger] planes[i]).handle, id)
}

/// Whether two frames show the same elements, and wait for the same tests.
pub open spec fn alike(a: Seq<(u32, PlaneState)>, b: Seq<(u32, PlaneState)>) -> bool {
    &&& a.len() == b.len()
    &&& forall|i: int|
        0 <= i < a.len() ==> entry_alike(#[trigger] a[i], b[i])
}

pub open spec fn entry_alike(a: (u32, PlaneState), b: (u32, PlaneState)) -> bool {
    &&& a.0 == b.0
    &&& a.1.config.is_some() == b.1.config.is_some()
    &&& a.1.element_state == b.1.element_state
    &&& a.1.needs_test == b.1.needs_test
    &&& a.1.buffer_spec() == b.1.buffer_spec()
    &&& a.1.config matches Some(config) ==> config.properties == b.1.config->0.properties
}

/// Whether an element is on a plane, is rendered, or has its place taken by the legacy cursor.
pub open spec fn accounted(view: FrameView, element: usize) -> bool {
    placed(view, element) || (view.legacy_cursor.is_some() && view.legacy_index == Some(element))
}

/// Whether the legacy cursor stands for an element: the only cursor element, or the first one with
/// the id that it shows.
pub open spec fn stood_for(view: FrameView, element: int) -> bool {
    is_only_cursor(view.visible, element) || (view.legacy_cursor matches Some(presentation)
        && is_first_with_id(view.visible, presentation.element_id, element))
}

/// Whether the overlay elements are noted once each, and shown by planes of the list.
pub open spec fn overlays_tidy(view: FrameView, core: CoreView) -> bool {
    let entries = view.overlay_elements;
    &&& forall|j: int, k: int|
        0 <= j < k < entries.len() ==> (#[trigger] entries[j]).0 != (#[trigger] entries[k]).0
    &&& forall|k: int|
        0 <= k < entries.len() ==> in_list(core.planes.overlay@, (#[trigger] entries[k]).0) && shows(
            view.frame,
            entries[k].0,
            view.visible[entries[k].1 as int].info.id,
        )
}

/// Whether the cursor element is shown by a cursor plane, and none but one cursor plane is in use.
pub open spec fn cursor_tidy(view: FrameView, core: CoreView) -> bool {
    let planes = core.planes.cursor@;
    &&& view.cursor_element matches Some(c) ==> shown_among(
        view.frame,
        planes,
        view.visible[c as int].info.id,
    )
    &&& forall|i: int, j: int|
        0 <= i < planes.len() && 0 <= j < planes.len() && assigned(
            view.frame,
            (#[trigger] planes[i]).handle,
        ) && assigned(view.frame, (#[trigger] planes[j]).handle) ==> i == j
    &&& forall|i: int|
        0 <= i < planes.len() && untested(view.frame, (#[trigger] planes[i]).handle) ==> assigned(
            view.frame,
            planes[i].handle,
        )
}

/// Whether the element on the primary plane is shown there, and leaves nothing to be rendered. It
/// covers nothing on an underlay.
pub open spec fn primary_tidy(view: FrameView, core: CoreView) -> bool {
    view.primary_scanout matches Some(p) ==> {
        &&& view.index == view.visible.len()
        &&& view.primary_plane_elements.len() == 0
        &&& shows(view.frame, core.primary.handle, view.visible[p as int].info.id)
        &&& !is_rendered(view.frame, core.primary.handle)
        &&& !overlaps_underlay_spec(
            view.frame,
            core.primary,
            core.planes.overlay@,
            view.visible[p as int].info.geometry,
        )
    }
}

/// Whether the frame has all planes that elements may be put on.
pub open spec fn covers(frame: Seq<(u32, PlaneState)>, core: CoreView) -> bool {
    &&& frame.len() > 0
    &&& frame[0].0 == core.primary.handle
    &&& forall|i: int|
        0 <= i < core.planes.overlay@.len() ==> knows(
            frame,
            (#[trigger] core.planes.overlay@[i]).handle,
        )
    &&& !core.policy.reserves_spec() ==> forall|i: int|
        0 <= i < core.planes.cursor@.len() ==> knows(
            frame,
            (#[trigger] core.planes.cursor@[i]).handle,
        )
}

/// What holds of a frame in the making: what is noted about its elements is what it shows, and no
/// element that was looked at is lost.
#[verifier::opaque]
pub open spec fn tidy(view: FrameView, core: CoreView) -> bool {
    &&& entries_once(view.frame)
    &&& covers(view.frame, core)
    &&& overlays_tidy(view, core)
    &&& cursor_tidy(view, core)
    &&& primary_tidy(view, core)
    &&& view.primary_scanout.is_some() ==> untested(view.frame, core.primary.handle) || forall|
        i: int,
    |
        0 <= i < view.frame.len() ==> !(#[trigger] view.frame[i]).1.needs_test
    &&& view.disable_pending ==> view.index == 0
    &&& forall|i: usize| i < view.index ==> #[trigger] accounted(view, i)
    &&& view.legacy_index matches Some(i) ==> stood_for(view, i as int)
}

/// What holds of a frame once the device had its say.
#[verifier::opaque]
pub open spec fn settled(view: FrameView, core: CoreView) -> bool {
    &&& overlays_tidy(view, core)
    &&& view.cursor_element matches Some(c) ==> shown_among(
        view.frame,
        core.planes.cursor@,
        view.visible[c as int].info.id,
    )
    &&& primary_tidy(view, core)
    &&& forall|i: usize| i < view.visible.len() ==> #[trigger] accounted(view, i)
    &&& view.legacy_index matches Some(i) ==> stood_for(view, i as int)
}

// ---------------------------------------------------------------------------------------------
// Frames
// ---------------------------------------------------------------------------------------------

proof fn lemma_position(frame: Seq<(u32, PlaneState)>, i: int)
    requires
        entries_once(frame),
        0 <= i < frame.len(),
    ensures
        index_of(frame, frame[i].0) == i,
        state_of(frame, frame[i].0) == Some(frame[i].1),
{
    index_is_the_first_entry(frame, frame[i].0);
    let at = index_of(frame, frame[i].0);
    if at < i {
        assert(frame[at].0 != frame[i].0);
    }
}

proof fn lemma_known(frame: Seq<(u32, PlaneState)>, i: int)
    requires
        0 <= i < frame.len(),
    ensures
        knows(frame, frame[i].0),
{
    index_is_the_first_entry(frame, frame[i].0);
}

proof fn lemma_alike(a: Seq<(u32, PlaneState)>, b: Seq<(u32, PlaneState)>)
    requires
        alike(a, b),
    ensures
        entries_once(a) ==> entries_once(b),
        forall|h: u32| #[trigger] knows(b, h) == knows(a, h),
        forall|h: u32| #[trigger] assigned(b, h) == assigned(a, h),
        forall|h: u32| #[trigger] untested(b, h) == untested(a, h),
        forall|h: u32, id: u64| #[trigger] shows(b, h, id) == shows(a, h, id),
        forall|h: u32| #[trigger] is_rendered(b, h) == is_rendered(a, h),
        forall|h: u32, geometry: Rectangle| #[trigger]
            plane_overlaps(b, h, geometry) == plane_overlaps(a, h, geometry),
{
    assert forall|h: u32| #[trigger] index_of(b, h) == index_of(a, h) by {
        index_is_the_first_entry(a, h);
        index_is_the_first_entry(b, h);
        let i = index_of(a, h);
        let j = index_of(b, h);
        if i < j {
            assert(entry_alike(a[i], b[i]));
        }
        if j < i {
            assert(entry_alike(a[j], b[j]));
        }
    }
    assert forall|h: u32| #[trigger] knows(b, h) implies entry_alike(
        a[index_of(a, h)],
        b[index_of(b, h)],
    ) by {
        index_is_the_first_entry(b, h);
        assert(index_of(b, h) == index_of(a, h));
    }
    assert forall|h: u32| #[trigger] knows(b, h) == knows(a, h) by {
        assert(index_of(b, h) == index_of(a, h));
    }
    if entries_once(a) {
        assert forall|i: int, j: int| 0 <= i < j < b.len() implies (#[trigger] b[i]).0 != (
        #[trigger] b[j]).0 by {
            assert(entry_alike(a[i], b[i]));
            assert(entry_alike(a[j], b[j]));
        }
    }
}

/// Storing fences keeps a frame alike.
proof fn lemma_fenced_alike(a: Seq<(u32, PlaneState)>, b: Seq<(u32, PlaneState)>)
    requires
        fenced(a, b),
    ensures
        alike(a, b),
{
    assert forall|i: int| 0 <= i < a.len() implies entry_alike(#[trigger] a[i], b[i]) by {
        assert(entry_fenced(a[i], b[i]));
    }
}

/// A frame that is like a tidy one is tidy.
pub proof fn alike_frames_are_tidy(view: FrameView, frame: Seq<(u32, PlaneState)>, core: CoreView)
    requires
        tidy(view, core),
        alike(view.frame, frame),
    ensures
        tidy(FrameView { frame, ..view }, core),
{
    reveal(tidy);
    lemma_alike(view.frame, frame);
    let after = FrameView { frame, ..view };
    assert(entry_alike(view.frame[0], frame[0]));
    if view.cursor_element.is_some() {
        lemma_shown_alike(view.frame, frame, core.planes.cursor@);
    }
    if view.primary_scanout.is_some() && !untested(frame, core.primary.handle) {
        assert forall|i: int| 0 <= i < frame.len() implies !(#[trigger] frame[i]).1.needs_test by {
            assert(entry_alike(view.frame[i], frame[i]));
        }
    }
    assert forall|i: usize| i < after.index implies #[trigger] accounted(after, i) by {
        assert(accounted(view, i));
    }
}

proof fn lemma_shown_alike(
    a: Seq<(u32, PlaneState)>,
    b: Seq<(u32, PlaneState)>,
    planes: Seq<PlaneInfo>,
)
    requires
        alike(a, b),
    ensures
        forall|id: u64| #[trigger] shown_among(a, planes, id) ==> shown_among(b, planes, id),
{
    lemma_alike(a, b);
    assert forall|id: u64| #[trigger] shown_among(a, planes, id) implies shown_among(
        b,
        planes,
        id,
    ) by {
        let i = choose|i: int|
            0 <= i < planes.len() && shows(a, (#[trigger] planes[i]).handle, id);
        assert(shows(b, planes[i].handle, id));
    }
}

/// Making fences keeps a frame tidy.
pub proof fn fenced_frames_are_tidy(view: FrameView, frame: Seq<(u32, PlaneState)>, core: CoreView)
    requires
        tidy(view, core),
        fenced(view.frame, frame),
    ensures
        tidy(FrameView { frame, ..view }, core),
{
    lemma_fenced_alike(view.frame, frame);
    alike_frames_are_tidy(view, frame, core);
}

/// Whether a frame is tidy does not depend on what is known about elements.
pub proof fn tidiness_is_about_planes(view: FrameView, a: CoreView, b: CoreView)
    requires
        tidy(view, a),
        b.planes == a.planes,
        b.primary == a.primary,
        b.policy == a.policy,
    ensures
        tidy(view, b),
{
    reveal(tidy);
}

// ---------------------------------------------------------------------------------------------
// Beginning
// ---------------------------------------------------------------------------------------------

proof fn lemma_fresh(core: CoreView, previous: Seq<(u32, PlaneState)>)
    requires
        core.wf(),
    ensures
        entries_once(fresh_frame(core, previous)),
        covers(fresh_frame(core, previous), core),
        forall|i: int|
            0 <= i < fresh_frame(core, previous).len() ==> (#[trigger] fresh_frame(
                core,
                previous,
            )[i]).1.config is None && !fresh_frame(core, previous)[i].1.needs_test,
{
    reveal(listed_once);
    let fresh = fresh_frame(core, previous);
    let cursor = core.planes.cursor@;
    let overlay = core.planes.overlay@;
    let n: int = if core.policy.reserves_spec() {
        0
    } else {
        cursor.len() as int
    };
    assert(fresh.len() == 1 + n + overlay.len());
    assert(fresh[0].0 == core.primary.handle);
    assert forall|i: int| 1 <= i < 1 + n implies (#[trigger] fresh[i]).0 == cursor[i - 1].handle by {}
    assert forall|i: int| 1 + n <= i < fresh.len() implies (#[trigger] fresh[i]).0 == overlay[i - 1
        - n].handle by {}
    assert forall|i: int, j: int| 0 <= i < j < fresh.len() implies (#[trigger] fresh[i]).0 != (
    #[trigger] fresh[j]).0 by {
        if j < 1 + n {
            assert(fresh[j].0 == cursor[j - 1].handle);
            if i > 0 {
                assert(fresh[i].0 == cursor[i - 1].handle);
            }
        } else {
            assert(fresh[j].0 == overlay[j - 1 - n].handle);
            if i >= 1 + n {
                assert(fresh[i].0 == overlay[i - 1 - n].handle);
            } else if i > 0 {
                assert(fresh[i].0 == cursor[i - 1].handle);
            }
        }
    }
    assert forall|i: int| 0 <= i < overlay.len() implies knows(
        fresh,
        (#[trigger] overlay[i]).handle,
    ) by {
        assert(fresh[1 + n + i].0 == overlay[i].handle);
        lemma_known(fresh, 1 + n + i);
    }
    if !core.policy.reserves_spec() {
        assert forall|i: int| 0 <= i < cursor.len() implies knows(
            fresh,
            (#[trigger] cursor[i]).handle,
        ) by {
            assert(fresh[1 + i].0 == cursor[i].handle);
            lemma_known(fresh, 1 + i);
        }
    }
}

proof fn lemma_same_planes_known(
    frame: Seq<(u32, PlaneState)>,
    handle: u32,
    state: PlaneState,
    core: CoreView,
)
    requires
        entries_once(frame),
        covers(frame, core),
    ensures
        entries_once(with_state(frame, handle, state)),
        covers(with_state(frame, handle, state), core),
{
    let after = with_state(frame, handle, state);
    index_is_the_first_entry(frame, handle);
    assert forall|i: int| 0 <= i < frame.len() implies (#[trigger] after[i]).0 == frame[i].0 by {}
    assert forall|h: u32| knows(frame, h) implies #[trigger] knows(after, h) by {
        set_state_changes_one_plane(frame, handle, state, h);
    }
}

/// A frame starts tidy.
pub proof fn new_frames_are_tidy(view: FrameView, core: CoreView, previous: Seq<(u32, PlaneState)>)
    requires
        core.wf(),
        view.frame == with_state(
            fresh_frame(core, previous),
            core.primary.handle,
            view.primary_state,
        ),
        view.index == 0,
        view.overlay_elements.len() == 0,
        view.cursor_element is None,
        view.primary_scanout is None,
        view.legacy_index matches Some(i) ==> is_only_cursor(view.visible, i as int),
    ensures
        tidy(view, core),
{
    reveal(listed_once);
    reveal(tidy);
    let fresh = fresh_frame(core, previous);
    let planes = core.planes.cursor@;
    lemma_fresh(core, previous);
    lemma_same_planes_known(fresh, core.primary.handle, view.primary_state, core);
    assert forall|i: int| 0 <= i < planes.len() implies !assigned(
        view.frame,
        (#[trigger] planes[i]).handle,
    ) && !untested(view.frame, planes[i].handle) by {
        let h = planes[i].handle;
        set_state_changes_one_plane(fresh, core.primary.handle, view.primary_state, h);
        index_is_the_first_entry(fresh, h);
    }
}

// ---------------------------------------------------------------------------------------------
// One element after the other
// ---------------------------------------------------------------------------------------------

/// Whether the plane of an assignment was free for the element.
proof fn lemma_was_free(
    core: CoreView,
    base: Seq<(u32, PlaneState)>,
    ctx: ElementContext,
    assignment: PlaneAssignment,
)
    requires
        core.wf(),
        allowed_assignment(core, base, ctx, assignment),
    ensures
        match assignment.type_ {
            PlaneType::Primary => assignment.handle == core.primary.handle && ctx.try_primary,
            PlaneType::Overlay => in_list(core.planes.overlay@, assignment.handle) && !assigned(
                base,
                assignment.handle,
            ),
            PlaneType::Cursor => in_list(core.planes.cursor@, assignment.handle)
                && !core.policy.reserves_spec() && forall|i: int|
                0 <= i < core.planes.cursor@.len() ==> !assigned(
                    base,
                    (#[trigger] core.planes.cursor@[i]).handle,
                ),
        },
{
    if exists|target: Target|
        #![trigger allowed(core, base, ctx, target)]
        allowed(core, base, ctx, target) && target_plane(core, target).assignment_spec()
            == assignment {
        let target = choose|target: Target|
            #![trigger allowed(core, base, ctx, target)]
            allowed(core, base, ctx, target) && target_plane(core, target).assignment_spec()
                == assignment;
        match target {
            Target::Primary => {},
            Target::Matching(i) => {
                assert(core.planes.overlay@[i as int].type_ == PlaneType::Overlay);
            },
            Target::Any(i) => {
                assert(core.planes.overlay@[i as int].type_ == PlaneType::Overlay);
            },
        }
    } else {
        let index = choose|index: int|
            #![trigger cursor_allowed(core, base, ctx, index)]
            0 <= index && cursor_allowed(core, base, ctx, index)
                && core.planes.cursor@[index].assignment_spec() == assignment;
        assert(core.planes.cursor@[index].type_ == PlaneType::Cursor);
    }
}

/// What a frame shows once one more element is on a plane.
proof fn lemma_one_more(
    frame: Seq<(u32, PlaneState)>,
    base: Seq<(u32, PlaneState)>,
    ctx: ElementContext,
    handle: u32,
    drawn: bool,
    core: CoreView,
)
    requires
        shows_on_or_tested(frame, base, ctx, handle, drawn),
        entries_once(base),
        covers(base, core),
        knows(base, handle),
    ensures
        forall|h: u32, geometry: Rectangle|
            h != handle ==> #[trigger] plane_overlaps(frame, h, geometry) == plane_overlaps(
                base,
                h,
                geometry,
            ),
        entries_once(frame),
        covers(frame, core),
        shows(frame, handle, ctx.info.id),
        forall|h: u32| h != handle ==> #[trigger] assigned(frame, h) == assigned(base, h),
        forall|h: u32, id: u64|
            h != handle ==> #[trigger] shows(frame, h, id) == shows(base, h, id),
        forall|h: u32| h != handle && #[trigger] untested(frame, h) ==> untested(base, h),
        !drawn ==> !is_rendered(frame, handle) && (untested(frame, handle) || forall|i: int|
            0 <= i < frame.len() ==> !(#[trigger] frame[i]).1.needs_test),
{
    if shows_on(frame, base, ctx, handle, drawn) {
        lemma_one_shown(frame, base, ctx, handle, drawn, core);
    } else {
        let before = choose|before: Seq<(u32, PlaneState)>|
            #![trigger all_tested(before)]
            frame == all_tested(before) && shows_on(before, base, ctx, handle, drawn);
        lemma_one_shown(before, base, ctx, handle, drawn, core);
        lemma_all_tested(before, core);
    }
}

proof fn lemma_all_tested(before: Seq<(u32, PlaneState)>, core: CoreView)
    ensures
        entries_once(before) ==> entries_once(all_tested(before)),
        covers(before, core) ==> covers(all_tested(before), core),
        forall|h: u32| #[trigger] assigned(all_tested(before), h) == assigned(before, h),
        forall|h: u32, id: u64| #[trigger]
            shows(all_tested(before), h, id) == shows(before, h, id),
        forall|h: u32| !#[trigger] untested(all_tested(before), h),
        forall|h: u32| #[trigger] is_rendered(all_tested(before), h) == is_rendered(before, h),
        forall|h: u32, geometry: Rectangle| #[trigger]
            plane_overlaps(all_tested(before), h, geometry) == plane_overlaps(before, h, geometry),
        forall|i: int|
            0 <= i < all_tested(before).len() ==> !(#[trigger] all_tested(before)[i]).1.needs_test,
{
    let after = all_tested(before);
    assert forall|i: int| 0 <= i < before.len() implies (#[trigger] after[i]).0 == before[i].0 by {}
    assert forall|h: u32| #[trigger] index_of(after, h) == index_of(before, h) by {
        index_is_the_first_entry(before, h);
        index_is_the_first_entry(after, h);
        let i = index_of(before, h);
        let j = index_of(after, h);
        if i < j {
            assert(after[i].0 == before[i].0);
        }
        if j < i {
            assert(after[j].0 == before[j].0);
        }
    }
    assert forall|h: u32| #[trigger] state_of(after, h) == (match state_of(before, h) {
        Some(state) => Some(PlaneState { needs_test: false, ..state }),
        None => None,
    }) by {
        index_is_the_first_entry(before, h);
        assert(index_of(after, h) == index_of(before, h));
    }
    assert forall|h: u32| #[trigger] knows(after, h) == knows(before, h) by {
        assert(index_of(after, h) == index_of(before, h));
    }
    assert forall|h: u32| #[trigger] assigned(after, h) == assigned(before, h) by {
        assert(state_of(after, h) == state_of(after, h));
    }
    assert forall|h: u32, id: u64| #[trigger] shows(after, h, id) == shows(before, h, id) by {
        assert(state_of(after, h) == state_of(after, h));
    }
    assert forall|h: u32| !#[trigger] untested(after, h) by {
        assert(state_of(after, h) == state_of(after, h));
    }
    assert forall|h: u32| #[trigger] is_rendered(after, h) == is_rendered(before, h) by {
        assert(state_of(after, h) == state_of(after, h));
    }
    assert forall|h: u32, geometry: Rectangle| #[trigger]
        plane_overlaps(after, h, geometry) == plane_overlaps(before, h, geometry) by {
        assert(state_of(after, h) == state_of(after, h));
    }
}

proof fn lemma_one_shown(
    frame: Seq<(u32, PlaneState)>,
    base: Seq<(u32, PlaneState)>,
    ctx: ElementContext,
    handle: u32,
    drawn: bool,
    core: CoreView,
)
    requires
        shows_on(frame, base, ctx, handle, drawn),
        entries_once(base),
        covers(base, core),
        knows(base, handle),
    ensures
        forall|h: u32, geometry: Rectangle|
            h != handle ==> #[trigger] plane_overlaps(frame, h, geometry) == plane_overlaps(
                base,
                h,
                geometry,
            ),
        entries_once(frame),
        covers(frame, core),
        shows(frame, handle, ctx.info.id),
        forall|h: u32| h != handle ==> #[trigger] assigned(frame, h) == assigned(base, h),
        forall|h: u32, id: u64|
            h != handle ==> #[trigger] shows(frame, h, id) == shows(base, h, id),
        forall|h: u32| h != handle && #[trigger] untested(frame, h) ==> untested(base, h),
        !drawn ==> !is_rendered(frame, handle) && untested(frame, handle),
{
    let state = choose|state: PlaneState|
        #![trigger with_state(base, handle, state)]
        frame == with_state(base, handle, state) && shows_element(state, ctx, drawn);
    lemma_same_planes_known(base, handle, state, core);
    assert forall|h: u32| #[trigger] state_of(frame, h) == (if h == handle {
        Some(state)
    } else {
        state_of(base, h)
    }) by {
        set_state_changes_one_plane(base, handle, state, h);
    }
    assert(state_of(frame, handle) == Some(state));
    assert forall|h: u32| h != handle implies #[trigger] assigned(frame, h) == assigned(
        base,
        h,
    ) by {
        assert(state_of(frame, h) == state_of(base, h));
    }
    assert forall|h: u32, id: u64| h != handle implies #[trigger] shows(frame, h, id) == shows(
        base,
        h,
        id,
    ) by {
        assert(state_of(frame, h) == state_of(base, h));
    }
    assert forall|h: u32| h != handle && #[trigger] untested(frame, h) implies untested(
        base,
        h,
    ) by {
        assert(state_of(frame, h) == state_of(base, h));
    }
    assert forall|h: u32, geometry: Rectangle| h != handle implies #[trigger] plane_overlaps(
        frame,
        h,
        geometry,
    ) == plane_overlaps(base, h, geometry) by {
        assert(state_of(frame, h) == state_of(base, h));
    }
}

proof fn lemma_everything_accounted(
    view: FrameView,
    result: Result<PlaneAssignment, Option<RenderingReason>>,
)
    requires
        result matches Ok(plane) ==> match plane.type_ {
            PlaneType::Overlay => !has_key(view.overlay_elements, plane.handle),
            PlaneType::Primary => view.primary_scanout is None,
            PlaneType::Cursor => view.cursor_element is None,
        },
        view.index < view.visible.len(),
        view.visible.len() <= usize::MAX,
        forall|i: usize| i < view.index ==> #[trigger] accounted(view, i),
    ensures
        forall|i: usize|
            i < view.after_element(result).index ==> #[trigger] accounted(
                view.after_element(result),
                i,
            ),
{
    let after = view.after_element(result);
    assert forall|i: usize| i < after.index implies #[trigger] accounted(after, i) by {
        every_element_is_placed(view, result, i);
        if i < view.index {
            assert(accounted(view, i));
        }
    }
}

proof fn lemma_overlay_taken(
    before: FrameView,
    after: FrameView,
    core: CoreView,
    assignment: PlaneAssignment,
)
    requires
        core.wf(),
        tidy(before, core),
        before.index < before.visible.len(),
        before.visible.len() <= usize::MAX,
        !before.disable_pending,
        assignment.type_ == PlaneType::Overlay,
        in_list(core.planes.overlay@, assignment.handle),
        !assigned(before.frame, assignment.handle),
        after == (FrameView { frame: after.frame, ..before }),
        entries_once(after.frame),
        covers(after.frame, core),
        shows(after.frame, assignment.handle, before.current().info.id),
        forall|h: u32|
            h != assignment.handle ==> #[trigger] assigned(after.frame, h) == assigned(
                before.frame,
                h,
            ),
        forall|h: u32, id: u64|
            h != assignment.handle ==> #[trigger] shows(after.frame, h, id) == shows(
                before.frame,
                h,
                id,
            ),
        forall|h: u32|
            h != assignment.handle && #[trigger] untested(after.frame, h) ==> untested(
                before.frame,
                h,
            ),
    ensures
        tidy(after.after_element(Ok(assignment)), core),
{
    reveal(listed_once);
    reveal(tidy);
    let handle = assignment.handle;
    let entries = before.overlay_elements;
    let result: Result<PlaneAssignment, Option<RenderingReason>> = Ok(assignment);
    key_index_is_first(entries, handle);
    if has_key(entries, handle) {
        let k = key_index(entries, handle);
        assert(shows(before.frame, entries[k].0, before.visible[entries[k].1 as int].info.id));
    }
    assert forall|i: usize| i < after.index implies #[trigger] accounted(after, i) by {
        assert(accounted(before, i));
    }
    lemma_everything_accounted(after, result);
    let done = after.after_element(result);
    assert(done.overlay_elements == entries.push((handle, before.index)));
    assert forall|k: int| 0 <= k < done.overlay_elements.len() implies in_list(
        core.planes.overlay@,
        (#[trigger] done.overlay_elements[k]).0,
    ) && shows(
        done.frame,
        done.overlay_elements[k].0,
        done.visible[done.overlay_elements[k].1 as int].info.id,
    ) by {
        if k < entries.len() {
            assert(entries[k].0 != handle);
            assert(shows(before.frame, entries[k].0, before.visible[entries[k].1 as int].info.id));
        }
    }
    assert forall|j: int, k: int| 0 <= j < k < done.overlay_elements.len() implies (
    #[trigger] done.overlay_elements[j]).0 != (#[trigger] done.overlay_elements[k]).0 by {
        assert(done.overlay_elements[j] == entries[j]);
        if k < entries.len() {
            assert(done.overlay_elements[k] == entries[k]);
        }
    }
    let planes = core.planes.cursor@;
    let at = choose|at: int|
        0 <= at < core.planes.overlay@.len() && (#[trigger] core.planes.overlay@[at]).handle
            == handle;
    assert forall|i: int| 0 <= i < planes.len() implies (#[trigger] planes[i]).handle != handle by {
        assert(core.planes.overlay@[at].handle == handle);
    }
    if let Some(c) = before.cursor_element {
        let id = before.visible[c as int].info.id;
        let i = choose|i: int|
            0 <= i < planes.len() && shows(before.frame, (#[trigger] planes[i]).handle, id);
        assert(shows(done.frame, planes[i].handle, id));
    }
    assert(cursor_tidy(done, core));
    assert(done.primary_scanout is None);
    if let Some(i) = done.legacy_index {
        assert(stood_for(before, i as int));
    }
}

proof fn lemma_primary_taken(
    before: FrameView,
    after: FrameView,
    core: CoreView,
    assignment: PlaneAssignment,
)
    requires
        core.wf(),
        tidy(before, core),
        before.index + 1 == before.visible.len(),
        before.visible.len() <= usize::MAX,
        before.primary_plane_elements.len() == 0,
        !before.disable_pending,
        assignment.type_ == PlaneType::Primary,
        assignment.handle == core.primary.handle,
        after == (FrameView { frame: after.frame, ..before }),
        entries_once(after.frame),
        covers(after.frame, core),
        shows(after.frame, assignment.handle, before.current().info.id),
        forall|h: u32|
            h != assignment.handle ==> #[trigger] assigned(after.frame, h) == assigned(
                before.frame,
                h,
            ),
        forall|h: u32, id: u64|
            h != assignment.handle ==> #[trigger] shows(after.frame, h, id) == shows(
                before.frame,
                h,
                id,
            ),
        forall|h: u32|
            h != assignment.handle && #[trigger] untested(after.frame, h) ==> untested(
                before.frame,
                h,
            ),
        forall|h: u32, geometry: Rectangle|
            h != assignment.handle ==> #[trigger] plane_overlaps(after.frame, h, geometry)
                == plane_overlaps(before.frame, h, geometry),
        !overlaps_underlay_spec(
            before.frame,
            core.primary,
            core.planes.overlay@,
            before.current().info.geometry,
        ),
        !is_rendered(after.frame, assignment.handle),
        untested(after.frame, assignment.handle) || forall|i: int|
            0 <= i < after.frame.len() ==> !(#[trigger] after.frame[i]).1.needs_test,
    ensures
        tidy(after.after_element(Ok(assignment)), core),
{
    reveal(tidy);
    let handle = assignment.handle;
    let result: Result<PlaneAssignment, Option<RenderingReason>> = Ok(assignment);
    assert forall|i: usize| i < after.index implies #[trigger] accounted(after, i) by {
        assert(accounted(before, i));
    }
    lemma_everything_accounted(after, result);
    let done = after.after_element(result);
    let entries = done.overlay_elements;
    assert forall|k: int| 0 <= k < entries.len() implies in_list(
        core.planes.overlay@,
        (#[trigger] entries[k]).0,
    ) && shows(done.frame, entries[k].0, done.visible[entries[k].1 as int].info.id) by {
        assert(shows(before.frame, entries[k].0, before.visible[entries[k].1 as int].info.id));
    }
    let planes = core.planes.cursor@;
    assert forall|i: int| 0 <= i < planes.len() implies (#[trigger] planes[i]).handle != handle by {}
    if let Some(c) = before.cursor_element {
        let id = before.visible[c as int].info.id;
        let i = choose|i: int|
            0 <= i < planes.len() && shows(before.frame, (#[trigger] planes[i]).handle, id);
        assert(shows(done.frame, planes[i].handle, id));
    }
    let overlay = core.planes.overlay@;
    assert forall|i: int| 0 <= i < overlay.len() implies (#[trigger] overlay[i]).handle != handle by {}
    assert(cursor_tidy(done, core));
    if let Some(i) = done.legacy_index {
        assert(stood_for(before, i as int));
    }
}

proof fn lemma_cursor_taken(
    before: FrameView,
    after: FrameView,
    core: CoreView,
    assignment: PlaneAssignment,
)
    requires
        core.wf(),
        tidy(before, core),
        before.index < before.visible.len(),
        before.visible.len() <= usize::MAX,
        !before.disable_pending,
        assignment.type_ == PlaneType::Cursor,
        in_list(core.planes.cursor@, assignment.handle),
        forall|i: int|
            0 <= i < core.planes.cursor@.len() ==> !assigned(
                before.frame,
                (#[trigger] core.planes.cursor@[i]).handle,
            ),
        after == (FrameView { frame: after.frame, ..before }),
        entries_once(after.frame),
        covers(after.frame, core),
        shows(after.frame, assignment.handle, before.current().info.id),
        forall|h: u32|
            h != assignment.handle ==> #[trigger] assigned(after.frame, h) == assigned(
                before.frame,
                h,
            ),
        forall|h: u32, id: u64|
            h != assignment.handle ==> #[trigger] shows(after.frame, h, id) == shows(
                before.frame,
                h,
                id,
            ),
        forall|h: u32|
            h != assignment.handle && #[trigger] untested(after.frame, h) ==> untested(
                before.frame,
                h,
            ),
    ensures
        tidy(after.after_element(Ok(assignment)), core),
{
    reveal(listed_once);
    reveal(tidy);
    let handle = assignment.handle;
    let planes = core.planes.cursor@;
    let result: Result<PlaneAssignment, Option<RenderingReason>> = Ok(assignment);
    if let Some(c) = before.cursor_element {
        let id = before.visible[c as int].info.id;
        let i = choose|i: int|
            0 <= i < planes.len() && shows(before.frame, (#[trigger] planes[i]).handle, id);
        assert(assigned(before.frame, planes[i].handle));
    }
    assert forall|i: usize| i < after.index implies #[trigger] accounted(after, i) by {
        assert(accounted(before, i));
    }
    lemma_everything_accounted(after, result);
    let done = after.after_element(result);
    let entries = done.overlay_elements;
    let at = choose|at: int| 0 <= at < planes.len() && (#[trigger] planes[at]).handle == handle;
    assert forall|k: int| 0 <= k < entries.len() implies in_list(
        core.planes.overlay@,
        (#[trigger] entries[k]).0,
    ) && shows(done.frame, entries[k].0, done.visible[entries[k].1 as int].info.id) by {
        assert(shows(before.frame, entries[k].0, before.visible[entries[k].1 as int].info.id));
        let m = choose|m: int|
            0 <= m < core.planes.overlay@.len() && (#[trigger] core.planes.overlay@[m]).handle
                == entries[k].0;
        assert(planes[at].handle != core.planes.overlay@[m].handle);
    }
    assert(shows(done.frame, planes[at].handle, before.current().info.id));
    assert(shown_among(done.frame, planes, done.visible[before.index as int].info.id));
    assert forall|i: int, j: int|
        0 <= i < planes.len() && 0 <= j < planes.len() && assigned(
            done.frame,
            (#[trigger] planes[i]).handle,
        ) && assigned(done.frame, (#[trigger] planes[j]).handle) implies i == j by {
        if planes[i].handle != handle {
            assert(!assigned(before.frame, planes[i].handle));
        }
        if planes[j].handle != handle {
            assert(!assigned(before.frame, planes[j].handle));
        }
        if i < j {
            assert(planes[i].handle != planes[j].handle);
        }
        if j < i {
            assert(planes[j].handle != planes[i].handle);
        }
    }
    assert forall|i: int|
        0 <= i < planes.len() && untested(done.frame, (#[trigger] planes[i]).handle) implies assigned(
        done.frame,
        planes[i].handle,
    ) by {
        if planes[i].handle != handle {
            assert(untested(before.frame, planes[i].handle));
        }
    }
    assert(cursor_tidy(done, core));
    if let Some(i) = done.legacy_index {
        assert(stood_for(before, i as int));
    }
}

/// Whatever comes of the search for a plane, the frame stays tidy.
pub proof fn searches_keep_frames_tidy(
    before: FrameView,
    after: FrameView,
    base: Seq<(u32, PlaneState)>,
    ctx: ElementContext,
    core: CoreView,
    result: Result<PlaneAssignment, Option<RenderingReason>>,
)
    requires
        core.wf(),
        tidy(before, core),
        before.index < before.visible.len(),
        before.visible.len() <= usize::MAX,
        !before.disable_pending,
        ctx.info == before.current().info,
        ctx.try_primary ==> before.index + 1 == before.visible.len()
            && before.primary_plane_elements.len() == 0 && !overlaps_underlay_spec(
            before.frame,
            core.primary,
            core.planes.overlay@,
            before.current().info.geometry,
        ),
        fenced(before.frame, base),
        after == (FrameView { frame: after.frame, ..before }),
        match result {
            Ok(assignment) => allowed_assignment(core, base, ctx, assignment)
                && shows_on_or_tested(
                after.frame,
                base,
                ctx,
                assignment.handle,
                assignment.type_ == PlaneType::Cursor,
            ),
            Err(_) => after.frame == base,
        },
    ensures
        tidy(after.after_element(result), core),
{
    reveal(listed_once);
    let middle = FrameView { frame: base, ..before };
    fenced_frames_are_tidy(before, base, core);
    match result {
        Err(reason) => {
            reveal(tidy);
            lemma_everything_accounted(middle, result);
            let done = middle.after_element(result);
            assert(after == middle);
            assert(done.primary_scanout is None);
            assert(overlays_tidy(done, core));
            assert(cursor_tidy(done, core));
            if let Some(i) = done.legacy_index {
                assert(stood_for(middle, i as int));
            }
        },
        Ok(assignment) => {
            let handle = assignment.handle;
            lemma_was_free(core, base, ctx, assignment);
            assert(entries_once(base) && covers(base, core)) by {
                reveal(tidy);
            }
            assert(knows(base, handle)) by {
                match assignment.type_ {
                    PlaneType::Primary => {
                        lemma_known(base, 0);
                    },
                    PlaneType::Overlay => {
                        let m = choose|m: int|
                            0 <= m < core.planes.overlay@.len() && (
                            #[trigger] core.planes.overlay@[m]).handle == handle;
                        assert(knows(base, core.planes.overlay@[m].handle));
                    },
                    PlaneType::Cursor => {
                        let m = choose|m: int|
                            0 <= m < core.planes.cursor@.len() && (
                            #[trigger] core.planes.cursor@[m]).handle == handle;
                        assert(knows(base, core.planes.cursor@[m].handle));
                    },
                }
            }
            lemma_one_more(
                after.frame,
                base,
                ctx,
                handle,
                assignment.type_ == PlaneType::Cursor,
                core,
            );
            assert(after == (FrameView { frame: after.frame, ..middle }));
            match assignment.type_ {
                PlaneType::Primary => {
                    lemma_fenced_alike(before.frame, base);
                    lemma_alike(before.frame, base);
                    lemma_primary_taken(middle, after, core, assignment)
                },
                PlaneType::Overlay => lemma_overlay_taken(middle, after, core, assignment),
                PlaneType::Cursor => lemma_cursor_taken(middle, after, core, assignment),
            }
        },
    }
}

// ---------------------------------------------------------------------------------------------
// The legacy cursor
// ---------------------------------------------------------------------------------------------

proof fn lemma_pushed(entries: Seq<(u32, PlaneState)>, entry: (u32, PlaneState), h: u32)
    requires
        !knows(entries, entry.0),
    ensures
        state_of(entries.push(entry), h) == (if h == entry.0 {
            Some(entry.1)
        } else {
            state_of(entries, h)
        }),
{
    let after = entries.push(entry);
    index_is_the_first_entry(entries, h);
    index_is_the_first_entry(entries, entry.0);
    index_is_the_first_entry(after, h);
    let i = index_of(after, h);
    let j = index_of(entries, h);
    if h == entry.0 {
        assert(after[entries.len() as int].0 == h);
        if i < entries.len() {
            assert(entries[i].0 != h);
        }
    } else if knows(entries, h) {
        assert(after[j].0 == h);
        if i < j {
            assert(entries[i].0 != h);
        }
    } else if i < after.len() {
        if i < entries.len() {
            assert(entries[i].0 != h);
        }
    }
}

proof fn lemma_more_planes(frame: Seq<(u32, PlaneState)>, planes: Seq<PlaneInfo>)
    requires
        entries_once(frame),
    ensures
        entries_once(with_planes(frame, planes)),
        forall|h: u32| #[trigger]
            state_of(with_planes(frame, planes), h) == state_of(frame, h) || (state_of(frame, h)
                is None && state_of(with_planes(frame, planes), h) == Some(PlaneState::idle())),
        with_planes(frame, planes).len() >= frame.len(),
        forall|i: int|
            0 <= i < frame.len() ==> #[trigger] with_planes(frame, planes)[i] == frame[i],
        forall|i: int|
            frame.len() <= i < with_planes(frame, planes).len()
                ==> !(#[trigger] with_planes(frame, planes)[i]).1.needs_test,
    decreases planes.len(),
{
    if planes.len() > 0 {
        lemma_more_planes(frame, planes.drop_last());
        let before = with_planes(frame, planes.drop_last());
        let after = with_planes(frame, planes);
        let handle = planes.last().handle;
        if !knows(before, handle) {
            index_is_the_first_entry(before, handle);
            assert forall|h: u32| #[trigger] state_of(after, h) == state_of(frame, h) || (state_of(
                frame,
                h,
            ) is None && state_of(after, h) == Some(PlaneState::idle())) by {
                lemma_pushed(before, (handle, PlaneState::idle()), h);
                assert(state_of(before, h) == state_of(before, h));
            }
            assert forall|i: int| 0 <= i < frame.len() implies #[trigger] after[i] == frame[i] by {
                assert(after[i] == before[i]);
            }
            assert forall|i: int| frame.len() <= i < after.len() implies !(
            #[trigger] after[i]).1.needs_test by {
                if i < before.len() {
                    assert(after[i] == before[i]);
                }
            }
        }
    }
}

/// Giving the cursor planes to atomic frames keeps a frame tidy.
pub proof fn more_planes_keep_frames_tidy(view: FrameView, a: CoreView, b: CoreView)
    requires
        tidy(view, a),
        b.planes == a.planes,
        b.primary == a.primary,
    ensures
        tidy(FrameView { frame: with_planes(view.frame, a.planes.cursor@), ..view }, b),
{
    reveal(tidy);
    let planes = a.planes.cursor@;
    let frame = with_planes(view.frame, planes);
    let after = FrameView { frame, ..view };
    lemma_more_planes(view.frame, planes);
    adding_planes_keeps_the_frame(view.frame, planes);
    assert(frame[0] == view.frame[0]);
    assert forall|h: u32, id: u64| #[trigger] shows(frame, h, id) == shows(view.frame, h, id) by {
        assert(state_of(frame, h) == state_of(frame, h));
    }
    assert forall|h: u32| #[trigger] untested(frame, h) == untested(view.frame, h) by {
        assert(state_of(frame, h) == state_of(frame, h));
    }
    assert forall|h: u32| #[trigger] is_rendered(frame, h) == is_rendered(view.frame, h) by {
        assert(state_of(frame, h) == state_of(frame, h));
    }
    assert forall|h: u32, geometry: Rectangle| #[trigger]
        plane_overlaps(frame, h, geometry) == plane_overlaps(view.frame, h, geometry) by {
        assert(state_of(frame, h) == state_of(frame, h));
    }
    assert forall|h: u32| knows(view.frame, h) implies #[trigger] knows(frame, h) by {
        assert(state_of(frame, h) == state_of(view.frame, h));
    }
    assert(covers(frame, b));
    if let Some(c) = view.cursor_element {
        let id = view.visible[c as int].info.id;
        let i = choose|i: int|
            0 <= i < planes.len() && shows(view.frame, (#[trigger] planes[i]).handle, id);
        assert(shows(frame, planes[i].handle, id));
    }
    assert(cursor_tidy(after, b));
    assert(overlays_tidy(after, b));
    if view.primary_scanout.is_some() && !untested(frame, b.primary.handle) {
        assert forall|i: int| 0 <= i < frame.len() implies !(#[trigger] frame[i]).1.needs_test by {
            if i < view.frame.len() {
                assert(frame[i] == view.frame[i]);
            }
        }
    }
    assert forall|i: usize| i < after.index implies #[trigger] accounted(after, i) by {
        assert(accounted(view, i));
    }
}

/// An element that the legacy cursor shows is not lost.
pub proof fn legacy_cursors_keep_frames_tidy(
    view: FrameView,
    core: CoreView,
    presentation: crate::legacy_cursor::LegacyCursorPresentation,
)
    requires
        tidy(view, core),
        view.index < view.visible.len(),
        view.visible.len() <= usize::MAX,
        !view.disable_pending,
        view.legacy_index == Some(view.index),
        view.legacy_cursor is None || view.legacy_cursor == Some(presentation),
    ensures
        tidy(FrameView { legacy_cursor: Some(presentation), ..view.shown() }, core),
{
    reveal(tidy);
    let after = FrameView { legacy_cursor: Some(presentation), ..view.shown() };
    assert forall|i: usize| i < after.index implies #[trigger] accounted(after, i) by {
        if i < view.index {
            assert(accounted(view, i));
        }
    }
    assert(overlays_tidy(after, core));
    assert(cursor_tidy(after, core));
    assert(stood_for(view, view.index as int));
    assert(stood_for(after, view.index as int));
}

/// An attempt at the legacy cursor that came to nothing changes nothing about the elements.
pub proof fn failed_legacy_cursors_keep_frames_tidy(view: FrameView, core: CoreView)
    requires
        tidy(view, core),
    ensures
        tidy(FrameView { legacy_tried: true, ..view }, core),
{
    reveal(tidy);
    let after = FrameView { legacy_tried: true, ..view };
    assert forall|i: usize| i < after.index implies #[trigger] accounted(after, i) by {
        assert(accounted(view, i));
    }
    if let Some(i) = view.legacy_index {
        assert(stood_for(view, i as int));
    }
}

/// Taking the legacy cursor off, or failing to, keeps a frame tidy.
pub proof fn dropped_legacy_cursors_keep_frames_tidy(
    before: FrameView,
    after: FrameView,
    core: CoreView,
)
    requires
        tidy(before, core),
        before.disable_pending,
        after == (FrameView {
            disable_pending: false,
            legacy_cursor: after.legacy_cursor,
            legacy_index: after.legacy_index,
            ..before
        }),
        after.legacy_index matches Some(i) ==> (after.legacy_cursor matches Some(presentation)
            && is_first_with_id(before.visible, presentation.element_id, i as int)),
    ensures
        tidy(after, core),
{
    reveal(tidy);
    assert(overlays_tidy(after, core));
    assert(cursor_tidy(after, core));
}

// ---------------------------------------------------------------------------------------------
// The final test
// ---------------------------------------------------------------------------------------------

/// A complete frame that passes its test is settled.
pub proof fn passed_frames_are_settled(view: FrameView, core: CoreView)
    requires
        tidy(view, core),
        view.index == view.visible.len(),
    ensures
        settled(FrameView { frame: all_tested(view.frame), ..view }, core),
{
    reveal(tidy);
    reveal(settled);
    let after = FrameView { frame: all_tested(view.frame), ..view };
    let planes = core.planes.cursor@;
    lemma_all_tested(view.frame, core);
    if let Some(c) = view.cursor_element {
        let id = view.visible[c as int].info.id;
        let i = choose|i: int|
            0 <= i < planes.len() && shows(view.frame, (#[trigger] planes[i]).handle, id);
        assert(shows(after.frame, planes[i].handle, id));
    }
    assert(overlays_tidy(after, core));
    assert forall|i: usize| i < after.visible.len() implies #[trigger] accounted(after, i) by {
        assert(accounted(view, i));
    }
    if let Some(i) = after.legacy_index {
        assert(stood_for(view, i as int));
    }
}

/// What holds while elements are taken back from a refused frame.
spec fn retreats_tidily(view: FrameView, core: CoreView, r: Retreat, upto: int) -> bool {
    &&& r.view.frame.len() == view.frame.len()
    &&& forall|j: int| 0 <= j < view.frame.len() ==> (#[trigger] r.view.frame[j]).0 == view.frame[j].0
    &&& forall|j: int| upto <= j < view.frame.len() ==> #[trigger] r.view.frame[j] == view.frame[j]
    &&& r.view.visible == view.visible
    &&& r.view.index == view.index
    &&& overlays_tidy(r.view, core)
    &&& cursor_tidy(r.view, core)
    &&& r.view.primary_scanout.is_some() ==> r.view.primary_scanout == view.primary_scanout
    &&& upto > 0 && r.view.primary_scanout.is_some() ==> r.removed.len() == 0 && r.view.frame
        == view.frame && forall|j: int|
        0 <= j < view.frame.len() ==> !(#[trigger] view.frame[j]).1.needs_test
}

proof fn lemma_given_up(frame: Seq<(u32, PlaneState)>, index: int)
    requires
        entries_once(frame),
        0 <= index < frame.len(),
    ensures
        ({
            let handle = frame[index].0;
            let after = frame.update(index, (handle, given_up()));
            &&& entries_once(after)
            &&& !assigned(after, handle)
            &&& !untested(after, handle)
            &&& forall|h: u32| h != handle ==> #[trigger] assigned(after, h) == assigned(frame, h)
            &&& forall|h: u32| h != handle ==> #[trigger] untested(after, h) == untested(frame, h)
            &&& forall|h: u32, id: u64|
                h != handle ==> #[trigger] shows(after, h, id) == shows(frame, h, id)
        }),
{
    let handle = frame[index].0;
    let after = frame.update(index, (handle, given_up()));
    lemma_position(frame, index);
    assert(after =~= with_state(frame, handle, given_up()));
    assert forall|i: int| 0 <= i < frame.len() implies (#[trigger] after[i]).0 == frame[i].0 by {}
    assert forall|h: u32| #[trigger] state_of(after, h) == (if h == handle {
        Some(given_up())
    } else {
        state_of(frame, h)
    }) by {
        set_state_changes_one_plane(frame, handle, given_up(), h);
    }
    assert(state_of(after, handle) == Some(given_up()));
    assert forall|h: u32| h != handle implies #[trigger] assigned(after, h) == assigned(
        frame,
        h,
    ) by {
        assert(state_of(after, h) == state_of(frame, h));
    }
    assert forall|h: u32| h != handle implies #[trigger] untested(after, h) == untested(
        frame,
        h,
    ) by {
        assert(state_of(after, h) == state_of(frame, h));
    }
    assert forall|h: u32, id: u64| h != handle implies #[trigger] shows(after, h, id) == shows(
        frame,
        h,
        id,
    ) by {
        assert(state_of(after, h) == state_of(frame, h));
    }
}

proof fn lemma_retreat_handles(view: FrameView, core: CoreView, r: Retreat, index: int)
    requires
        entries_once(view.frame),
        retreats_tidily(view, core, r, index),
    ensures
        entries_once(r.view.frame),
{
    assert forall|i: int, j: int| 0 <= i < j < r.view.frame.len() implies (
    #[trigger] r.view.frame[i]).0 != (#[trigger] r.view.frame[j]).0 by {
        assert(view.frame[i].0 != view.frame[j].0);
    }
}

proof fn lemma_retreat_primary(view: FrameView, core: CoreView, r: Retreat)
    requires
        core.wf(),
        tidy(view, core),
        r == (Retreat { view, removed: Seq::empty() }),
    ensures
        retreats_tidily(view, core, retreat_step(r, core, 0), 1),
{
    reveal(tidy);
    let next = retreat_step(r, core, 0);
    let handle = view.frame[0].0;
    lemma_position(view.frame, 0);
    if view.frame[0].1.needs_test {
        lemma_given_up(view.frame, 0);
        lemma_elsewhere(view, next.view, core, handle);
    }
}

/// Elements on planes other than the one that changed stay where they are.
proof fn lemma_elsewhere(before: FrameView, after: FrameView, core: CoreView, handle: u32)
    requires
        core.wf(),
        handle == core.primary.handle,
        overlays_tidy(before, core),
        cursor_tidy(before, core),
        after.overlay_elements == before.overlay_elements,
        after.cursor_element == before.cursor_element,
        after.visible == before.visible,
        forall|h: u32|
            h != handle ==> #[trigger] assigned(after.frame, h) == assigned(before.frame, h),
        forall|h: u32|
            h != handle ==> #[trigger] untested(after.frame, h) == untested(before.frame, h),
        forall|h: u32, id: u64|
            h != handle ==> #[trigger] shows(after.frame, h, id) == shows(before.frame, h, id),
    ensures
        overlays_tidy(after, core),
        cursor_tidy(after, core),
{
    let entries = before.overlay_elements;
    let planes = core.planes.cursor@;
    assert forall|k: int| 0 <= k < entries.len() implies in_list(
        core.planes.overlay@,
        (#[trigger] entries[k]).0,
    ) && shows(after.frame, entries[k].0, after.visible[entries[k].1 as int].info.id) by {
        assert(shows(before.frame, entries[k].0, before.visible[entries[k].1 as int].info.id));
    }
    assert forall|i: int| 0 <= i < planes.len() implies (#[trigger] planes[i]).handle != handle by {}
    if let Some(c) = before.cursor_element {
        let id = before.visible[c as int].info.id;
        let i = choose|i: int|
            0 <= i < planes.len() && shows(before.frame, (#[trigger] planes[i]).handle, id);
        assert(shows(after.frame, planes[i].handle, id));
    }
}

proof fn lemma_retreat_cursor(view: FrameView, core: CoreView, r: Retreat, index: int)
    requires
        core.wf(),
        entries_once(view.frame),
        0 < index < view.frame.len(),
        retreats_tidily(view, core, r, index),
        view.frame[index].1.needs_test,
        view.frame[index].0 != core.primary.handle,
        in_list(core.planes.cursor@, view.frame[index].0),
    ensures
        retreats_tidily(view, core, retreat_step(r, core, index), index + 1),
{
    reveal(listed_once);
    let next = retreat_step(r, core, index);
    let (handle, state) = r.view.frame[index];
    let planes = core.planes.cursor@;
    assert(r.view.frame[index] == view.frame[index]);
    lemma_retreat_handles(view, core, r, index);
    lemma_given_up(r.view.frame, index);
    assert(r.view.primary_scanout is None);
    let at = choose|at: int| 0 <= at < planes.len() && (#[trigger] planes[at]).handle == handle;
    let entries = next.view.overlay_elements;
    assert forall|k: int| 0 <= k < entries.len() implies in_list(
        core.planes.overlay@,
        (#[trigger] entries[k]).0,
    ) && shows(next.view.frame, entries[k].0, next.view.visible[entries[k].1 as int].info.id) by {
        assert(shows(r.view.frame, entries[k].0, r.view.visible[entries[k].1 as int].info.id));
        let m = choose|m: int|
            0 <= m < core.planes.overlay@.len() && (#[trigger] core.planes.overlay@[m]).handle
                == entries[k].0;
        assert(planes[at].handle != core.planes.overlay@[m].handle);
    }
    assert forall|i: int|
        0 <= i < planes.len() && untested(next.view.frame, (#[trigger] planes[i]).handle) implies assigned(
        next.view.frame,
        planes[i].handle,
    ) by {
        assert(untested(r.view.frame, planes[i].handle));
    }
    assert forall|i: int, j: int|
        0 <= i < planes.len() && 0 <= j < planes.len() && assigned(
            next.view.frame,
            (#[trigger] planes[i]).handle,
        ) && assigned(next.view.frame, (#[trigger] planes[j]).handle) implies i == j by {
        assert(assigned(r.view.frame, planes[i].handle));
        assert(assigned(r.view.frame, planes[j].handle));
    }
    assert(cursor_tidy(next.view, core));
    assert(overlays_tidy(next.view, core));
}

proof fn lemma_retreat_overlay(view: FrameView, core: CoreView, r: Retreat, index: int)
    requires
        core.wf(),
        entries_once(view.frame),
        0 < index < view.frame.len(),
        retreats_tidily(view, core, r, index),
        view.frame[index].1.needs_test,
        view.frame[index].0 != core.primary.handle,
        !in_list(core.planes.cursor@, view.frame[index].0),
    ensures
        retreats_tidily(view, core, retreat_step(r, core, index), index + 1),
{
    let next = retreat_step(r, core, index);
    let (handle, state) = r.view.frame[index];
    let planes = core.planes.cursor@;
    assert(r.view.frame[index] == view.frame[index]);
    lemma_retreat_handles(view, core, r, index);
    lemma_given_up(r.view.frame, index);
    assert(r.view.primary_scanout is None);
    let entries = r.view.overlay_elements;
    let after = next.view.overlay_elements;
    key_index_is_first(entries, handle);
    let at = key_index(entries, handle);
    if has_key(entries, handle) {
        assert(after == entries.remove(at));
        assert forall|k: int| 0 <= k < after.len() implies #[trigger] after[k] == (if k < at {
            entries[k]
        } else {
            entries[k + 1]
        }) by {}
        assert forall|k: int| 0 <= k < after.len() implies in_list(
            core.planes.overlay@,
            (#[trigger] after[k]).0,
        ) && shows(next.view.frame, after[k].0, next.view.visible[after[k].1 as int].info.id) by {
            let m = if k < at {
                k
            } else {
                k + 1
            };
            assert(after[k] == entries[m]);
            assert(entries[m].0 != handle) by {
                if m < at {
                    assert(entries[m].0 != entries[at].0);
                } else {
                    assert(entries[at].0 != entries[m].0);
                }
            }
            assert(shows(r.view.frame, entries[m].0, r.view.visible[entries[m].1 as int].info.id));
        }
        assert forall|j: int, k: int| 0 <= j < k < after.len() implies (#[trigger] after[j]).0 != (
        #[trigger] after[k]).0 by {
            let a = if j < at {
                j
            } else {
                j + 1
            };
            let b = if k < at {
                k
            } else {
                k + 1
            };
            assert(after[j] == entries[a]);
            assert(after[k] == entries[b]);
            assert(entries[a].0 != entries[b].0);
        }
        assert forall|i: int| 0 <= i < planes.len() implies (#[trigger] planes[i]).handle
            != handle by {}
        if let Some(c) = r.view.cursor_element {
            let id = r.view.visible[c as int].info.id;
            let i = choose|i: int|
                0 <= i < planes.len() && shows(r.view.frame, (#[trigger] planes[i]).handle, id);
            assert(shows(next.view.frame, planes[i].handle, id));
        }
        assert(cursor_tidy(next.view, core));
        assert(overlays_tidy(next.view, core));
    }
}

proof fn lemma_retreats_tidily(view: FrameView, core: CoreView, upto: nat)
    requires
        core.wf(),
        tidy(view, core),
        upto <= view.frame.len(),
    ensures
        retreats_tidily(view, core, retreated(view, core, upto), upto as int),
    decreases upto,
{
    reveal(listed_once);
    if upto == 0 {
        reveal(tidy);
    } else if upto == 1 {
        assert(retreated(view, core, 0) == (Retreat { view, removed: Seq::empty() }));
        lemma_retreat_primary(view, core, retreated(view, core, 0));
        assert(retreated(view, core, 1) == retreat_step(retreated(view, core, 0), core, 0));
    } else {
        lemma_retreats_tidily(view, core, (upto - 1) as nat);
        let r = retreated(view, core, (upto - 1) as nat);
        let index = upto - 1;
        let handle = view.frame[index].0;
        assert(entries_once(view.frame) && view.frame[0].0 == core.primary.handle) by {
            reveal(tidy);
        }
        assert(handle != core.primary.handle) by {
            assert(view.frame[0].0 != view.frame[index].0);
        }
        assert(r.view.frame[index] == view.frame[index]);
        if view.frame[index].1.needs_test {
            if in_list(core.planes.cursor@, handle) {
                lemma_retreat_cursor(view, core, r, index);
            } else {
                lemma_retreat_overlay(view, core, r, index);
            }
        }
    }
}

proof fn lemma_retreat_keeps_legacy(view: FrameView, core: CoreView, upto: nat)
    ensures
        retreated(view, core, upto).view.legacy_cursor == view.legacy_cursor,
        retreated(view, core, upto).view.legacy_index == view.legacy_index,
        retreated(view, core, upto).view.visible == view.visible,
        retreated(view, core, upto).view.index == view.index,
    decreases upto,
{
    if upto > 0 {
        lemma_retreat_keeps_legacy(view, core, (upto - 1) as nat);
    }
}

/// A complete frame that is refused is settled once what was not tested is taken back.
pub proof fn refused_frames_are_settled(view: FrameView, core: CoreView)
    requires
        core.wf(),
        tidy(view, core),
        view.index == view.visible.len(),
    ensures
        settled(fallen_back(view, core), core),
{
    reveal(listed_once);
    let n = view.frame.len();
    let r = retreated(view, core, n);
    let after = fallen_back(view, core);
    let primary = core.primary.handle;
    lemma_retreats_tidily(view, core, n);
    lemma_retreat_keeps_legacy(view, core, n);
    reveal(tidy);
    reveal(settled);
    assert(n > 0);
    if r.removed.len() > 0 {
        let frame = r.view.frame;
        assert forall|h: u32| h != primary implies #[trigger] state_of(after.frame, h) == state_of(
            frame,
            h,
        ) by {
            set_state_changes_one_plane(frame, primary, view.primary_state, h);
        }
        assert forall|h: u32| h != primary implies #[trigger] assigned(after.frame, h) == assigned(
            frame,
            h,
        ) by {
            assert(state_of(after.frame, h) == state_of(frame, h));
        }
        assert forall|h: u32| h != primary implies #[trigger] untested(after.frame, h) == untested(
            frame,
            h,
        ) by {
            assert(state_of(after.frame, h) == state_of(frame, h));
        }
        assert forall|h: u32, id: u64| h != primary implies #[trigger] shows(after.frame, h, id)
            == shows(frame, h, id) by {
            assert(state_of(after.frame, h) == state_of(frame, h));
        }
        lemma_elsewhere(r.view, after, core, primary);
    } else {
        assert(overlays_tidy(after, core));
        assert(cursor_tidy(r.view, core));
        if let Some(p) = after.primary_scanout {
            by_depth_sorts(r.removed);
            assert(after.primary_plane_elements.len() == 0);
            assert(after.frame == view.frame);
        }
    }
    assert forall|i: usize| i < after.visible.len() implies #[trigger] accounted(after, i) by {
        assert(accounted(view, i));
        if placed(view, i) {
            falling_back_loses_no_element(view, core, i);
        }
    }
    if let Some(i) = after.legacy_index {
        assert(stood_for(view, i as int));
    }
}

// ---------------------------------------------------------------------------------------------
// The result
// ---------------------------------------------------------------------------------------------

/// Rendering keeps a frame settled, and nothing but rendered content was to be on the primary plane.
pub proof fn rendering_keeps_frames_settled(view: FrameView, after: FrameView, core: CoreView)
    requires
        core.wf(),
        settled(view, core),
        is_rendered(view.frame, core.primary.handle),
        after == (FrameView { frame: after.frame, states: after.states, ..view }),
        exists|state: PlaneState| after.frame == #[trigger] with_state(
            view.frame,
            core.primary.handle,
            state,
        ),
    ensures
        settled(after, core),
        after.primary_scanout is None,
{
    reveal(settled);
    let primary = core.primary.handle;
    let planes = core.planes.cursor@;
    let state = choose|state: PlaneState| after.frame == #[trigger] with_state(
        view.frame,
        primary,
        state,
    );
    assert forall|h: u32, id: u64| h != primary implies #[trigger] shows(after.frame, h, id)
        == shows(view.frame, h, id) by {
        set_state_changes_one_plane(view.frame, primary, state, h);
    }
    if let Some(c) = view.cursor_element {
        let id = view.visible[c as int].info.id;
        let i = choose|i: int|
            0 <= i < planes.len() && shows(view.frame, (#[trigger] planes[i]).handle, id);
        assert(shows(after.frame, planes[i].handle, id));
    }
    let entries = after.overlay_elements;
    assert forall|k: int| 0 <= k < entries.len() implies in_list(
        core.planes.overlay@,
        (#[trigger] entries[k]).0,
    ) && shows(after.frame, entries[k].0, after.visible[entries[k].1 as int].info.id) by {
        assert(shows(view.frame, entries[k].0, view.visible[entries[k].1 as int].info.id));
    }
    assert forall|i: usize| i < after.visible.len() implies #[trigger] accounted(after, i) by {
        assert(accounted(view, i));
    }
    if let Some(i) = after.legacy_index {
        assert(stood_for(view, i as int));
    }
}

/// Whether a frame is settled does not depend on where its effects are.
pub proof fn settling_is_about_elements(view: FrameView, after: FrameView, core: CoreView)
    requires
        settled(view, core),
        after == (FrameView { effect_regions: after.effect_regions, ..view }),
    ensures
        settled(after, core),
{
    reveal(settled);
    assert forall|i: usize| i < after.visible.len() implies #[trigger] accounted(after, i) by {
        assert(accounted(view, i));
    }
    if let Some(i) = after.legacy_index {
        assert(stood_for(view, i as int));
    }
}

/// Whether an element is shown without being rendered, by what the result of a frame says: on the
/// primary plane, on another plane, or by the legacy cursor that stands for it.
pub open spec fn shown_directly(
    visible: Seq<VisibleElement>,
    result: RenderFrameResult,
    element: usize,
) -> bool {
    ||| result.primary_element == PrimaryPlaneElement::Element(element)
    ||| result.overlay_elements@.contains(element)
    ||| result.cursor_element == Some(element)
    ||| result.legacy_cursor matches Some(presentation) && (is_only_cursor(visible, element as int)
        || is_first_with_id(visible, presentation.element_id, element as int))
}

/// Whether a frame shows what its result says: each element that is said to be on a plane is, and
/// if the primary plane shows an element then every visible element is shown without rendering, and
/// nothing on an underlay is covered.
pub open spec fn result_holds(
    frame: Seq<(u32, PlaneState)>,
    core: CoreView,
    visible: Seq<VisibleElement>,
    result: RenderFrameResult,
) -> bool {
    &&& forall|k: int|
        0 <= k < result.overlay_elements@.len() ==> shown_among(
            frame,
            core.planes.overlay@,
            visible[#[trigger] result.overlay_elements@[k] as int].info.id,
        )
    &&& result.cursor_element matches Some(c) ==> shown_among(
        frame,
        core.planes.cursor@,
        visible[c as int].info.id,
    )
    &&& result.primary_element matches PrimaryPlaneElement::Element(p) ==> shows(
        frame,
        core.primary.handle,
        visible[p as int].info.id,
    ) && !overlaps_underlay_spec(
        frame,
        core.primary,
        core.planes.overlay@,
        visible[p as int].info.geometry,
    ) && forall|i: usize| i < visible.len() ==> #[trigger] shown_directly(visible, result, i)
}

/// A surface without overlay planes has no elements on them, and one without cursor planes none on
/// those.
pub proof fn missing_planes_show_nothing(
    frame: Seq<(u32, PlaneState)>,
    core: CoreView,
    visible: Seq<VisibleElement>,
    result: RenderFrameResult,
)
    requires
        result_holds(frame, core, visible, result),
    ensures
        core.planes.overlay@.len() == 0 ==> result.overlay_elements@.len() == 0,
        core.planes.cursor@.len() == 0 ==> result.cursor_element is None,
{
    if core.planes.overlay@.len() == 0 && result.overlay_elements@.len() > 0 {
        assert(!shown_among(
            frame,
            core.planes.overlay@,
            visible[result.overlay_elements@[0] as int].info.id,
        ));
    }
}

proof fn lemma_skipped_alike(frame: Seq<(u32, PlaneState)>, planes: Seq<PlaneInfo>)
    ensures
        alike(frame, planes_skipped(frame, planes)),
    decreases planes.len(),
{
    if planes.len() > 0 {
        let before = planes_skipped(frame, planes.drop_last());
        let after = planes_skipped(frame, planes);
        let handle = planes.last().handle;
        lemma_skipped_alike(frame, planes.drop_last());
        index_is_the_first_entry(before, handle);
        assert forall|i: int| 0 <= i < frame.len() implies entry_alike(
            #[trigger] frame[i],
            after[i],
        ) by {
            assert(entry_alike(frame[i], before[i]));
        }
    }
}

/// The result of a settled frame is what the frame shows.
pub proof fn results_hold(
    view: FrameView,
    core: CoreView,
    was_rendered: bool,
    result: RenderFrameResult,
)
    requires
        settled(view, core),
        !was_rendered ==> view.primary_scanout.is_some(),
        result.primary_element == primary_element_spec(view, core, was_rendered),
        result.overlay_elements@ == Seq::new(
            view.overlay_elements.len(),
            |i: int| view.overlay_elements[i].1,
        ),
        result.cursor_element == view.cursor_element,
        result.legacy_cursor == view.legacy_cursor,
    ensures
        result_holds(outgoing(view, core), core, view.visible, result),
{
    reveal(settled);
    let frame = outgoing(view, core);
    let entries = view.overlay_elements;
    let overlay = core.planes.overlay@;
    lemma_skipped_alike(view.frame, core.planes.cursor@);
    assert(alike(view.frame, frame)) by {
        assert forall|i: int| 0 <= i < view.frame.len() implies entry_alike(
            #[trigger] view.frame[i],
            view.frame[i],
        ) by {}
    }
    lemma_alike(view.frame, frame);
    lemma_shown_alike(view.frame, frame, core.planes.cursor@);
    assert forall|k: int| 0 <= k < result.overlay_elements@.len() implies shown_among(
        frame,
        overlay,
        view.visible[#[trigger] result.overlay_elements@[k] as int].info.id,
    ) by {
        assert(in_list(overlay, entries[k].0));
        let i = choose|i: int|
            0 <= i < overlay.len() && (#[trigger] overlay[i]).handle == entries[k].0;
        assert(shows(frame, overlay[i].handle, view.visible[entries[k].1 as int].info.id));
    }
    if let PrimaryPlaneElement::Element(p) = result.primary_element {
        assert forall|i: usize| i < view.visible.len() implies #[trigger] shown_directly(
            view.visible,
            result,
            i,
        ) by {
            assert(accounted(view, i));
            if on_overlay(entries, i) {
                let k = choose|k: int| 0 <= k < entries.len() && (#[trigger] entries[k]).1 == i;
                assert(result.overlay_elements@[k] == i);
            }
            if view.legacy_index == Some(i) {
                assert(stood_for(view, i as int));
            }
        }
    }
}

} // verus!
