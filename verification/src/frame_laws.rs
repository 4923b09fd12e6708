//! What holds of every frame in the making.

use vstd::prelude::*;
use crate::assignment::buffer_of;
use crate::attempt::{target_plane, ElementContext, Target};
use crate::attempt_laws::{
    allowed, allowed_assignment, cursor_allowed, shows_element, shows_on, shows_on_or_tested,
};
use crate::core_state::{same_planes, CoreView};
use crate::element::RenderingReason;
use crate::frame_build::{fresh_frame, FrameView};
use crate::frame_finish::{by_depth, by_depth_sorts, fallen_back, retreat_step, retreated, take_element, Retreat};
use crate::frame_state::{
    adding_planes_keeps_the_frame, all_tested, fenced, fences_change_nothing_else,
    index_is_the_first_entry, index_of, knows, set_state_changes_one_plane, state_of, with_planes,
    with_state,
};
use crate::overlay_map::{has_key, key_index, key_index_is_first, key_removed};
use crate::plane::{PlaneAssignment, PlaneState, PlaneType};

verus! {

/// Whether an element is on a plane or among those that are rendered.
pub open spec fn placed(view: FrameView, element: usize) -> bool {
    ||| view.primary_scanout == Some(element)
    ||| view.cursor_element == Some(element)
    ||| on_overlay(view.overlay_elements, element)
    ||| view.primary_plane_elements.contains(element)
}

pub open spec fn on_overlay(entries: Seq<(u32, usize)>, element: usize) -> bool {
    exists|k: int| 0 <= k < entries.len() && (#[trigger] entries[k]).1 == element
}

/// A frame that can go on with one state of the compositor can go on with any that has the same
/// planes. So attempts at single elements do not get in the way of the frame.
pub proof fn attempts_keep_frames_going(view: FrameView, a: CoreView, b: CoreView)
    requires
        view.wf(a),
        same_planes(b, a),
        b.wf(),
    ensures
        view.wf(b),
{
    assert forall|i: int| 0 <= i < view.visible.len() implies {
        &&& (#[trigger] view.visible[i]).info.comparable()
        &&& crate::attempt::element_fits(view.visible[i].info, view.output, b)
        &&& crate::legacy_attempt::legacy_fits(view.visible[i].info, view.output, b.cursor_size)
        &&& view.visible[i].visible_area <= crate::region::area(view.output.geometry)
    } by {
        assert(crate::attempt::element_fits(view.visible[i].info, view.output, a));
    }
}

/// Once the search for a plane for an element is over, the element is on that plane or among those
/// that are rendered; and so are all that were before, provided the plane had been free.
pub proof fn every_element_is_placed(
    view: FrameView,
    result: Result<PlaneAssignment, Option<RenderingReason>>,
    other: usize,
)
    requires
        result matches Ok(plane) ==> match plane.type_ {
            PlaneType::Overlay => !has_key(view.overlay_elements, plane.handle),
            PlaneType::Primary => view.primary_scanout is None,
            PlaneType::Cursor => view.cursor_element is None,
        },
    ensures
        placed(view.after_element(result), view.index),
        placed(view, other) ==> placed(view.after_element(result), other),
{
    let after = view.after_element(result);
    match result {
        Ok(plane) => {
            if plane.type_ == PlaneType::Overlay {
                let n = view.overlay_elements.len() as int;
                assert(after.overlay_elements[n] == (plane.handle, view.index));
            }
            if on_overlay(view.overlay_elements, other) {
                let k = choose|k: int|
                    0 <= k < view.overlay_elements.len() && (
                    #[trigger] view.overlay_elements[k]).1 == other;
                assert(after.overlay_elements[k] == view.overlay_elements[k]);
            }
        },
        Err(_) => {
            let n = view.primary_plane_elements.len() as int;
            assert(after.primary_plane_elements[n] == view.index);
            if view.primary_plane_elements.contains(other) {
                let k = choose|k: int|
                    0 <= k < view.primary_plane_elements.len() && view.primary_plane_elements[k]
                        == other;
                assert(after.primary_plane_elements[k] == other);
            }
        },
    }
}

spec fn placed_or_removed(r: Retreat, element: usize) -> bool {
    placed(r.view, element) || exists|k: int|
        0 <= k < r.removed.len() && (#[trigger] r.removed[k]).1 == element
}

proof fn lemma_retreat_step(r: Retreat, core: CoreView, index: int, element: usize)
    requires
        placed_or_removed(r, element),
    ensures
        placed_or_removed(retreat_step(r, core, index), element),
        retreat_step(r, core, index).view.primary_plane_elements == r.view.primary_plane_elements,
{
    let next = retreat_step(r, core, index);
    let (handle, state) = r.view.frame[index];
    if exists|k: int| 0 <= k < r.removed.len() && (#[trigger] r.removed[k]).1 == element {
        let k = choose|k: int| 0 <= k < r.removed.len() && (#[trigger] r.removed[k]).1 == element;
        assert(next.removed[k] == r.removed[k]);
    } else if state.needs_test {
        let (taken, view) = take_element(r.view, core, handle);
        if taken == Some(element) {
            assert(next.removed[r.removed.len() as int].1 == element);
        } else if on_overlay(r.view.overlay_elements, element) {
            let entries = r.view.overlay_elements;
            let k = choose|k: int| 0 <= k < entries.len() && (#[trigger] entries[k]).1 == element;
            key_index_is_first(entries, handle);
            let at = key_index(entries, handle);
            let after = key_removed(entries, handle);
            if at < entries.len() {
                if k < at {
                    assert(after[k] == entries[k]);
                } else if k > at {
                    assert(after[k - 1] == entries[k]);
                }
            } else {
                assert(after[k] == entries[k]);
            }
            if view.overlay_elements == entries {
                assert(view.overlay_elements[k].1 == element);
            }
            assert(on_overlay(view.overlay_elements, element));
            assert(next.view.overlay_elements == view.overlay_elements);
        }
    }
}

proof fn lemma_retreated(view: FrameView, core: CoreView, upto: nat, element: usize)
    requires
        placed(view, element),
    ensures
        placed_or_removed(retreated(view, core, upto), element),
        retreated(view, core, upto).view.primary_plane_elements == view.primary_plane_elements,
    decreases upto,
{
    if upto > 0 {
        lemma_retreated(view, core, (upto - 1) as nat, element);
        lemma_retreat_step(
            retreated(view, core, (upto - 1) as nat),
            core,
            upto - 1,
            element,
        );
    }
}

/// When the device refuses a frame no element is lost: each one that was placed is so afterwards,
/// on its plane or among those that are rendered.
pub proof fn falling_back_loses_no_element(view: FrameView, core: CoreView, element: usize)
    requires
        placed(view, element),
    ensures
        placed(fallen_back(view, core), element),
{
    let n = view.frame.len();
    lemma_retreated(view, core, n, element);
    let r = retreated(view, core, n);
    let sorted = by_depth(r.removed);
    let front = Seq::new(sorted.len(), |i: int| sorted[i].1);
    let after = fallen_back(view, core);
    by_depth_sorts(r.removed);
    if exists|k: int| 0 <= k < r.removed.len() && (#[trigger] r.removed[k]).1 == element {
        let k = choose|k: int| 0 <= k < r.removed.len() && (#[trigger] r.removed[k]).1 == element;
        r.removed.to_multiset_ensures();
        sorted.to_multiset_ensures();
        assert(r.removed.to_multiset().contains(r.removed[k]));
        assert(sorted.contains(r.removed[k]));
        let j = choose|j: int| 0 <= j < sorted.len() && sorted[j] == r.removed[k];
        assert(front[j] == element);
        assert(after.primary_plane_elements[j] == element);
    } else if view.primary_plane_elements.contains(element) {
        let k = choose|k: int|
            0 <= k < view.primary_plane_elements.len() && view.primary_plane_elements[k] == element;
        assert(after.primary_plane_elements[front.len() + k] == element);
    }
}

/// Whether the primary plane shows something in the frame: a buffer of the swapchain, or else the
/// element that is noted for it.
pub open spec fn primary_kept(view: FrameView, core: CoreView) -> bool {
    buffer_of(view.frame, core.primary.handle) matches Some(buffer) && (buffer.buffer is Swapchain
        || view.primary_scanout.is_some())
}

/// A new frame shows the swapchain on the primary plane.
pub proof fn new_frames_show_the_swapchain(
    view: FrameView,
    core: CoreView,
    previous: Seq<(u32, PlaneState)>,
)
    requires
        view.primary_state.buffer_spec() matches Some(buffer) && buffer.buffer is Swapchain,
        view.frame == with_state(
            fresh_frame(core, previous),
            core.primary.handle,
            view.primary_state,
        ),
    ensures
        primary_kept(view, core),
{
    let handle = core.primary.handle;
    let fresh = fresh_frame(core, previous);
    assert(fresh[0].0 == handle);
    assert(index_of(fresh, handle) == 0);
    set_state_changes_one_plane(fresh, handle, view.primary_state, handle);
}

proof fn lemma_tested_keeps(
    untested: Seq<(u32, PlaneState)>,
    handle: u32,
)
    ensures
        buffer_of(all_tested(untested), handle) == buffer_of(untested, handle),
{
    let tested = all_tested(untested);
    index_is_the_first_entry(untested, handle);
    index_is_the_first_entry(tested, handle);
    let i = index_of(untested, handle);
    let j = index_of(tested, handle);
    if i < j {
        assert(tested[i].0 != handle);
    }
    if j < i {
        assert(untested[j].0 != handle);
    }
}

proof fn lemma_shown_elsewhere(
    frame: Seq<(u32, PlaneState)>,
    base: Seq<(u32, PlaneState)>,
    ctx: ElementContext,
    handle: u32,
    drawn: bool,
    primary: u32,
)
    requires
        shows_on(frame, base, ctx, handle, drawn),
        buffer_of(base, primary).is_some(),
    ensures
        handle != primary ==> buffer_of(frame, primary) == buffer_of(base, primary),
        handle == primary ==> buffer_of(frame, primary).is_some(),
{
    let state = choose|state: PlaneState|
        #![trigger with_state(base, handle, state)]
        frame == with_state(base, handle, state) && shows_element(state, ctx, drawn);
    set_state_changes_one_plane(base, handle, state, primary);
}

/// Whatever comes of the search for a plane, the primary plane shows something afterwards.
pub proof fn searches_keep_the_primary_plane(
    before: FrameView,
    after: FrameView,
    base: Seq<(u32, PlaneState)>,
    ctx: ElementContext,
    core: CoreView,
    result: Result<PlaneAssignment, Option<RenderingReason>>,
)
    requires
        core.wf(),
        primary_kept(before, core),
        fenced(before.frame, base),
        after == (FrameView { frame: after.frame, ..before }),
        match result {
            Ok(assignment) => allowed_assignment(core, base, ctx, assignment)
                && shows_on_or_tested(
                after.frame,
                base,
                ctx,
                assignment.handle,
                assignment.type_ == PlaneType::Cursor,
            ),
            Err(_) => after.frame == base,
        },
    ensures
        primary_kept(after.after_element(result), core),
{
    let primary = core.primary.handle;
    fences_change_nothing_else(before.frame, base, primary);
    assert(buffer_of(base, primary) == buffer_of(before.frame, primary));
    if let Ok(assignment) = result {
        let handle = assignment.handle;
        let drawn = assignment.type_ == PlaneType::Cursor;
        if shows_on(after.frame, base, ctx, handle, drawn) {
            lemma_shown_elsewhere(after.frame, base, ctx, handle, drawn, primary);
        } else {
            let untested = choose|untested: Seq<(u32, PlaneState)>|
                #![trigger all_tested(untested)]
                after.frame == all_tested(untested) && shows_on(
                    untested,
                    base,
                    ctx,
                    handle,
                    drawn,
                );
            lemma_shown_elsewhere(untested, base, ctx, handle, drawn, primary);
            lemma_tested_keeps(untested, primary);
        }
        if handle == primary {
            if exists|target: Target|
                #![trigger allowed(core, base, ctx, target)]
                allowed(core, base, ctx, target) && target_plane(core, target).assignment_spec()
                    == assignment {
                let target = choose|target: Target|
                    #![trigger allowed(core, base, ctx, target)]
                    allowed(core, base, ctx, target) && target_plane(
                        core,
                        target,
                    ).assignment_spec() == assignment;
                assert(target == Target::Primary);
            } else {
                let index = choose|index: int|
                    #![trigger cursor_allowed(core, base, ctx, index)]
                    0 <= index && cursor_allowed(core, base, ctx, index)
                        && core.planes.cursor@[index].assignment_spec() == assignment;
                assert(core.planes.cursor@[index].handle != primary);
            }
        }
    }
}

proof fn lemma_nothing_removed(view: FrameView, core: CoreView, upto: nat)
    requires
        retreated(view, core, upto).removed.len() == 0,
        upto <= view.frame.len(),
    ensures
        retreated(view, core, upto).view.frame == view.frame,
        retreated(view, core, upto).view.primary_scanout == view.primary_scanout,
    decreases upto,
{
    if upto > 0 {
        lemma_nothing_removed(view, core, (upto - 1) as nat);
    }
}

proof fn lemma_retreat_entries(view: FrameView, core: CoreView, upto: nat, handle: u32)
    requires
        upto <= view.frame.len(),
    ensures
        retreated(view, core, upto).view.frame.len() == view.frame.len(),
        index_of(retreated(view, core, upto).view.frame, handle) == index_of(view.frame, handle),
    decreases upto,
{
    if upto > 0 {
        lemma_retreat_entries(view, core, (upto - 1) as nat, handle);
        let r = retreated(view, core, (upto - 1) as nat);
        let next = retreated(view, core, upto);
        let at = upto - 1;
        index_is_the_first_entry(r.view.frame, handle);
        index_is_the_first_entry(next.view.frame, handle);
        let i = index_of(r.view.frame, handle);
        let j = index_of(next.view.frame, handle);
        if i < j {
            assert(next.view.frame[i].0 != handle);
        }
        if j < i {
            assert(r.view.frame[j].0 != handle);
        }
    }
}

/// A frame that falls back shows something on the primary plane, like one that passes.
pub proof fn tests_keep_the_primary_plane(view: FrameView, core: CoreView)
    requires
        primary_kept(view, core),
        view.primary_state.buffer_spec() matches Some(buffer) && buffer.buffer is Swapchain,
    ensures
        primary_kept(fallen_back(view, core), core),
        primary_kept(FrameView { frame: all_tested(view.frame), ..view }, core),
{
    let handle = core.primary.handle;
    lemma_tested_keeps(view.frame, handle);
    let r = retreated(view, core, view.frame.len());
    if r.removed.len() == 0 {
        lemma_nothing_removed(view, core, view.frame.len());
    } else {
        lemma_retreat_entries(view, core, view.frame.len(), handle);
        set_state_changes_one_plane(r.view.frame, handle, view.primary_state, handle);
    }
}

/// Giving the cursor planes to atomic frames keeps what the primary plane shows.
pub proof fn more_planes_keep_the_primary_plane(view: FrameView, core: CoreView)
    requires
        primary_kept(view, core),
    ensures
        primary_kept(
            FrameView { frame: with_planes(view.frame, core.planes.cursor@), ..view },
            core,
        ),
{
    adding_planes_keeps_the_frame(view.frame, core.planes.cursor@);
    assert(knows(view.frame, core.primary.handle));
    assert(state_of(with_planes(view.frame, core.planes.cursor@), core.primary.handle) == state_of(
        view.frame,
        core.primary.handle,
    ));
}

} // verus!
