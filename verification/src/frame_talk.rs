//! What is exchanged with a device while a frame is made.

use vstd::prelude::*;
use crate::assignment::CursorState;
use crate::attempt::begun;
use crate::attempt_talk::attempt_talk;
use crate::buffer::{CachedDrmFramebuffer, Slot};
use crate::compositor::{with_atomic_cursor, CompositorView, OutputMode, PreparedView};
use crate::core_state::CoreView;
use crate::effects::effect_regions_spec;
use crate::element::{Color32F, Element, OutputState, RenderingReason};
use crate::element_states::cleaned_up;
use crate::error::{DrmError, FrameError, OutputDamageTrackerError, RenderFrameError};
use crate::flags::FrameFlags;
use crate::frame_build::{
    fresh_frame, is_disabled, legacy_choice, swapchain_state, FrameStep, FrameView,
};
use crate::frame_finish::fallen_back;
use crate::frame_state::{all_tested, test_skippable, with_state};
use crate::geometry::Size;
use crate::legacy_attempt::LegacyAttempt;
use crate::legacy_cursor::{LegacyCursorAssignment, LegacyCursorState};
use crate::overlay_map::ids_cleaned;
use crate::plane::{PlaneAssignment, PlaneState};
use crate::prepared::{
    dropped_cursor_updates_are_empty, only_updates_cursors, outgoing, primary_element_spec,
    PreparedFrameKind, RenderFrameResult,
};
use crate::record::Exchange;
use crate::talk::{acquire_talk, legacy_talk, render_talk, test_talk};
use crate::visibility::{all_sighted, VisibleElement};

verus! {

/// What is left to do for a frame before it is complete.
pub open spec fn steps_left(view: FrameView) -> int {
    4 * (view.visible.len() - view.index) + (if view.disable_pending {
        2int
    } else {
        0
    }) + (if view.legacy_tried {
        0int
    } else {
        1
    })
}

// ---------------------------------------------------------------------------------------------
// Elements
// ---------------------------------------------------------------------------------------------

/// The compositor with the legacy cursor in another state.
pub open spec fn with_legacy<U>(
    compositor: CompositorView<U>,
    legacy: LegacyCursorState,
) -> CompositorView<U> {
    CompositorView {
        core: CoreView {
            cursor: Some(CursorState { legacy, ..compositor.core.cursor->0 }),
            ..compositor.core
        },
        ..compositor
    }
}

/// The attempt to show the current element as the legacy cursor.
pub open spec fn legacy_attempt(view: FrameView, core: CoreView) -> LegacyAttempt {
    LegacyAttempt::begin_spec(
        view.current().info,
        view.output,
        core.cursor_size,
        match core.cursor {
            Some(cursor) => Some(cursor.legacy),
            None => None,
        },
    )
}

/// Whether the next step of a frame in the making was taken: what it has to ask was asked, and the
/// answers decide how it goes on.
#[verifier::opaque]
pub open spec fn element_talk<U, A, B, F, R>(
    view: FrameView,
    compositor: CompositorView<U>,
    talk: Seq<Exchange<A, B, F, R>>,
    after: FrameView,
    after_compositor: CompositorView<U>,
) -> bool {
    match view.step() {
        FrameStep::DisableLegacyCursor => {
            &&& talk.len() == 1
            &&& talk[0] is DisableCursor
            &&& is_disabled(
                view,
                compositor.core,
                talk[0]->DisableCursor_answer is Ok,
                after,
                after_compositor.core,
            )
            &&& after_compositor == (CompositorView { core: after_compositor.core, ..compositor })
        },
        FrameStep::KeepLegacyCursor => talk.len() == 0 && after == view.shown()
            && after_compositor == compositor,
        FrameStep::TryLegacyCursor => if compositor.core.cursor is Some {
            exists|outcome: (LegacyCursorAssignment, bool), legacy: LegacyCursorState| #[trigger]
                legacy_talk(
                    legacy_attempt(view, compositor.core),
                    compositor.core.cursor->0.legacy,
                    talk,
                    outcome,
                    legacy,
                ) && after == view.after_legacy(with_legacy(compositor, legacy).core, outcome.0)
                    && after_compositor == (if outcome.1 {
                    with_atomic_cursor(with_legacy(compositor, legacy))
                } else {
                    with_legacy(compositor, legacy)
                })
        } else {
            talk.len() == 0 && after == view.after_legacy(
                compositor.core,
                LegacyCursorAssignment::Software,
            ) && after_compositor == compositor
        },
        FrameStep::AssignElement => exists|
            result: Result<PlaneAssignment, Option<RenderingReason>>,
            core: CoreView,
            frame: Seq<(u32, PlaneState)>,
        | #[trigger]
            attempt_talk(
                begun(
                    compositor.core,
                    view.frame,
                    view.context(compositor.core),
                    compositor.previous(),
                ),
                view.context(compositor.core),
                compositor.previous(),
                compositor.supports_fencing,
                talk,
                result,
                core,
                frame,
            ) && after == (FrameView { frame, ..view }).after_element(result) && after_compositor
                == (CompositorView { core, ..compositor }),
        FrameStep::TestFrame => false,
    }
}

/// Whether all elements of a frame in the making were looked at, one after the other.
#[verifier::opaque]
pub open spec fn assigning_talk<U, A, B, F, R>(
    view: FrameView,
    compositor: CompositorView<U>,
    talk: Seq<Exchange<A, B, F, R>>,
    after: FrameView,
    after_compositor: CompositorView<U>,
) -> bool
    decreases steps_left(view),
{
    if view.step() == FrameStep::TestFrame {
        talk.len() == 0 && after == view && after_compositor == compositor
    } else {
        exists|k: int, next: FrameView, next_compositor: CompositorView<U>|
            0 <= k <= talk.len() && 0 <= steps_left(next) < steps_left(view)
                && #[trigger] element_talk(view, compositor, talk.take(k), next, next_compositor)
                && assigning_talk(next, next_compositor, talk.skip(k), after, after_compositor)
    }
}

/// A step and those that follow make up the whole.
pub proof fn element_steps_add_up<U, A, B, F, R>(
    view: FrameView,
    compositor: CompositorView<U>,
    talk: Seq<Exchange<A, B, F, R>>,
    k: int,
    next: FrameView,
    next_compositor: CompositorView<U>,
    after: FrameView,
    after_compositor: CompositorView<U>,
)
    requires
        0 <= k <= talk.len(),
        0 <= steps_left(next) < steps_left(view),
        view.step() != FrameStep::TestFrame,
        element_talk(view, compositor, talk.take(k), next, next_compositor),
        assigning_talk(next, next_compositor, talk.skip(k), after, after_compositor),
    ensures
        assigning_talk(view, compositor, talk, after, after_compositor),
{
    reveal(assigning_talk);
}

/// A frame whose elements were all looked at asks nothing more about them.
pub proof fn complete_frames_ask_nothing<U, A, B, F, R>(
    view: FrameView,
    compositor: CompositorView<U>,
    talk: Seq<Exchange<A, B, F, R>>,
)
    requires
        view.step() == FrameStep::TestFrame,
        talk.len() == 0,
    ensures
        assigning_talk(view, compositor, talk, view, compositor),
{
    reveal(assigning_talk);
}

// ---------------------------------------------------------------------------------------------
// The complete frame
// ---------------------------------------------------------------------------------------------

/// The compositor once the states of elements are settled.
pub open spec fn with_settled_states<U>(
    compositor: CompositorView<U>,
    alive: Seq<u64>,
) -> CompositorView<U> {
    CompositorView {
        core: CoreView {
            states: cleaned_up(compositor.core.states, alive),
            previous_states: Map::empty(),
            ..compositor.core
        },
        ..compositor
    }
}

/// The frame after its final test.
pub open spec fn after_verdict(view: FrameView, core: CoreView, passed: bool) -> FrameView {
    if passed {
        FrameView { frame: all_tested(view.frame), ..view }
    } else {
        fallen_back(view, core)
    }
}

/// Whether the complete frame was put to the test, unless nothing in it can be refused: what was
/// refused is rendered.
pub open spec fn verdict_talk<A, B, F, R>(
    view: FrameView,
    core: CoreView,
    previous: Seq<(u32, PlaneState)>,
    supports_fencing: bool,
    talk: Seq<Exchange<A, B, F, R>>,
    after: FrameView,
) -> bool {
    if test_skippable(view.frame, previous, view.allow_partial_update) {
        talk.len() == 0 && after == after_verdict(view, core, true)
    } else {
        exists|frame: Seq<(u32, PlaneState)>, verdict: Result<(), DrmError>| #[trigger]
            test_talk(
                view.frame,
                frame,
                supports_fencing,
                view.allow_partial_update,
                false,
                talk,
                verdict,
            ) && after == after_verdict(FrameView { frame, ..view }, core, verdict is Ok)
    }
}

/// Whether the complete frame was put to the test, after it was found out which buffers there still
/// are. Ids of planes that are not used any more are forgotten.
#[verifier::opaque]
pub open spec fn settle_talk<U, A, B, F, R>(
    view: FrameView,
    compositor: CompositorView<U>,
    talk: Seq<Exchange<A, B, F, R>>,
    after: FrameView,
    after_compositor: CompositorView<U>,
) -> bool {
    let settled = with_settled_states(compositor, talk[0]->AliveBuffers_answer@);
    &&& talk.len() >= 1
    &&& talk[0] is AliveBuffers
    &&& verdict_talk(
        view,
        settled.core,
        compositor.previous(),
        compositor.supports_fencing,
        talk.skip(1),
        after,
    )
    &&& after_compositor == (CompositorView {
        plane_ids: ids_cleaned(compositor.plane_ids, compositor.previous(), after.frame),
        ..settled
    })
}

/// Whether a frame was made: its elements looked at, put to the test, and rendered where they have
/// to be.
#[verifier::opaque]
pub open spec fn making_talk<U, A, B, F, R>(
    view: FrameView,
    compositor: CompositorView<U>,
    talk: Seq<Exchange<A, B, F, R>>,
    after: FrameView,
    after_compositor: CompositorView<U>,
    result: Result<bool, RenderFrameError<A, B, F, R>>,
) -> bool {
    exists|
        i: int,
        j: int,
        placed: FrameView,
        placed_by: CompositorView<U>,
        tested: FrameView,
        tested_by: CompositorView<U>,
    |
        0 <= i <= j <= talk.len() && #[trigger] assigning_talk(
            view,
            compositor,
            talk.take(i),
            placed,
            placed_by,
        ) && #[trigger] settle_talk(placed, placed_by, talk.subrange(i, j), tested, tested_by)
            && render_talk(
            tested,
            after,
            tested_by.core,
            placed_by.previous(),
            tested_by.plane_ids,
            after_compositor.plane_ids,
            tested_by.debug_flags,
            talk.skip(j),
            result,
        ) && after_compositor == (CompositorView {
            plane_ids: after_compositor.plane_ids,
            ..tested_by
        })
}

// ---------------------------------------------------------------------------------------------
// Frames
// ---------------------------------------------------------------------------------------------

/// Whether a frame in the making is a new one for the elements.
pub open spec fn is_begun(
    view: FrameView,
    core: CoreView,
    previous: Seq<(u32, PlaneState)>,
    elements: Seq<Element>,
    output: OutputState,
    flags: FrameFlags,
    clear_color: Color32F,
    allow_partial_update: bool,
    primary_state: PlaneState,
) -> bool {
    let sighting = all_sighted(elements, output.geometry, clear_color);
    &&& legacy_choice(view, core)
    &&& view == (FrameView {
        output,
        flags,
        allow_partial_update,
        frame: with_state(fresh_frame(core, previous), core.primary.handle, primary_state),
        primary_state,
        visible: sighting.visible,
        states: sighting.states,
        clear_color: sighting.clear_color,
        effect_regions: effect_regions_spec(
            sighting.visible.map_values(
                |e: VisibleElement| (e.info.is_framebuffer_effect, e.info.geometry),
            ),
        ),
        disable_pending: view.disable_pending,
        legacy_index: view.legacy_index,
        legacy_cursor: None,
        legacy_tried: false,
        index: 0,
        primary_plane_elements: Seq::empty(),
        primary_scanout: None,
        overlay_elements: Seq::empty(),
        cursor_element: None,
    })
}

/// The frame to be queued.
pub open spec fn prepared_frame(view: FrameView, core: CoreView) -> PreparedView {
    PreparedView {
        frame: outgoing(view, core),
        kind: if view.allow_partial_update {
            PreparedFrameKind::Partial
        } else {
            PreparedFrameKind::Full
        },
    }
}

/// Whether the result tells what came of a frame.
pub open spec fn tells_of<U>(
    result: RenderFrameResult,
    view: FrameView,
    compositor: CompositorView<U>,
    was_rendered: bool,
) -> bool {
    &&& result.is_empty == prepared_frame(view, compositor.core).is_empty()
    &&& result.primary_element == primary_element_spec(view, compositor.core, was_rendered)
    &&& result.overlay_elements@ == Seq::new(
        view.overlay_elements.len(),
        |i: int| view.overlay_elements[i].1,
    )
    &&& result.cursor_element == view.cursor_element
    &&& result.legacy_cursor == view.legacy_cursor
    &&& result.states@ == view.states
    &&& result.primary_plane_element_id == compositor.primary_plane_element_id
    &&& result.supports_fencing == compositor.supports_fencing
}

/// A frame that would update nothing but cursor planes comes to nothing where that is asked for.
pub proof fn cursor_only_updates_come_to_nothing<U>(
    result: RenderFrameResult,
    view: FrameView,
    compositor: CompositorView<U>,
    was_rendered: bool,
)
    requires
        tells_of(result, view, compositor, was_rendered),
        view.flags.has_all(FrameFlags::SKIP_CURSOR_ONLY_UPDATES),
        view.allow_partial_update,
        only_updates_cursors(view.frame, compositor.core.planes.cursor@),
        forall|i: int, j: int|
            0 <= i < j < view.frame.len() ==> (#[trigger] view.frame[i]).0 != (
            #[trigger] view.frame[j]).0,
    ensures
        result.is_empty,
{
    dropped_cursor_updates_are_empty(view, compositor.core);
}

/// Whether a frame that was made is kept to be queued, unless it is empty, and the result tells what
/// came of it.
pub open spec fn is_concluded<U, A, B, F, R>(
    view: FrameView,
    compositor: CompositorView<U>,
    rendered: Result<bool, RenderFrameError<A, B, F, R>>,
    after: CompositorView<U>,
    result: Result<RenderFrameResult, RenderFrameError<A, B, F, R>>,
) -> bool {
    match rendered {
        Err(error) => result == Err::<RenderFrameResult, RenderFrameError<A, B, F, R>>(error)
            && after == compositor,
        Ok(was_rendered) => {
            &&& result is Ok
            &&& tells_of(result->Ok_0, view, compositor, was_rendered)
            &&& after == (if prepared_frame(view, compositor.core).is_empty() {
                compositor
            } else {
                CompositorView {
                    next: Some(prepared_frame(view, compositor.core)),
                    ..compositor
                }
            })
        },
    }
}

/// The compositor once there is a buffer for a new frame: the states of the elements in the last one
/// are put aside.
pub open spec fn with_turned_states<U>(compositor: CompositorView<U>) -> CompositorView<U> {
    CompositorView {
        core: CoreView {
            states: compositor.core.previous_states,
            previous_states: compositor.core.states,
            ..compositor.core
        },
        ..compositor
    }
}

/// What a frame is made of.
pub struct FrameOrder {
    pub elements: Seq<Element>,
    pub clear_color: Color32F,
    pub flags: FrameFlags,
    pub output: OutputState,
    pub allow_partial_update: bool,
}

/// Whether a frame was made in the buffer, after the primary plane was claimed for it.
#[verifier::opaque]
pub open spec fn claimed_talk<U, A, B, F, R>(
    compositor: CompositorView<U>,
    order: FrameOrder,
    buffer: (Slot, Size, CachedDrmFramebuffer),
    talk: Seq<Exchange<A, B, F, R>>,
    after: CompositorView<U>,
    result: Result<RenderFrameResult, RenderFrameError<A, B, F, R>>,
) -> bool {
    let claim = talk[0]->ClaimPlane_answer;
    &&& talk.len() >= 1
    &&& talk[0] is ClaimPlane
    &&& talk[0]->ClaimPlane_plane == compositor.core.primary.handle
    &&& if claim is None {
        &&& talk.len() == 1
        &&& result == Err::<RenderFrameResult, RenderFrameError<A, B, F, R>>(
            RenderFrameError::PrepareFrame(FrameError::PrimaryPlaneClaimFailed),
        )
        &&& after == (CompositorView {
            core: CoreView { states: Map::empty(), ..compositor.core },
            ..compositor
        })
    } else {
        exists|
            view: FrameView,
            done: FrameView,
            done_by: CompositorView<U>,
            rendered: Result<bool, RenderFrameError<A, B, F, R>>,
        |
            is_begun(
                view,
                compositor.core,
                compositor.previous(),
                order.elements,
                order.output,
                order.flags,
                order.clear_color,
                order.allow_partial_update,
                swapchain_state(buffer.0, buffer.2, buffer.1, order.output.size, claim->0),
            ) && #[trigger] making_talk(view, compositor, talk.skip(1), done, done_by, rendered)
                && is_concluded(done, done_by, rendered, after, result)
    }
}

/// Whether a frame was made in the buffer that was acquired for it.
pub open spec fn acquired_talk<U, A, B, F, R>(
    compositor: CompositorView<U>,
    order: FrameOrder,
    acquired: Result<(Slot, Size, CachedDrmFramebuffer), FrameError<A, B, F>>,
    talk: Seq<Exchange<A, B, F, R>>,
    after: CompositorView<U>,
    result: Result<RenderFrameResult, RenderFrameError<A, B, F, R>>,
) -> bool {
    match acquired {
        Err(error) => {
            &&& talk.len() == 0
            &&& result == Err::<RenderFrameResult, RenderFrameError<A, B, F, R>>(
                RenderFrameError::PrepareFrame(error),
            )
            &&& after == compositor
        },
        Ok(buffer) => claimed_talk(
            with_turned_states(compositor),
            order,
            buffer,
            talk,
            after,
            result,
        ),
    }
}

/// Whether a frame was rendered: the device is active and there is a mode, a buffer was acquired and
/// the primary plane claimed, and the frame was made as the answers of the device go.
#[verifier::opaque]
pub open spec fn frame_talk<U, A, B, F, R>(
    before: CompositorView<U>,
    elements: Seq<Element>,
    clear_color: Color32F,
    flags: FrameFlags,
    mode: Option<OutputMode>,
    talk: Seq<Exchange<A, B, F, R>>,
    after: CompositorView<U>,
    result: Result<RenderFrameResult, RenderFrameError<A, B, F, R>>,
) -> bool {
    let started = CompositorView { next: None, ..before };
    &&& talk.len() >= 2
    &&& talk[0] is IsActive
    &&& talk[1] is CommitPending
    &&& if !talk[0]->IsActive_answer {
        &&& talk.len() == 2
        &&& result == Err::<RenderFrameResult, RenderFrameError<A, B, F, R>>(
            RenderFrameError::PrepareFrame(FrameError::DrmError(DrmError::DeviceInactive)),
        )
        &&& after == before
    } else if mode is None {
        &&& talk.len() == 2
        &&& result == Err::<RenderFrameResult, RenderFrameError<A, B, F, R>>(
            RenderFrameError::RenderFrame(OutputDamageTrackerError::OutputNoMode),
        )
        &&& after == started
    } else {
        exists|
            k: int,
            acquired: Result<(Slot, Size, CachedDrmFramebuffer), FrameError<A, B, F>>,
        |
            2 <= k <= talk.len() && #[trigger] acquire_talk(
                before.primary_is_opaque,
                talk.subrange(2, k),
                acquired,
            ) && acquired_talk(
                started,
                FrameOrder {
                    elements,
                    clear_color,
                    flags,
                    output: mode->0.output_spec(),
                    allow_partial_update: !before.reset_pending && !talk[1]->CommitPending_answer,
                },
                acquired,
                talk.skip(k),
                after,
                result,
            )
    }
}

} // verus!
