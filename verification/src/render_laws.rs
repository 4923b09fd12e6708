//! What holds of a frame from its beginning to its result.

use vstd::prelude::*;
use crate::buffer::{CachedDrmFramebuffer, Slot};
use crate::compositor::{CompositorView, OutputMode, OutputModeSource};
use crate::core_state::CoreView;
use crate::element::{Color32F, Element};
use crate::error::{DrmError, FrameError, OutputDamageTrackerError, RenderFrameError};
use crate::flags::FrameFlags;
use crate::frame_build::{FrameStep, FrameView};
use crate::frame_finish::retreated;
use crate::frame_talk::{
    assigning_talk, claimed_talk, element_talk, frame_talk, is_begun, making_talk, prepared_frame,
    settle_talk, steps_left,
};
use crate::geometry::Size;
use crate::plane::PlaneState;
use crate::prepared::{all_skipped, PreparedFrameKind, RenderFrameResult};
use crate::record::Exchange;
use crate::talk::render_talk;

verus! {

/// Whether two views are of the same frame: for the same elements on the same output.
pub open spec fn same_order(a: FrameView, b: FrameView) -> bool {
    &&& a.allow_partial_update == b.allow_partial_update
    &&& a.visible == b.visible
    &&& a.output == b.output
    &&& a.flags == b.flags
    &&& a.clear_color == b.clear_color
}

proof fn lemma_assigning<U, A, B, F, R>(
    view: FrameView,
    compositor: CompositorView<U>,
    talk: Seq<Exchange<A, B, F, R>>,
    after: FrameView,
    after_compositor: CompositorView<U>,
)
    requires
        assigning_talk(view, compositor, talk, after, after_compositor),
        compositor.next is None,
    ensures
        same_order(view, after),
        after.step() == FrameStep::TestFrame,
        after_compositor.next is None,
        after_compositor.reset_pending == compositor.reset_pending,
        after_compositor.presentation_mode == compositor.presentation_mode,
        after_compositor.pending is None == compositor.pending is None,
        after_compositor.queued is None == compositor.queued is None,
        after_compositor.primary_plane_element_id == compositor.primary_plane_element_id,
        after_compositor.supports_fencing == compositor.supports_fencing,
    decreases steps_left(view),
{
    reveal(assigning_talk);
    if view.step() != FrameStep::TestFrame {
        let (k, next, next_compositor) = choose|
            k: int,
            next: FrameView,
            next_compositor: CompositorView<U>,
        |
            0 <= k <= talk.len() && 0 <= steps_left(next) < steps_left(view)
                && #[trigger] element_talk(view, compositor, talk.take(k), next, next_compositor)
                && assigning_talk(next, next_compositor, talk.skip(k), after, after_compositor);
        lemma_element(view, compositor, talk.take(k), next, next_compositor);
        lemma_assigning(next, next_compositor, talk.skip(k), after, after_compositor);
    }
}

proof fn lemma_element<U, A, B, F, R>(
    view: FrameView,
    compositor: CompositorView<U>,
    talk: Seq<Exchange<A, B, F, R>>,
    after: FrameView,
    after_compositor: CompositorView<U>,
)
    requires
        element_talk(view, compositor, talk, after, after_compositor),
        compositor.next is None,
    ensures
        same_order(view, after),
        after_compositor.next is None,
        after_compositor.reset_pending == compositor.reset_pending,
        after_compositor.presentation_mode == compositor.presentation_mode,
        after_compositor.pending is None == compositor.pending is None,
        after_compositor.queued is None == compositor.queued is None,
        after_compositor.primary_plane_element_id == compositor.primary_plane_element_id,
        after_compositor.supports_fencing == compositor.supports_fencing,
{
    reveal(element_talk);
}

proof fn lemma_retreat_order(view: FrameView, core: CoreView, upto: nat)
    ensures
        same_order(view, retreated(view, core, upto).view),
    decreases upto,
{
    if upto > 0 {
        lemma_retreat_order(view, core, (upto - 1) as nat);
    }
}

proof fn lemma_making<U, A, B, F, R>(
    view: FrameView,
    compositor: CompositorView<U>,
    talk: Seq<Exchange<A, B, F, R>>,
    after: FrameView,
    after_compositor: CompositorView<U>,
    result: Result<bool, RenderFrameError<A, B, F, R>>,
)
    requires
        making_talk(view, compositor, talk, after, after_compositor, result),
        compositor.next is None,
    ensures
        same_order(view, after),
        after_compositor.next is None,
        after_compositor.reset_pending == compositor.reset_pending,
        after_compositor.presentation_mode == compositor.presentation_mode,
        after_compositor.pending is None == compositor.pending is None,
        after_compositor.queued is None == compositor.queued is None,
        after_compositor.primary_plane_element_id == compositor.primary_plane_element_id,
        after_compositor.supports_fencing == compositor.supports_fencing,
{
    reveal(making_talk);
    reveal(settle_talk);
    reveal(render_talk);
    let (i, j, placed, placed_by, tested, tested_by) = choose|
        i: int,
        j: int,
        placed: FrameView,
        placed_by: CompositorView<U>,
        tested: FrameView,
        tested_by: CompositorView<U>,
    |
        0 <= i <= j <= talk.len() && #[trigger] assigning_talk(
            view,
            compositor,
            talk.take(i),
            placed,
            placed_by,
        ) && #[trigger] settle_talk(placed, placed_by, talk.subrange(i, j), tested, tested_by)
            && render_talk(
            tested,
            after,
            tested_by.core,
            placed_by.previous(),
            tested_by.plane_ids,
            after_compositor.plane_ids,
            tested_by.debug_flags,
            talk.skip(j),
            result,
        ) && after_compositor == (CompositorView {
            plane_ids: after_compositor.plane_ids,
            ..tested_by
        });
    lemma_assigning(view, compositor, talk.take(i), placed, placed_by);
    assert(same_order(placed, tested)) by {
        let settled = crate::frame_talk::with_settled_states(
            placed_by,
            talk.subrange(i, j)[0]->AliveBuffers_answer@,
        );
        assert forall|frame: Seq<(u32, PlaneState)>| same_order(
            placed,
            #[trigger] crate::frame_finish::fallen_back(FrameView { frame, ..placed }, settled.core),
        ) by {
            let v = FrameView { frame, ..placed };
            lemma_retreat_order(v, settled.core, v.frame.len());
        }
    }
}

/// Nothing is rendered on a device that is not active, or without a mode: nothing is asked but whether
/// that is so.
pub proof fn frames_need_a_device_and_a_mode<U, A, B, F, R>(
    before: CompositorView<U>,
    elements: Seq<Element>,
    clear_color: Color32F,
    flags: FrameFlags,
    mode: Option<OutputMode>,
    talk: Seq<Exchange<A, B, F, R>>,
    after: CompositorView<U>,
    result: Result<RenderFrameResult, RenderFrameError<A, B, F, R>>,
)
    requires
        frame_talk(before, elements, clear_color, flags, mode, talk, after, result),
    ensures
        talk.len() >= 2 && talk[0] is IsActive && talk[1] is CommitPending,
        !talk[0]->IsActive_answer || mode is None ==> talk.len() == 2 && result is Err,
        !talk[0]->IsActive_answer ==> after == before && result == Err::<
            RenderFrameResult,
            RenderFrameError<A, B, F, R>,
        >(RenderFrameError::PrepareFrame(FrameError::DrmError(DrmError::DeviceInactive))),
        talk[0]->IsActive_answer && mode is None ==> result == Err::<
            RenderFrameResult,
            RenderFrameError<A, B, F, R>,
        >(RenderFrameError::RenderFrame(OutputDamageTrackerError::OutputNoMode)),
{
    reveal(frame_talk);
}

/// A frame names all planes if and only if a reset is pending or the device has changes to commit, and
/// such a frame is never empty. What is not empty is kept to be queued, and nothing else is; what was
/// kept before is gone. The reset itself stays pending, and the frames on their way stay on their way.
pub proof fn rendered_frames_wait_to_be_queued<U, A, B, F, R>(
    before: CompositorView<U>,
    elements: Seq<Element>,
    clear_color: Color32F,
    flags: FrameFlags,
    mode: Option<OutputMode>,
    talk: Seq<Exchange<A, B, F, R>>,
    after: CompositorView<U>,
    result: Result<RenderFrameResult, RenderFrameError<A, B, F, R>>,
)
    requires
        frame_talk(before, elements, clear_color, flags, mode, talk, after, result),
    ensures
        result matches Ok(told) ==> {
            let names_all = before.reset_pending || talk[1]->CommitPending_answer;
            &&& names_all ==> !told.is_empty
            &&& told.is_empty <==> after.next is None
            &&& after.next matches Some(frame) ==> (frame.kind == PreparedFrameKind::Full
                <==> names_all)
            &&& after.next matches Some(frame) ==> (names_all || exists|i: int|
                0 <= i < frame.frame.len() && !(#[trigger] frame.frame[i]).1.skip)
            &&& told.primary_plane_element_id == before.primary_plane_element_id
            &&& told.supports_fencing == before.supports_fencing
        },
        result is Err && talk[0]->IsActive_answer ==> after.next is None,
        after.reset_pending == before.reset_pending,
        after.presentation_mode == before.presentation_mode,
        after.pending is None == before.pending is None,
        after.queued is None == before.queued is None,
{
    reveal(frame_talk);
    if talk[0]->IsActive_answer && mode is Some {
        let started = CompositorView { next: None, ..before };
        let order = crate::frame_talk::FrameOrder {
            elements,
            clear_color,
            flags,
            output: mode->0.output_spec(),
            allow_partial_update: !before.reset_pending && !talk[1]->CommitPending_answer,
        };
        let (k, acquired) = choose|
            k: int,
            acquired: Result<(Slot, Size, CachedDrmFramebuffer), FrameError<A, B, F>>,
        |
            2 <= k <= talk.len() && #[trigger] crate::talk::acquire_talk(
                before.primary_is_opaque,
                talk.subrange(2, k),
                acquired,
            ) && crate::frame_talk::acquired_talk(
                started,
                order,
                acquired,
                talk.skip(k),
                after,
                result,
            );
        if let Ok(buffer) = acquired {
            lemma_claimed(
                crate::frame_talk::with_turned_states(started),
                order,
                buffer,
                talk.skip(k),
                after,
                result,
            );
        }
    }
}

proof fn lemma_claimed<U, A, B, F, R>(
    compositor: CompositorView<U>,
    order: crate::frame_talk::FrameOrder,
    buffer: (Slot, Size, CachedDrmFramebuffer),
    talk: Seq<Exchange<A, B, F, R>>,
    after: CompositorView<U>,
    result: Result<RenderFrameResult, RenderFrameError<A, B, F, R>>,
)
    requires
        claimed_talk(compositor, order, buffer, talk, after, result),
        compositor.next is None,
    ensures
        result matches Ok(told) ==> {
            &&& !order.allow_partial_update ==> !told.is_empty
            &&& told.is_empty <==> after.next is None
            &&& after.next matches Some(frame) ==> (frame.kind == PreparedFrameKind::Full
                <==> !order.allow_partial_update)
            &&& after.next matches Some(frame) ==> (!order.allow_partial_update || exists|i: int|
                0 <= i < frame.frame.len() && !(#[trigger] frame.frame[i]).1.skip)
            &&& told.primary_plane_element_id == compositor.primary_plane_element_id
            &&& told.supports_fencing == compositor.supports_fencing
        },
        result is Err ==> after.next is None,
        after.reset_pending == compositor.reset_pending,
        after.presentation_mode == compositor.presentation_mode,
        after.pending is None == compositor.pending is None,
        after.queued is None == compositor.queued is None,
{
    reveal(claimed_talk);
    let claim = talk[0]->ClaimPlane_answer;
    if claim is Some {
        let (view, done, done_by, rendered) = choose|
            view: FrameView,
            done: FrameView,
            done_by: CompositorView<U>,
            rendered: Result<bool, RenderFrameError<A, B, F, R>>,
        |
            is_begun(
                view,
                compositor.core,
                compositor.previous(),
                order.elements,
                order.output,
                order.flags,
                order.clear_color,
                order.allow_partial_update,
                crate::frame_build::swapchain_state(
                    buffer.0,
                    buffer.2,
                    buffer.1,
                    order.output.size,
                    claim->0,
                ),
            ) && #[trigger] making_talk(view, compositor, talk.skip(1), done, done_by, rendered)
                && crate::frame_talk::is_concluded(done, done_by, rendered, after, result);
        lemma_making(view, compositor, talk.skip(1), done, done_by, rendered);
        if rendered is Ok {
            let prepared = prepared_frame(done, done_by.core);
            if !prepared.is_empty() && order.allow_partial_update {
                assert(!all_skipped(prepared.frame));
            }
        }
    }
}

/// Two sources give the same mode if they follow the same output, or give the same size, scale and
/// transform.
pub proof fn sources_are_told_apart(
    a: OutputMode,
    b: OutputMode,
    followed: u64,
    other: u64,
)
    ensures
        OutputModeSource::Auto(followed).same_spec(OutputModeSource::Auto(other)) <==> followed
            == other,
        !OutputModeSource::Auto(followed).same_spec(OutputModeSource::Static(a)),
        !OutputModeSource::Static(a).same_spec(OutputModeSource::Auto(followed)),
        OutputModeSource::Static(a).same_spec(OutputModeSource::Static(b)) ==> a.size == b.size
            && a.transform == b.transform && a.scale.x.same_spec(b.scale.x) && a.scale.y.same_spec(
            b.scale.y,
        ),
        !a.scale.x.is_nan_spec() && !a.scale.y.is_nan_spec() ==> OutputModeSource::Static(
            a,
        ).same_spec(OutputModeSource::Static(a)),
{
}

} // verus!
