//! Rendering frames and putting them on the screen.

use vstd::prelude::*;
use crate::attempt::begun;
use crate::attempt_laws::{allowed_assignment, shows_on_or_tested};
use crate::attempt_talk::attempt_talk;
use crate::buffer::{CachedDrmFramebuffer, ScanoutBuffer, Slot};
use crate::compositor::{CompositorView, DrmCompositor, FrameStart, OutputMode};
use crate::core_state::{same_planes, CoreView};
use crate::device::{Device, RenderFailure, RenderOutput};
use crate::driver::test_frame;
use crate::element::{Color32F, Element, OutputState, RenderingReason};
use crate::element_driver::try_assign_element;
use crate::error::{DrmError, FrameError, OutputDamageTrackerError, RenderFrameError};
use crate::flags::FrameFlags;
use crate::frame_account::{
    dropped_legacy_cursors_keep_frames_tidy, failed_legacy_cursors_keep_frames_tidy,
    fenced_frames_are_tidy, legacy_cursors_keep_frames_tidy, more_planes_keep_frames_tidy, new_frames_are_tidy, passed_frames_are_settled,
    refused_frames_are_settled, rendering_keeps_frames_settled, result_holds, results_hold,
    searches_keep_frames_tidy, settled, settling_is_about_elements, tidiness_is_about_planes, tidy,
};
use crate::frame_build::{composable, primary_swapchain_state, FrameRender, FrameStep, FrameView};
use crate::frame_finish::{
    damage_report_spec, is_rendered, rendered_state, retreated, stand_ins, DamageReport,
};
use crate::frame_laws::{
    attempts_keep_frames_going, more_planes_keep_the_primary_plane, new_frames_show_the_swapchain,
    primary_kept, searches_keep_the_primary_plane, tests_keep_the_primary_plane,
};
use crate::frame_state::{
    adding_known_planes_changes_nothing, fenced, fences_change_nothing_else,
    set_state_changes_one_plane, state_of, test_skippable, with_planes, with_state, FrameState,
};
use crate::frame_talk::{
    acquired_talk, after_verdict, assigning_talk, claimed_talk, complete_frames_ask_nothing,
    element_steps_add_up, element_talk, frame_talk, legacy_attempt, making_talk, prepared_frame,
    settle_talk, steps_left, tells_of, verdict_talk, with_legacy, with_settled_states,
    with_turned_states, FrameOrder,
};
use crate::geometry::{Rectangle, Size};
use crate::legacy_cursor::LegacyCursorAssignment;
use crate::legacy_driver::try_assign_legacy_cursor;
use crate::overlay_map::ids_cleaned;
use crate::placement_laws::{
    disable_refused, dropped_legacy_cursors_keep_to_the_rules, legacy_by_rule,
    new_frames_are_placed_by_rule, placed_by_rule, refusals_stay, refusals_take_nothing_back,
    refused_frames_keep_to_the_rules, result_by_rule, results_keep_to_the_rules,
    rules_are_about_elements, searches_place_by_rule,
};
use crate::plane::{PlaneAssignment, PlaneProperties, PlaneState};
use crate::prepared::{outgoing, primary_settled, PreparedFrameKind, RenderFrameResult};
use crate::record::{goes_on, record_is_what_was_said, records_add_up, since, Exchange, Recorded};
use crate::talk::{
    acquire_talk, drawn_talk, id_talk, ids_given, legacy_talk, render_talk, rendered_talk,
    shown_slot, test_talk,
};
use crate::visibility::{all_sighted, Sighting};

verus! {

/// Whether a frame is another one, maybe with the cursor planes added.
pub open spec fn maybe_with_planes(
    before: Seq<(u32, PlaneState)>,
    after: Seq<(u32, PlaneState)>,
    core: CoreView,
) -> bool {
    after == before || after == with_planes(before, core.planes.cursor@)
}

/// Whether two states of a compositor are of the same hardware.
pub open spec fn same_hardware(a: CoreView, b: CoreView) -> bool {
    &&& a.planes == b.planes
    &&& a.primary == b.primary
    &&& a.formats == b.formats
    &&& a.cursor_size == b.cursor_size
    &&& a.signaled_fence == b.signaled_fence
    &&& a.cursor.is_some() == b.cursor.is_some()
    &&& a.policy == b.policy || !a.policy.reserves_spec()
}

/// What the making of a frame leaves alone: everything but what is known about elements, the
/// cursor, and the cursor planes going over to atomic frames.
pub open spec fn only_frame_work<U>(before: CompositorView<U>, after: CompositorView<U>) -> bool {
    &&& same_hardware(after.core, before.core)
    &&& after.output_mode_source == before.output_mode_source
    &&& after.primary_is_opaque == before.primary_is_opaque
    &&& after.primary_plane_element_id == before.primary_plane_element_id
    &&& after.supports_fencing == before.supports_fencing
    &&& after.reset_pending == before.reset_pending
    &&& after.presentation_mode == before.presentation_mode
    &&& after.debug_flags == before.debug_flags
    &&& maybe_with_planes(before.current, after.current, before.core)
    &&& match (before.pending, after.pending) {
        (Some(b), Some(a)) => maybe_with_planes(b.0, a.0, before.core) && a.1 == b.1 && a.2 == b.2,
        (None, None) => true,
        _ => false,
    }
    &&& match (before.queued, after.queued) {
        (Some(b), Some(a)) => maybe_with_planes(b.0.frame, a.0.frame, before.core) && a.0.kind
            == b.0.kind && a.1 == b.1,
        (None, None) => true,
        _ => false,
    }
}

/// Whether a frame in the making keeps everything where it may be.
pub open spec fn keeps_to_the_rules(before: FrameView, after: FrameView) -> bool {
    placed_by_rule(before) ==> placed_by_rule(after) && forall|refused: bool| #[trigger]
        legacy_by_rule(before, refused) ==> legacy_by_rule(after, refused)
}

/// What is seen of the elements on an output of the mode.
pub open spec fn sighting(
    elements: Seq<Element>,
    mode: Option<OutputMode>,
    clear_color: Color32F,
) -> Sighting {
    all_sighted(elements, mode->0.output_spec().geometry, clear_color)
}

/// Whether anything had to be rendered for a frame.
pub open spec fn was_made<A, B, F, R>(
    completed: Result<(FrameState, bool), RenderFrameError<A, B, F, R>>,
) -> Result<bool, RenderFrameError<A, B, F, R>> {
    match completed {
        Ok((previous, was_rendered)) => Ok(was_rendered),
        Err(error) => Err(error),
    }
}

proof fn lemma_frame_work_is_nothing<U>(a: CompositorView<U>)
    ensures
        only_frame_work(a, a),
{
}

/// A search for a plane is a step of the frame.
proof fn lemma_searched<U, A, B, F, R>(
    view: FrameView,
    compositor: CompositorView<U>,
    previous: Seq<(u32, PlaneState)>,
    talk: Seq<Exchange<A, B, F, R>>,
    result: Result<PlaneAssignment, Option<RenderingReason>>,
    core: CoreView,
    frame: Seq<(u32, PlaneState)>,
    after: FrameView,
    after_compositor: CompositorView<U>,
)
    requires
        view.step() == FrameStep::AssignElement,
        previous == compositor.previous(),
        attempt_talk(
            begun(compositor.core, view.frame, view.context(compositor.core), previous),
            view.context(compositor.core),
            previous,
            compositor.supports_fencing,
            talk,
            result,
            core,
            frame,
        ),
        after == (FrameView { frame, ..view }).after_element(result),
        after_compositor == (CompositorView { core, ..compositor }),
    ensures
        element_talk(view, compositor, talk, after, after_compositor),
{
    reveal(element_talk);
}

/// What was refused in a part was refused.
proof fn lemma_refused_parts<A, B, F, R>(talk: Seq<Exchange<A, B, F, R>>, k: int)
    requires
        0 <= k <= talk.len(),
    ensures
        disable_refused(talk.take(k)) ==> disable_refused(talk),
        disable_refused(talk.skip(k)) ==> disable_refused(talk),
{
    assert(talk.take(k) =~= talk.subrange(0, k));
    assert(talk.skip(k) =~= talk.subrange(k, talk.len() as int));
    if disable_refused(talk.take(k)) {
        refusals_stay(talk, 0, k);
    }
    if disable_refused(talk.skip(k)) {
        refusals_stay(talk, k, talk.len() as int);
    }
}

/// The parts of the making of a frame make the whole.
proof fn lemma_made<U, A, B, F, R>(
    started: Seq<Exchange<A, B, F, R>>,
    assigned: Seq<Exchange<A, B, F, R>>,
    settled: Seq<Exchange<A, B, F, R>>,
    end: Seq<Exchange<A, B, F, R>>,
    view: FrameView,
    compositor: CompositorView<U>,
    placed: FrameView,
    placed_by: CompositorView<U>,
    tested: FrameView,
    tested_by: CompositorView<U>,
    after: FrameView,
    after_compositor: CompositorView<U>,
    result: Result<bool, RenderFrameError<A, B, F, R>>,
)
    requires
        goes_on(started, assigned),
        goes_on(assigned, settled),
        goes_on(settled, end),
        assigning_talk(view, compositor, since(started, assigned), placed, placed_by),
        settle_talk(placed, placed_by, since(assigned, settled), tested, tested_by),
        render_talk(
            tested,
            after,
            tested_by.core,
            placed_by.previous(),
            tested_by.plane_ids,
            after_compositor.plane_ids,
            tested_by.debug_flags,
            since(settled, end),
            result,
        ),
        after_compositor == (CompositorView {
            plane_ids: after_compositor.plane_ids,
            ..tested_by
        }),
    ensures
        goes_on(started, end),
        making_talk(view, compositor, since(started, end), after, after_compositor, result),
{
    reveal(making_talk);
    records_add_up(started, assigned, settled);
    records_add_up(started, settled, end);
    let talk = since(started, end);
    let i = (assigned.len() - started.len()) as int;
    let j = (settled.len() - started.len()) as int;
    assert(talk.take(i) =~= since(started, assigned));
    assert(talk.subrange(i, j) =~= since(assigned, settled));
    assert(talk.skip(j) =~= since(settled, end));
}

proof fn lemma_frame_work_adds_up<U>(
    a: CompositorView<U>,
    b: CompositorView<U>,
    c: CompositorView<U>,
)
    requires
        only_frame_work(a, b),
        only_frame_work(b, c),
    ensures
        only_frame_work(a, c),
{
    let planes = a.core.planes.cursor@;
    adding_known_planes_changes_nothing(a.current, planes);
    if let Some(p) = a.pending {
        adding_known_planes_changes_nothing(p.0, planes);
    }
    if let Some(q) = a.queued {
        adding_known_planes_changes_nothing(q.0.frame, planes);
    }
}

/// What holds of a frame in the making between two steps: it can go on, the primary plane shows
/// something, and the legacy cursor it presents is the one that is installed.
pub open spec fn frame_in_order(view: FrameView, core: CoreView) -> bool {
    &&& view.wf(core)
    &&& primary_kept(view, core)
    &&& view.primary_state.buffer_spec() matches Some(buffer) && buffer.buffer is Swapchain
    &&& view.disable_pending ==> core.cursor.is_some()
    &&& view.legacy_cursor matches Some(presentation) ==> (core.cursor matches Some(cursor)
        && cursor.legacy.active_presentation_spec() == Some(presentation))
}

/// Whether two views are of a frame for the same elements and the same purpose.
pub open spec fn same_purpose(a: FrameView, b: FrameView) -> bool {
    a.flags == b.flags && a.allow_partial_update == b.allow_partial_update && a.visible
        == b.visible && a.output == b.output && a.primary_state == b.primary_state && a.clear_color
        == b.clear_color
}

impl<U> DrmCompositor<U> {
    /// Shows the current element as the legacy cursor.
    fn present_legacy_cursor<A, B, F, R, D: Device<A, B, F, R>>(
        &mut self,
        device: &mut Recorded<A, B, F, R, D>,
        frame: &mut FrameRender,
    ) -> (released: bool)
        requires
            frame_in_order(old(frame)@, old(self)@.core),
            old(frame)@.step() == FrameStep::TryLegacyCursor,
            tidy(old(frame)@, old(self)@.core),
        ensures
            frame_in_order(final(frame)@, final(self)@.core),
            tidy(final(frame)@, final(self)@.core),
            only_frame_work(old(self)@, final(self)@),
            old(self)@.next is None ==> final(self)@.next is None,
            !released ==> final(self)@.previous() == old(self)@.previous(),
            same_purpose(final(frame)@, old(frame)@),
            0 <= steps_left(final(frame)@) < steps_left(old(frame)@),
            goes_on(old(device).log(), final(device).log()),
            element_talk(
                old(frame)@,
                old(self)@,
                since(old(device).log(), final(device).log()),
                final(frame)@,
                final(self)@,
            ),
            keeps_to_the_rules(old(frame)@, final(frame)@),
    {
        let attempt = frame.try_legacy_cursor(&self.core);
        let ghost started = device.log();
        let mut assignment = LegacyCursorAssignment::Software;
        let mut released = false;
        if let Some(cursor) = &self.core.cursor {
            let mut updated = *cursor;
            let outcome = try_assign_legacy_cursor(device, attempt, &mut updated.legacy);
            assignment = outcome.0;
            released = outcome.1;
            self.core.cursor = Some(updated);
        }
        let ghost middle = self@;
        proof {
            lemma_still_in_order(old(frame)@, old(self)@.core, middle.core);
            more_planes_keep_the_primary_plane(old(frame)@, middle.core);
        }
        frame.legacy_done(&self.core, assignment);
        if released {
            self.enable_atomic_cursor_planes();
        }
        proof {
            lemma_still_in_order(frame@, middle.core, self@.core);
            lemma_legacy_tidy(old(frame)@, old(self)@.core, middle.core, self@.core, assignment);
            if placed_by_rule(old(frame)@) {
                rules_are_about_elements(old(frame)@, frame@);
            }
            reveal(element_talk);
            let talk = since(started, device.log());
            assert(attempt == legacy_attempt(old(frame)@, old(self)@.core));
            if old(self)@.core.cursor is Some {
                let legacy = middle.core.cursor->0.legacy;
                assert(middle =~= with_legacy(old(self)@, legacy));
                assert(legacy_talk(
                    attempt,
                    old(self)@.core.cursor->0.legacy,
                    talk,
                    (assignment, released),
                    legacy,
                ));
            } else {
                assert(talk.len() == 0);
                assert(middle =~= old(self)@);
            }
        }
        released
    }

    /// Looks for a plane for the current element.
    fn assign_current<A, B, F, R, D: Device<A, B, F, R>>(
        &mut self,
        device: &mut Recorded<A, B, F, R, D>,
        frame: &mut FrameRender,
        previous: &FrameState,
    )
        requires
            frame_in_order(old(frame)@, old(self)@.core),
            old(frame)@.step() == FrameStep::AssignElement,
            tidy(old(frame)@, old(self)@.core),
            previous@ == old(self)@.previous(),
        ensures
            frame_in_order(final(frame)@, final(self)@.core),
            tidy(final(frame)@, final(self)@.core),
            only_frame_work(old(self)@, final(self)@),
            final(self)@ == (CompositorView { core: final(self)@.core, ..old(self)@ }),
            same_purpose(final(frame)@, old(frame)@),
            0 <= steps_left(final(frame)@) < steps_left(old(frame)@),
            goes_on(old(device).log(), final(device).log()),
            element_talk(
                old(frame)@,
                old(self)@,
                since(old(device).log(), final(device).log()),
                final(frame)@,
                final(self)@,
            ),
            keeps_to_the_rules(old(frame)@, final(frame)@),
    {
        let ctx = frame.context(&self.core);
        proof {
            let view = frame@;
            assert(view.visible[view.index as int] == view.current());
        }
        let supports_fencing = self.supports_fencing;
        let result = try_assign_element(
            device,
            ctx,
            &mut self.core,
            &mut frame.frame,
            previous,
            supports_fencing,
        );
        proof {
            let base = choose|base: Seq<(u32, PlaneState)>| #[trigger]
                fenced(old(frame)@.frame, base) && match result {
                    Ok(assignment) => allowed_assignment(self@.core, base, ctx, assignment)
                        && shows_on_or_tested(
                        frame@.frame,
                        base,
                        ctx,
                        assignment.handle,
                        assignment.type_ == crate::plane::PlaneType::Cursor,
                    ),
                    Err(_) => frame@.frame == base,
                };
            assert(frame@ =~= (FrameView { frame: frame@.frame, ..old(frame)@ }));
            lemma_same_planes_keep_order(old(frame)@, frame@, old(self)@.core, self@.core);
            searches_keep_the_primary_plane(
                old(frame)@,
                frame@,
                base,
                ctx,
                self@.core,
                result,
            );
            tidiness_is_about_planes(old(frame)@, old(self)@.core, self@.core);
            searches_keep_frames_tidy(
                old(frame)@,
                frame@,
                base,
                ctx,
                self@.core,
                result,
            );
            if placed_by_rule(old(frame)@) {
                searches_place_by_rule(
                    old(frame)@,
                    frame@.frame,
                    base,
                    ctx,
                    old(self)@.core,
                    self@.core,
                    result,
                );
            }
        }
        let ghost searched = frame@;
        frame.element_done(&self.core, result);
        proof {
            assert(self@ =~= (CompositorView { core: self@.core, ..old(self)@ }));
            lemma_searched(
                old(frame)@,
                old(self)@,
                previous@,
                since(old(device).log(), device.log()),
                result,
                self@.core,
                searched.frame,
                frame@,
                self@,
            );
        }
    }

    /// Takes the legacy cursor off before a frame that does not show it.
    fn drop_legacy_cursor<A, B, F, R, D: Device<A, B, F, R>>(
        &mut self,
        device: &mut Recorded<A, B, F, R, D>,
        frame: &mut FrameRender,
    )
        requires
            frame_in_order(old(frame)@, old(self)@.core),
            old(frame)@.step() == FrameStep::DisableLegacyCursor,
            tidy(old(frame)@, old(self)@.core),
        ensures
            frame_in_order(final(frame)@, final(self)@.core),
            tidy(final(frame)@, final(self)@.core),
            only_frame_work(old(self)@, final(self)@),
            final(self)@ == (CompositorView { core: final(self)@.core, ..old(self)@ }),
            same_purpose(final(frame)@, old(frame)@),
            0 <= steps_left(final(frame)@) < steps_left(old(frame)@),
            goes_on(old(device).log(), final(device).log()),
            element_talk(
                old(frame)@,
                old(self)@,
                since(old(device).log(), final(device).log()),
                final(frame)@,
                final(self)@,
            ),
            placed_by_rule(old(frame)@) ==> placed_by_rule(final(frame)@) && legacy_by_rule(
                final(frame)@,
                disable_refused(since(old(device).log(), final(device).log())),
            ),
    {
        let answer = device.disable_cursor();
        let disabled = answer.is_ok();
        frame.disabled(&mut self.core, disabled);
        proof {
            let next = Exchange::<A, B, F, R>::DisableCursor { answer };
            assert(device.log() =~= old(device).log() + seq![next]);
            record_is_what_was_said(old(device).log(), seq![next]);
            let talk = since(old(device).log(), device.log());
            assert(talk[0] == next);
            assert(self@ =~= (CompositorView { core: self@.core, ..old(self)@ }));
            reveal(element_talk);
            if placed_by_rule(old(frame)@) {
                dropped_legacy_cursors_keep_to_the_rules(
                    old(frame)@,
                    old(self)@.core,
                    disabled,
                    frame@,
                    self@.core,
                );
                if !disabled {
                    assert(talk[0] is DisableCursor && talk[0]->DisableCursor_answer is Err);
                    assert(disable_refused(talk));
                }
            }
            tidiness_is_about_planes(old(frame)@, old(self)@.core, self@.core);
            dropped_legacy_cursors_keep_frames_tidy(old(frame)@, frame@, self@.core);
        }
        assert(self@ =~= (CompositorView { core: self@.core, ..old(self)@ }));
    }

    /// Takes the next step of a frame in the making. Tells whether the cursor planes went over to
    /// atomic frames.
    fn take_step<A, B, F, R, D: Device<A, B, F, R>>(
        &mut self,
        device: &mut Recorded<A, B, F, R, D>,
        frame: &mut FrameRender,
        previous: &FrameState,
    ) -> (released: bool)
        requires
            frame_in_order(old(frame)@, old(self)@.core),
            tidy(old(frame)@, old(self)@.core),
            old(frame)@.step() != FrameStep::TestFrame,
            previous@ == old(self)@.previous(),
        ensures
            frame_in_order(final(frame)@, final(self)@.core),
            tidy(final(frame)@, final(self)@.core),
            only_frame_work(old(self)@, final(self)@),
            old(self)@.next is None ==> final(self)@.next is None,
            !released ==> final(self)@.previous() == old(self)@.previous(),
            same_purpose(final(frame)@, old(frame)@),
            0 <= steps_left(final(frame)@) < steps_left(old(frame)@),
            goes_on(old(device).log(), final(device).log()),
            element_talk(
                old(frame)@,
                old(self)@,
                since(old(device).log(), final(device).log()),
                final(frame)@,
                final(self)@,
            ),
            placed_by_rule(old(frame)@) ==> placed_by_rule(final(frame)@),
            placed_by_rule(old(frame)@) ==> forall|refused: bool| #[trigger]
                legacy_by_rule(old(frame)@, refused) ==> legacy_by_rule(
                    final(frame)@,
                    refused || disable_refused(since(old(device).log(), final(device).log())),
                ),
    {
        match frame.step() {
            FrameStep::DisableLegacyCursor => {
                self.drop_legacy_cursor(device, frame);
                false
            },
            FrameStep::TryLegacyCursor => self.present_legacy_cursor(device, frame),
            FrameStep::AssignElement => {
                self.assign_current(device, frame, previous);
                false
            },
            _ => {
                proof {
                    let presentation = frame@.legacy_cursor->0;
                    legacy_cursors_keep_frames_tidy(frame@, self@.core, presentation);
                    assert(frame@.shown() =~= (FrameView {
                        legacy_cursor: Some(presentation),
                        ..frame@.shown()
                    }));
                    if placed_by_rule(frame@) {
                        rules_are_about_elements(frame@, frame@.shown());
                    }
                    reveal(element_talk);
                    assert(since(old(device).log(), device.log()).len() == 0);
                    lemma_frame_work_is_nothing(self@);
                }
                frame.keep_legacy_cursor(&self.core);
                false
            },
        }
    }

    /// Finds out how each visible element is shown. Hands back the frame that the new one follows.
    fn assign_elements<A, B, F, R, D: Device<A, B, F, R>>(
        &mut self,
        device: &mut Recorded<A, B, F, R, D>,
        frame: &mut FrameRender,
        previous: FrameState,
    ) -> (r: FrameState)
        requires
            frame_in_order(old(frame)@, old(self)@.core),
            tidy(old(frame)@, old(self)@.core),
            previous@ == old(self)@.previous(),
        ensures
            frame_in_order(final(frame)@, final(self)@.core),
            tidy(final(frame)@, final(self)@.core),
            final(frame)@.step() == FrameStep::TestFrame,
            only_frame_work(old(self)@, final(self)@),
            old(self)@.next is None ==> final(self)@.next is None,
            r@ == final(self)@.previous(),
            same_purpose(final(frame)@, old(frame)@),
            goes_on(old(device).log(), final(device).log()),
            assigning_talk(
                old(frame)@,
                old(self)@,
                since(old(device).log(), final(device).log()),
                final(frame)@,
                final(self)@,
            ),
            placed_by_rule(old(frame)@) ==> placed_by_rule(final(frame)@),
            placed_by_rule(old(frame)@) ==> forall|refused: bool| #[trigger]
                legacy_by_rule(old(frame)@, refused) ==> legacy_by_rule(
                    final(frame)@,
                    refused || disable_refused(since(old(device).log(), final(device).log())),
                ),
        decreases steps_left(old(frame)@),
    {
        let ghost started = device.log();
        let ghost before = self@;
        if frame.step() == FrameStep::TestFrame {
            proof {
                let talk = since(started, device.log());
                assert(talk.len() == 0);
                complete_frames_ask_nothing(frame@, self@, talk);
                lemma_frame_work_is_nothing(self@);
            }
            return previous;
        }
        let released = self.take_step(device, frame, &previous);
        let previous = if released {
            self.previous_frame().duplicate()
        } else {
            previous
        };
        let ghost stepped = device.log();
        let ghost next = frame@;
        let ghost next_by = self@;
        let r = self.assign_elements(device, frame, previous);
        proof {
            lemma_frame_work_adds_up(before, next_by, self@);
            records_add_up(started, stepped, device.log());
            let talk = since(started, device.log());
            let k = since(started, stepped).len() as int;
            assert(talk.take(k) =~= since(started, stepped));
            assert(talk.skip(k) =~= since(stepped, device.log()));
            element_steps_add_up(old(frame)@, before, talk, k, next, next_by, frame@, self@);
            lemma_refused_parts(talk, k);
            if placed_by_rule(old(frame)@) {
                let first = disable_refused(talk.take(k));
                let second = disable_refused(talk.skip(k));
                assert forall|refused: bool| #[trigger]
                    legacy_by_rule(old(frame)@, refused) implies legacy_by_rule(
                    frame@,
                    refused || disable_refused(talk),
                ) by {
                    assert(legacy_by_rule(next, refused || first));
                    assert(legacy_by_rule(frame@, refused || first || second));
                }
            }
        }
        r
    }

    /// Puts the complete frame to the test, and forgets what is no longer needed.
    fn settle_frame<A, B, F, R, D: Device<A, B, F, R>>(
        &mut self,
        device: &mut Recorded<A, B, F, R, D>,
        frame: &mut FrameRender,
        previous: &FrameState,
    )
        requires
            frame_in_order(old(frame)@, old(self)@.core),
            old(frame)@.step() == FrameStep::TestFrame,
            tidy(old(frame)@, old(self)@.core),
            previous@ == old(self)@.previous(),
        ensures
            frame_in_order(final(frame)@, final(self)@.core),
            settled(final(frame)@, final(self)@.core),
            only_frame_work(old(self)@, final(self)@),
            final(self)@.next == old(self)@.next,
            final(self)@.previous() == old(self)@.previous(),
            same_purpose(final(frame)@, old(frame)@),
            goes_on(old(device).log(), final(device).log()),
            settle_talk(
                old(frame)@,
                old(self)@,
                since(old(device).log(), final(device).log()),
                final(frame)@,
                final(self)@,
            ),
            keeps_to_the_rules(old(frame)@, final(frame)@),
    {
        let ghost started = device.log();
        let alive = device.alive_buffers();
        let ghost first = Exchange::<A, B, F, R>::AliveBuffers { answer: alive };
        let ghost asked = device.log();
        self.settle_states(&alive);
        let ghost settled = self@;
        proof {
            assert(asked =~= started + seq![first]);
            record_is_what_was_said(started, seq![first]);
            assert(settled =~= with_settled_states(old(self)@, alive@));
            lemma_still_in_order(frame@, old(self)@.core, self@.core);
            tidiness_is_about_planes(frame@, old(self)@.core, self@.core);
        }
        let mut passed = true;
        let ghost mut verdict: Result<(), DrmError> = Ok(());
        if !frame.skips_test(previous) {
            let ghost before = frame@;
            let allow_partial_update = frame.allow_partial_update;
            let answer = test_frame(
                device,
                &mut frame.frame,
                self.supports_fencing,
                allow_partial_update,
                false,
            );
            passed = answer.is_ok();
            proof {
                verdict = answer;
                assert(frame@ =~= (FrameView { frame: frame@.frame, ..before }));
                fences_change_nothing_else(before.frame, frame@.frame, self@.core.primary.handle);
                fenced_frames_are_tidy(before, frame@.frame, self@.core);
            }
        }
        proof {
            tests_keep_the_primary_plane(frame@, self@.core);
            lemma_fallback_purpose(frame@, self@.core, frame@.frame.len());
            passed_frames_are_settled(frame@, self@.core);
            refused_frames_are_settled(frame@, self@.core);
        }
        let ghost tested = frame@;
        frame.complete_test(&self.core, passed);
        proof {
            if placed_by_rule(old(frame)@) {
                rules_are_about_elements(old(frame)@, tested);
                if passed {
                    rules_are_about_elements(tested, frame@);
                } else {
                    refused_frames_keep_to_the_rules(tested, self@.core);
                }
            } else {
                lemma_fallback_purpose(tested, self@.core, tested.frame.len());
            }
        }
        self.overlay_plane_element_ids.forget_unused(previous, &frame.frame);
        proof {
            records_add_up(started, asked, device.log());
            let talk = since(started, device.log());
            let rest = since(asked, device.log());
            assert(talk[0] == first);
            assert(talk.skip(1) =~= rest);
            assert(self@ =~= (CompositorView {
                plane_ids: ids_cleaned(old(self)@.plane_ids, previous@, frame@.frame),
                ..settled
            }));
            assert(frame@ == after_verdict(tested, settled.core, passed));
            assert(verdict_talk(
                old(frame)@,
                settled.core,
                old(self)@.previous(),
                old(self)@.supports_fencing,
                rest,
                frame@,
            )) by {
                if test_skippable(
                    old(frame)@.frame,
                    previous@,
                    old(frame)@.allow_partial_update,
                ) {
                    assert(rest.len() == 0);
                } else {
                    assert(tested =~= (FrameView { frame: tested.frame, ..old(frame)@ }));
                    assert(test_talk(
                        old(frame)@.frame,
                        tested.frame,
                        old(self)@.supports_fencing,
                        old(frame)@.allow_partial_update,
                        false,
                        rest,
                        verdict,
                    ));
                }
            }
            reveal(settle_talk);
        }
    }

    /// Renders what has to be rendered. Tells whether anything had to. Reports of the renderer that
    /// name an element twice, or more pixels than can be counted, are not taken in.
    fn render_primary<A, B, F, R, D: Device<A, B, F, R>>(
        &mut self,
        device: &mut Recorded<A, B, F, R, D>,
        frame: &mut FrameRender,
        previous: &FrameState,
    ) -> (r: Result<bool, RenderFrameError<A, B, F, R>>)
        requires
            frame_in_order(old(frame)@, old(self)@.core),
            settled(old(frame)@, old(self)@.core),
        ensures
            only_frame_work(old(self)@, final(self)@),
            r is Ok ==> settled(final(frame)@, final(self)@.core),
            goes_on(old(device).log(), final(device).log()),
            render_talk(
                old(frame)@,
                final(frame)@,
                old(self)@.core,
                previous@,
                old(self)@.plane_ids,
                final(self)@.plane_ids,
                old(self)@.debug_flags,
                since(old(device).log(), final(device).log()),
                r,
            ),
            final(self)@ == (CompositorView { plane_ids: final(self)@.plane_ids, ..old(self)@ }),
            r matches Err(RenderFrameError::PrepareFrame(error)) ==> error is AsDmabufError,
            r matches Ok(was_rendered) ==> primary_settled(
                final(frame)@,
                final(self)@.core,
                was_rendered,
            ) && same_purpose(final(frame)@, old(frame)@) && final(frame)@.legacy_cursor
                == old(frame)@.legacy_cursor,
            r is Ok ==> keeps_to_the_rules(old(frame)@, final(frame)@),
    {
        let handle: u32 = self.core.primary.handle;
        let ghost start = device.log();
        let mut slot: Option<Slot> = None;
        if let Some(state) = frame.frame.plane_state(handle) {
            if let Some(config) = state.config {
                if let ScanoutBuffer::Swapchain(shown) = config.buffer.buffer {
                    slot = Some(shown);
                }
            }
        }
        let slot = match slot {
            Some(slot) => slot,
            None => {
                device.cleanup_textures();
                proof {
                    reveal(render_talk);
                    let talk = seq![Exchange::<A, B, F, R>::CleanupTextures];
                    assert(device.log() =~= start + talk);
                    record_is_what_was_said(start, talk);
                }
                return Ok(false);
            },
        };
        let exported = device.export_slot(slot);
        let ghost first = Exchange::<A, B, F, R>::ExportSlot { slot, answer: exported };
        proof {
            assert(device.log() =~= start + seq![first]);
            record_is_what_was_said(start, seq![first]);
        }
        if let Err(error) = exported {
            proof {
                reveal(render_talk);
            }
            return Err(RenderFrameError::PrepareFrame(FrameError::AsDmabufError(error)));
        }
        let ghost ready = device.log();
        let n: usize = frame.overlay_elements.list().len();
        let fresh = take_ids(device, n);
        let ghost numbered = device.log();
        let plane_elements = frame.plane_elements(
            &self.core,
            &mut self.overlay_plane_element_ids,
            &fresh,
        );
        let ghost given = since(ready, numbered);
        proof {
            records_add_up(start, ready, numbered);
            assert(since(start, numbered) == seq![first] + given);
        }
        let rendered = device.render(
            slot,
            &plane_elements,
            &frame.primary_plane_elements,
            &frame.visible,
            frame.clear_color,
            self.debug_flags,
        );
        let ghost call = Exchange::<A, B, F, R>::Render {
            slot,
            plane_elements: plane_elements@,
            elements: frame.primary_plane_elements@,
            visible: frame.visible@,
            clear_color: frame.clear_color,
            debug_flags: self.debug_flags,
            answer: rendered,
        };
        let ghost called = device.log();
        proof {
            assert(called =~= numbered + seq![call]);
            record_is_what_was_said(numbered, seq![call]);
            records_add_up(start, numbered, called);
        }
        let output = match rendered {
            Ok(output) => output,
            Err(RenderFailure::Bind(error)) => {
                proof {
                    lemma_render_talk(
                        start,
                        device.log(),
                        old(frame)@,
                        frame@,
                        self@.core,
                        previous@,
                        old(self)@.plane_ids,
                        self@.plane_ids,
                        self@.debug_flags,
                        first,
                        given,
                        seq![call],
                        Err::<bool, RenderFrameError<A, B, F, R>>(
                            RenderFrameError::RenderFrame(OutputDamageTrackerError::Rendering(error)),
                        ),
                    );
                }
                return Err(
                    RenderFrameError::RenderFrame(OutputDamageTrackerError::Rendering(error)),
                );
            },
            Err(RenderFailure::Render(error)) => {
                device.reset_buffers();
                proof {
                    let rest = seq![call, Exchange::<A, B, F, R>::ResetBuffers];
                    assert(device.log() =~= numbered + rest);
                    record_is_what_was_said(numbered, rest);
                    records_add_up(start, numbered, device.log());
                    lemma_render_talk(
                        start,
                        device.log(),
                        old(frame)@,
                        frame@,
                        self@.core,
                        previous@,
                        old(self)@.plane_ids,
                        self@.plane_ids,
                        self@.debug_flags,
                        first,
                        given,
                        rest,
                        Err::<bool, RenderFrameError<A, B, F, R>>(
                            RenderFrameError::RenderFrame(error),
                        ),
                    );
                }
                return Err(RenderFrameError::RenderFrame(error));
            },
        };
        let ghost answered = output;
        self.take_in(device, frame, previous, output);
        proof {
            let told = since(called, device.log());
            records_add_up(numbered, called, device.log());
            records_add_up(start, numbered, device.log());
            let rest = seq![call] + told;
            assert(rest.skip(1) =~= told);
            assert(since(numbered, device.log()) == rest);
            lemma_render_talk(
                start,
                device.log(),
                old(frame)@,
                frame@,
                self@.core,
                previous@,
                old(self)@.plane_ids,
                self@.plane_ids,
                self@.debug_flags,
                first,
                given,
                rest,
                Ok::<bool, RenderFrameError<A, B, F, R>>(true),
            );
            lemma_taken_in(old(frame)@, frame@, handle, previous@, self@.plane_ids, answered, told);
            rendering_keeps_frames_settled(old(frame)@, frame@, self@.core);
            if placed_by_rule(old(frame)@) {
                rules_are_about_elements(old(frame)@, frame@);
            }
        }
        Ok(true)
    }

    /// Takes in what the renderer did. Reports that name an element twice, or more pixels than can
    /// be counted, are left out.
    fn take_in<A, B, F, R, D: Device<A, B, F, R>>(
        &self,
        device: &mut Recorded<A, B, F, R, D>,
        frame: &mut FrameRender,
        previous: &FrameState,
        output: RenderOutput,
    )
        requires
            is_rendered(old(frame)@.frame, self@.core.primary.handle),
        ensures
            goes_on(old(device).log(), final(device).log()),
            rendered_talk(
                old(frame)@,
                final(frame)@,
                self@.core.primary.handle,
                previous@,
                self@.plane_ids,
                output,
                since(old(device).log(), final(device).log()),
            ),
    {
        let handle: u32 = self.core.primary.handle;
        let mut properties: Option<PlaneProperties> = None;
        if let Some(state) = frame.frame.plane_state(handle) {
            if let Some(config) = state.config {
                properties = Some(config.properties);
            }
        }
        let ghost mut talk = Seq::<Exchange<A, B, F, R>>::empty();
        assert(device.log() =~= old(device).log() + talk);
        if !output.has_damage {
            device.cleanup_textures();
            proof {
                talk = talk.push(Exchange::CleanupTextures);
                assert(device.log() =~= old(device).log() + talk);
            }
        }
        if frame.can_merge(&output.states) {
            frame.merge_states(&self.overlay_plane_element_ids, &output.states);
        }
        let report = frame.damage_report(&self.core, previous, output.has_damage);
        let mut clips: Option<u64> = None;
        if report != DamageReport::Nothing {
            if let Some(properties) = properties {
                clips = device.report_damage(
                    report,
                    properties.src,
                    properties.dst,
                    frame.output.geometry,
                    frame.output.transform,
                );
                proof {
                    talk = talk.push(
                        Exchange::ReportDamage {
                            report,
                            src: properties.src,
                            dst: properties.dst,
                            output: frame.output.geometry,
                            transform: frame.output.transform,
                            answer: clips,
                        },
                    );
                    assert(device.log() =~= old(device).log() + talk);
                }
            }
        }
        frame.rendered(&self.core, previous, report, clips, output.sync);
        proof {
            record_is_what_was_said(old(device).log(), talk);
        }
    }

    /// Takes a frame from its beginning to the end: the elements are placed, the frame is tested, and
    /// what is left is rendered. Hands back the frame that the new one follows, and whether anything
    /// had to be rendered.
    fn complete_frame<A, B, F, R, D: Device<A, B, F, R>>(
        &mut self,
        device: &mut Recorded<A, B, F, R, D>,
        frame: &mut FrameRender,
    ) -> (r: Result<(FrameState, bool), RenderFrameError<A, B, F, R>>)
        requires
            frame_in_order(old(frame)@, old(self)@.core),
            tidy(old(frame)@, old(self)@.core),
            old(self)@.next is None,
            placed_by_rule(old(frame)@),
            legacy_by_rule(old(frame)@, false),
        ensures
            final(self)@.core.wf(),
            only_frame_work(old(self)@, final(self)@),
            final(self)@.next is None,
            goes_on(old(device).log(), final(device).log()),
            making_talk(
                old(frame)@,
                old(self)@,
                since(old(device).log(), final(device).log()),
                final(frame)@,
                final(self)@,
                was_made(r),
            ),
            r matches Err(RenderFrameError::PrepareFrame(error)) ==> error is AsDmabufError,
            r matches Ok((previous, was_rendered)) ==> {
                &&& primary_settled(final(frame)@, final(self)@.core, was_rendered)
                &&& settled(final(frame)@, final(self)@.core)
                &&& same_purpose(final(frame)@, old(frame)@)
                &&& placed_by_rule(final(frame)@)
                &&& legacy_by_rule(
                    final(frame)@,
                    disable_refused(since(old(device).log(), final(device).log())),
                )
                &&& final(frame)@.legacy_cursor matches Some(presentation) ==> (
                final(self)@.core.cursor matches Some(cursor)
                    && cursor.legacy.active_presentation_spec() == Some(presentation))
            },
    {
        let ghost started = device.log();
        let previous = self.previous_frame().duplicate();
        let previous = self.assign_elements(device, frame, previous);
        let ghost assigned = device.log();
        let ghost placed = self@;
        let ghost placed_frame = frame@;
        self.settle_frame(device, frame, &previous);
        proof {
            lemma_frame_work_adds_up(old(self)@, placed, self@);
        }
        let ghost settled = device.log();
        let ghost tested = self@;
        let ghost tested_frame = frame@;
        let rendered = self.render_primary(device, frame, &previous);
        proof {
            lemma_frame_work_adds_up(old(self)@, tested, self@);
            lemma_made(
                started,
                assigned,
                settled,
                device.log(),
                old(frame)@,
                old(self)@,
                placed_frame,
                placed,
                tested_frame,
                tested,
                frame@,
                self@,
                rendered,
            );
            let talk = since(started, device.log());
            let first = since(started, assigned);
            assert(legacy_by_rule(placed_frame, false || disable_refused(first)));
            records_add_up(started, assigned, device.log());
            assert(talk.subrange(0, first.len() as int) =~= first);
            if disable_refused(first) {
                refusals_stay(talk, 0, first.len() as int);
            }
        }
        match rendered {
            Ok(was_rendered) => Ok((previous, was_rendered)),
            Err(error) => Err(error),
        }
    }

    /// Hands out what came of a frame, and keeps the frame unless it is empty.
    fn conclude(&mut self, frame: FrameRender, was_rendered: bool) -> (r: RenderFrameResult)
        requires
            primary_settled(frame@, old(self)@.core, was_rendered),
            settled(frame@, old(self)@.core),
            old(self)@.next is None,
        ensures
            final(self)@ == (CompositorView { next: final(self)@.next, ..old(self)@ }),
            r.is_empty == final(self)@.next is None,
            !frame@.allow_partial_update ==> !r.is_empty,
            final(self)@.next matches Some(prepared) ==> {
                &&& !prepared.is_empty()
                &&& prepared.kind == (if frame@.allow_partial_update {
                    PreparedFrameKind::Partial
                } else {
                    PreparedFrameKind::Full
                })
                &&& result_holds(
                    prepared.frame,
                    old(self)@.core,
                    frame@.visible,
                    r,
                )
            },
            r.primary_plane_element_id == old(self)@.primary_plane_element_id,
            r.supports_fencing == old(self)@.supports_fencing,
            r.legacy_cursor == frame@.legacy_cursor,
            tells_of(r, frame@, old(self)@, was_rendered),
            final(self)@ == (if prepared_frame(frame@, old(self)@.core).is_empty() {
                old(self)@
            } else {
                CompositorView {
                    next: Some(prepared_frame(frame@, old(self)@.core)),
                    ..old(self)@
                }
            }),
            result_holds(
                outgoing(frame@, old(self)@.core),
                old(self)@.core,
                frame@.visible,
                r,
            ),
    {
        let ghost finished = frame@;
        let (prepared, result) = frame.finish(
            &self.core,
            was_rendered,
            self.primary_plane_element_id,
            self.supports_fencing,
        );
        proof {
            results_hold(finished, self@.core, was_rendered, result);
        }
        assert(prepared@ =~= prepared_frame(finished, self@.core));
        self.keep_frame(prepared);
        result
    }

    /// A buffer of the swapchain with its extent and its framebuffer, which is made if there is none
    /// for it yet.
    fn acquire_buffer<A, B, F, R, D: Device<A, B, F, R>>(&self, device: &mut Recorded<A, B, F, R, D>) -> (r: Result<
        (Slot, Size, CachedDrmFramebuffer),
        FrameError<A, B, F>,
    >)
        ensures
            goes_on(old(device).log(), final(device).log()),
            acquire_talk(
                self@.primary_is_opaque,
                since(old(device).log(), final(device).log()),
                r,
            ),
            r matches Err(error) ==> error is Allocator || error is NoFreeSlotsError
                || error is AsDmabufError || error is FramebufferExport || error is NoFramebuffer,
    {
        let ghost start = device.log();
        let acquired = device.acquire();
        let ghost first = Exchange::<A, B, F, R>::Acquire { answer: acquired };
        let slot = match FrameError::acquired(acquired) {
            Ok(slot) => slot,
            Err(error) => {
                proof {
                    reveal(acquire_talk);
                    assert(device.log() =~= start + seq![first]);
                    record_is_what_was_said(start, seq![first]);
                }
                return Err(error);
            },
        };
        let exported = device.export_slot(slot);
        let ghost second = Exchange::<A, B, F, R>::ExportSlot { slot, answer: exported };
        let size = match exported {
            Ok(size) => size,
            Err(error) => {
                proof {
                    reveal(acquire_talk);
                    assert(device.log() =~= start + seq![first, second]);
                    record_is_what_was_said(start, seq![first, second]);
                    assert(seq![first, second].skip(1) =~= seq![second]);
                }
                return Err(FrameError::AsDmabufError(error));
            },
        };
        let kept = device.slot_framebuffer(slot);
        let ghost third = Exchange::<A, B, F, R>::SlotFramebuffer { slot, answer: kept };
        if let Some(fb) = kept {
            proof {
                reveal(acquire_talk);
                assert(device.log() =~= start + seq![first, second, third]);
                record_is_what_was_said(start, seq![first, second, third]);
                assert(seq![first, second, third].skip(1) =~= seq![second, third]);
            }
            return Ok((slot, size, fb));
        }
        let added = device.add_slot_framebuffer(slot, self.primary_is_opaque);
        let ghost fourth = Exchange::<A, B, F, R>::AddSlotFramebuffer {
            slot,
            use_opaque: self.primary_is_opaque,
            answer: added,
        };
        let fb = match FrameError::framebuffer(added) {
            Ok(fb) => fb,
            Err(error) => {
                proof {
                    reveal(acquire_talk);
                    let talk = seq![first, second, third, fourth];
                    assert(device.log() =~= start + talk);
                    record_is_what_was_said(start, talk);
                    assert(talk.skip(1) =~= seq![second, third, fourth]);
                    assert(talk.skip(1).skip(2) =~= seq![fourth]);
                }
                return Err(error);
            },
        };
        device.keep_slot_framebuffer(slot, fb);
        proof {
            reveal(acquire_talk);
            let fifth = Exchange::<A, B, F, R>::KeepSlotFramebuffer { slot, fb };
            let talk = seq![first, second, third, fourth, fifth];
            assert(device.log() =~= start + talk);
            record_is_what_was_said(start, talk);
            assert(talk.skip(1) =~= seq![second, third, fourth, fifth]);
            assert(talk.skip(1).skip(2) =~= seq![fourth, fifth]);
        }
        Ok((slot, size, fb))
    }

    /// Render the next frame
    ///
    /// - `elements` for this frame in front-to-back order
    /// - `frame_flags` specifies techniques allowed to realize the frame
    /// - `mode` is what the mode source says
    ///
    /// Whatever the device answers, a frame that is kept to be queued changes something, and one is
    /// kept exactly if the result says that it is not empty. While a reset is due it is never empty
    /// and names all planes. It shows what the result says: each element that is said to be on a plane
    /// is, and no visible element goes missing where nothing is rendered. The legacy cursor that the
    /// result tells of is the one that is installed. The frames that are shown, on their way or queued
    /// stay as they are, but for cursor planes that go over to atomic frames.
    #[verifier::rlimit(40)]
    pub fn render_frame<A, B, F, R, D: Device<A, B, F, R>>(
        &mut self,
        device: &mut Recorded<A, B, F, R, D>,
        elements: &Vec<Element>,
        clear_color: Color32F,
        frame_flags: FrameFlags,
        mode: Option<OutputMode>,
    ) -> (r: Result<RenderFrameResult, RenderFrameError<A, B, F, R>>)
        requires
            old(self)@.core.wf(),
            mode matches Some(mode) ==> composable(
                elements@,
                mode.output_spec(),
                old(self)@.core,
            ),
        ensures
            final(self)@.core.wf(),
            only_frame_work(old(self)@, final(self)@),
            mode is None ==> r is Err,
            goes_on(old(device).log(), final(device).log()),
            frame_talk(
                old(self)@,
                elements@,
                clear_color,
                frame_flags,
                mode,
                since(old(device).log(), final(device).log()),
                final(self)@,
                r,
            ),
            !since(old(device).log(), final(device).log())[0]->IsActive_answer <==> (r matches Err(
                RenderFrameError::PrepareFrame(FrameError::DrmError(_)),
            )),
            match r {
                Ok(result) => {
                    &&& result.is_empty == final(self)@.next is None
                    &&& old(self)@.reset_pending ==> !result.is_empty
                    &&& final(self)@.next matches Some(prepared) ==> {
                        &&& !prepared.is_empty()
                        &&& old(self)@.reset_pending ==> prepared.kind == PreparedFrameKind::Full
                    }
                    &&& exists|frame: Seq<(u32, PlaneState)>|
                        #[trigger]
                        result_holds(
                            frame,
                            final(self)@.core,
                            sighting(elements@, mode, clear_color).visible,
                            result,
                        ) && (final(self)@.next matches Some(prepared) ==> prepared.frame == frame)
                    &&& result_by_rule(
                        sighting(elements@, mode, clear_color).visible,
                        mode->0.output_spec(),
                        sighting(elements@, mode, clear_color).clear_color,
                        frame_flags,
                        result,
                        disable_refused(since(old(device).log(), final(device).log())),
                    )
                    &&& result.primary_plane_element_id == old(self)@.primary_plane_element_id
                    &&& result.supports_fencing == old(self)@.supports_fencing
                    &&& result.legacy_cursor matches Some(presentation) ==> (
                    final(self)@.core.cursor matches Some(cursor)
                        && cursor.legacy.active_presentation_spec() == Some(presentation))
                },
                Err(RenderFrameError::PrepareFrame(FrameError::DrmError(error))) => error
                    == DrmError::DeviceInactive && final(self)@ == old(self)@,
                Err(_) => final(self)@.next is None,
            },
    {
        let ghost log = device.log();
        let is_active = device.is_active();
        let commit_pending = device.commit_pending();
        let ghost opening = seq![
            Exchange::<A, B, F, R>::IsActive { answer: is_active },
            Exchange::<A, B, F, R>::CommitPending { answer: commit_pending },
        ];
        let ghost opened = device.log();
        proof {
            assert(opened =~= log + opening);
            record_is_what_was_said(log, opening);
            reveal(frame_talk);
        }
        let start = match self.start_frame(is_active, commit_pending, mode) {
            Ok(start) => start,
            Err(error) => {
                return Err(error);
            },
        };
        let ghost order = FrameOrder {
            elements: elements@,
            clear_color,
            flags: frame_flags,
            output: start.output,
            allow_partial_update: start.allow_partial_update,
        };
        let acquired = self.acquire_buffer(device);
        let ghost supplied = device.log();
        proof {
            records_add_up(log, opened, supplied);
        }
        let (slot, size, fb) = match acquired {
            Ok(buffer) => buffer,
            Err(error) => {
                proof {
                    let talk = since(log, supplied);
                    assert(talk.subrange(2, talk.len() as int) =~= since(opened, supplied));
                    assert(talk.skip(talk.len() as int).len() == 0);
                    assert(talk[0] == opening[0] && talk[1] == opening[1]);
                }
                return Err(RenderFrameError::PrepareFrame(error));
            },
        };
        let ghost unturned = self@;
        let r = self.make_frame(device, elements, slot, size, fb, start, clear_color, frame_flags);
        proof {
            lemma_frame_work_is_nothing(old(self)@);
            let talk = since(log, device.log());
            let k = (supplied.len() - log.len()) as int;
            records_add_up(log, opened, device.log());
            records_add_up(opened, supplied, device.log());
            assert(talk[0] == opening[0] && talk[1] == opening[1]);
            assert(talk.subrange(2, k) =~= since(opened, supplied));
            assert(talk.skip(k) =~= since(supplied, device.log()));
            assert(acquired_talk(unturned, order, acquired, talk.skip(k), self@, r));
            assert(talk.subrange(k, talk.len() as int) =~= talk.skip(k));
            if disable_refused(talk.skip(k)) {
                refusals_stay(talk, k, talk.len() as int);
            }
            if r is Ok {
                let seen = sighting(elements@, mode, clear_color);
                assert(seen == all_sighted(elements@, start.output.geometry, clear_color));
                refusals_take_nothing_back(
                    seen.visible,
                    start.output,
                    seen.clear_color,
                    frame_flags,
                    r->Ok_0,
                    disable_refused(talk.skip(k)),
                    disable_refused(talk),
                );
            }
        }
        r
    }

    /// Makes a frame in the buffer that was acquired for it.
    #[verifier::rlimit(40)]
    fn make_frame<A, B, F, R, D: Device<A, B, F, R>>(
        &mut self,
        device: &mut Recorded<A, B, F, R, D>,
        elements: &Vec<Element>,
        slot: Slot,
        size: Size,
        fb: CachedDrmFramebuffer,
        start: FrameStart,
        clear_color: Color32F,
        frame_flags: FrameFlags,
    ) -> (r: Result<RenderFrameResult, RenderFrameError<A, B, F, R>>)
        requires
            old(self)@.core.wf(),
            old(self)@.next is None,
            composable(elements@, start.output, old(self)@.core),
        ensures
            final(self)@.core.wf(),
            only_frame_work(old(self)@, final(self)@),
            goes_on(old(device).log(), final(device).log()),
            claimed_talk(
                with_turned_states(old(self)@),
                FrameOrder {
                    elements: elements@,
                    clear_color,
                    flags: frame_flags,
                    output: start.output,
                    allow_partial_update: start.allow_partial_update,
                },
                (slot, size, fb),
                since(old(device).log(), final(device).log()),
                final(self)@,
                r,
            ),
            match r {
                Ok(result) => {
                    let sighting = all_sighted(elements@, start.output.geometry, clear_color);
                    &&& result.is_empty == final(self)@.next is None
                    &&& !start.allow_partial_update ==> !result.is_empty
                    &&& final(self)@.next matches Some(prepared) ==> {
                        &&& !prepared.is_empty()
                        &&& !start.allow_partial_update ==> prepared.kind
                            == PreparedFrameKind::Full
                    }
                    &&& exists|frame: Seq<(u32, PlaneState)>|
                        #[trigger]
                        result_holds(frame, final(self)@.core, sighting.visible, result) && (
                        final(self)@.next matches Some(prepared) ==> prepared.frame == frame)
                    &&& result_by_rule(
                        sighting.visible,
                        start.output,
                        sighting.clear_color,
                        frame_flags,
                        result,
                        disable_refused(since(old(device).log(), final(device).log())),
                    )
                    &&& result.primary_plane_element_id == old(self)@.primary_plane_element_id
                    &&& result.supports_fencing == old(self)@.supports_fencing
                    &&& result.legacy_cursor matches Some(presentation) ==> (
                    final(self)@.core.cursor matches Some(cursor)
                        && cursor.legacy.active_presentation_spec() == Some(presentation))
                },
                Err(RenderFrameError::PrepareFrame(error)) => error is PrimaryPlaneClaimFailed
                    || error is AsDmabufError,
                Err(_) => true,
            },
            r is Err ==> final(self)@.next is None,
    {
        let ghost log = device.log();
        self.turn_states();
        let ghost turned = self@;
        let claim = device.claim_plane(self.core.primary.handle);
        let ghost first = Exchange::<A, B, F, R>::ClaimPlane {
            plane: self@.core.primary.handle,
            answer: claim,
        };
        let ghost claimed = device.log();
        proof {
            assert(claimed =~= log + seq![first]);
            record_is_what_was_said(log, seq![first]);
            reveal(claimed_talk);
        }
        let plane_claim: u64 = match self.primary_claimed(claim) {
            Ok(claim) => claim,
            Err(error) => {
                return Err(RenderFrameError::PrepareFrame(error));
            },
        };
        let primary_state = primary_swapchain_state(
            slot,
            fb,
            size,
            start.output.size,
            plane_claim,
        );
        let mut effect_regions: Vec<(usize, Rectangle)> = Vec::new();
        std::mem::swap(&mut effect_regions, &mut self.effect_regions_workhouse);
        proof {
            lemma_still_composable(elements@, start.output, old(self)@.core, self@.core);
            assert(self@ =~= turned);
        }
        let mut frame = FrameRender::begin(
            &self.core,
            self.previous_frame(),
            elements,
            start.output,
            frame_flags,
            clear_color,
            start.allow_partial_update,
            primary_state,
            effect_regions,
        );
        let ghost begun = frame@;
        proof {
            new_frames_show_the_swapchain(frame@, self@.core, self@.previous());
            new_frames_are_tidy(frame@, self@.core, self@.previous());
            new_frames_are_placed_by_rule(frame@, self@.core);
        }
        let completed = self.complete_frame(device, &mut frame);
        let ghost complete = frame@;
        let ghost completed_by = self@;
        let ghost rendered = was_made(completed);
        proof {
            lemma_frame_work_adds_up(old(self)@, turned, self@);
            records_add_up(log, claimed, device.log());
            let talk = since(log, device.log());
            assert(talk[0] == first);
            assert(talk.skip(1) =~= since(claimed, device.log()));
            assert(making_talk(begun, turned, talk.skip(1), complete, completed_by, rendered));
            assert(talk.subrange(1, talk.len() as int) =~= talk.skip(1));
            if disable_refused(talk.skip(1)) {
                refusals_stay(talk, 1, talk.len() as int);
            }
        }
        std::mem::swap(&mut frame.effect_regions, &mut self.effect_regions_workhouse);
        assert(self@ =~= completed_by);
        let was_rendered = match completed {
            Ok(completed) => completed.1,
            Err(error) => {
                return Err(error);
            },
        };
        proof {
            settling_is_about_elements(complete, frame@, self@.core);
        }
        let ghost ended = frame@;
        let result = self.conclude(frame, was_rendered);
        proof {
            assert(outgoing(ended, completed_by.core) == outgoing(complete, completed_by.core));
            assert(tells_of(result, complete, completed_by, was_rendered));
            results_keep_to_the_rules(
                complete,
                result,
                was_rendered,
                disable_refused(since(log, device.log())),
            );
        }
        Ok(result)
    }
}

/// Takes as many ids as asked for.
fn take_ids<A, B, F, R, D: Device<A, B, F, R>>(
    device: &mut Recorded<A, B, F, R, D>,
    n: usize,
) -> (r: Vec<u64>)
    ensures
        goes_on(old(device).log(), final(device).log()),
        ({
            let talk = since(old(device).log(), final(device).log());
            talk.len() == n && id_talk(talk) && r@ == ids_given(talk)
        }),
{
    let mut fresh: Vec<u64> = Vec::new();
    let ghost mut talk = Seq::<Exchange<A, B, F, R>>::empty();
    assert(device.log() =~= old(device).log() + talk);
    assert(fresh@ =~= ids_given(talk));
    let mut i: usize = 0;
    while i < n
        invariant
            i <= n,
            talk.len() == i,
            device.log() == old(device).log() + talk,
            id_talk(talk),
            fresh@ == ids_given(talk),
        decreases n - i,
    {
        let id: u64 = device.fresh_id();
        fresh.push(id);
        proof {
            talk = talk.push(Exchange::FreshId { answer: id });
            assert(device.log() =~= old(device).log() + talk);
            assert(fresh@ =~= ids_given(talk));
        }
        i = i + 1;
    }
    proof {
        record_is_what_was_said(old(device).log(), talk);
    }
    fresh
}

/// The pieces of what is exchanged for the primary plane make the whole.
proof fn lemma_render_talk<A, B, F, R>(
    start: Seq<Exchange<A, B, F, R>>,
    end: Seq<Exchange<A, B, F, R>>,
    before: FrameView,
    after: FrameView,
    core: CoreView,
    previous: Seq<(u32, PlaneState)>,
    ids_before: Seq<(u32, u64, u64)>,
    ids_after: Seq<(u32, u64, u64)>,
    flags: u32,
    first: Exchange<A, B, F, R>,
    given: Seq<Exchange<A, B, F, R>>,
    rest: Seq<Exchange<A, B, F, R>>,
    result: Result<bool, RenderFrameError<A, B, F, R>>,
)
    requires
        goes_on(start, end),
        since(start, end) == seq![first] + given + rest,
        shown_slot(before, core.primary.handle) matches Some(slot) && (
        first matches Exchange::ExportSlot { slot: exported, answer } && exported == slot
            && answer is Ok) && drawn_talk(
            before,
            after,
            core.primary.handle,
            previous,
            slot,
            stand_ins(
                before,
                core,
                ids_before,
                ids_given(given),
                before.overlay_elements.len(),
            ).0,
            ids_after,
            flags,
            rest,
            result,
        ),
        given.len() == before.overlay_elements.len(),
        id_talk(given),
        ids_after == stand_ins(
            before,
            core,
            ids_before,
            ids_given(given),
            before.overlay_elements.len(),
        ).1,
    ensures
        render_talk(
            before,
            after,
            core,
            previous,
            ids_before,
            ids_after,
            flags,
            since(start, end),
            result,
        ),
{
    reveal(render_talk);
    let talk = since(start, end);
    let n = given.len() as int;
    assert(talk.subrange(1, 1 + n) =~= given);
    assert(talk.skip(1 + n) =~= rest);
}

/// Taking in what was rendered changes the state of the primary plane and what is known about
/// elements.
proof fn lemma_taken_in<A, B, F, R>(
    before: FrameView,
    after: FrameView,
    primary: u32,
    previous: Seq<(u32, PlaneState)>,
    ids: Seq<(u32, u64, u64)>,
    output: RenderOutput,
    talk: Seq<Exchange<A, B, F, R>>,
)
    requires
        is_rendered(before.frame, primary),
        rendered_talk(before, after, primary, previous, ids, output, talk),
    ensures
        after == (FrameView { frame: after.frame, states: after.states, ..before }),
        exists|state: PlaneState| after.frame == #[trigger] with_state(
            before.frame,
            primary,
            state,
        ),
        state_of(after.frame, primary) matches Some(state) && state.config.is_some(),
{
    let state = state_of(before.frame, primary)->0;
    let damage = damage_report_spec(previous, primary, output.has_damage);
    let clips = if damage == DamageReport::Nothing {
        None
    } else {
        talk[if output.has_damage {
            0int
        } else {
            1
        }]->ReportDamage_answer
    };
    let rendered = rendered_state(state, previous, primary, damage, clips, output.sync);
    assert(after.frame == with_state(before.frame, primary, rendered));
    set_state_changes_one_plane(before.frame, primary, rendered, primary);
}

/// What comes of an attempt at the legacy cursor keeps the frame tidy.
proof fn lemma_legacy_tidy(
    view: FrameView,
    start: CoreView,
    middle: CoreView,
    end: CoreView,
    assignment: LegacyCursorAssignment,
)
    requires
        tidy(view, start),
        view.step() == FrameStep::TryLegacyCursor,
        view.visible.len() <= usize::MAX,
        middle.planes == start.planes,
        middle.primary == start.primary,
        middle.policy == start.policy,
        end.planes == start.planes,
        end.primary == start.primary,
        end.policy == start.policy || assignment is Atomic,
    ensures
        tidy(view.after_legacy(middle, assignment), end),
{
    match assignment {
        LegacyCursorAssignment::Presented(presentation) => {
            legacy_cursors_keep_frames_tidy(view, start, presentation);
            tidiness_is_about_planes(view.after_legacy(middle, assignment), start, end);
        },
        LegacyCursorAssignment::Atomic => {
            more_planes_keep_frames_tidy(view, start, end);
            failed_legacy_cursors_keep_frames_tidy(
                FrameView { frame: with_planes(view.frame, start.planes.cursor@), ..view },
                end,
            );
        },
        LegacyCursorAssignment::Software => {
            failed_legacy_cursors_keep_frames_tidy(view, start);
            tidiness_is_about_planes(view.after_legacy(middle, assignment), start, end);
        },
    }
}

proof fn lemma_still_composable(
    elements: Seq<Element>,
    output: OutputState,
    a: CoreView,
    b: CoreView,
)
    requires
        composable(elements, output, a),
        b.wf(),
        b.planes == a.planes,
        b.cursor_size == a.cursor_size,
    ensures
        composable(elements, output, b),
{
    assert forall|i: int|
        0 <= i < elements.len() && crate::visibility::on_output(
            #[trigger] elements[i],
            output.geometry,
        ) implies {
        &&& crate::visibility::placeable(elements[i])
        &&& elements[i].info.comparable()
        &&& crate::attempt::cursor_fits(elements[i].info, output, b)
        &&& crate::legacy_attempt::legacy_fits(elements[i].info, output, b.cursor_size)
    } by {
        assert(crate::attempt::cursor_fits(elements[i].info, output, a));
    }
}

/// Falling back changes neither the elements of a frame nor its purpose.
proof fn lemma_fallback_purpose(view: FrameView, core: CoreView, upto: nat)
    ensures
        same_purpose(retreated(view, core, upto).view, view),
        retreated(view, core, upto).view.legacy_cursor == view.legacy_cursor,
        retreated(view, core, upto).view.disable_pending == view.disable_pending,
    decreases upto,
{
    if upto > 0 {
        lemma_fallback_purpose(view, core, (upto - 1) as nat);
    }
}

proof fn lemma_same_planes_keep_order(
    before: FrameView,
    after: FrameView,
    a: CoreView,
    b: CoreView,
)
    requires
        frame_in_order(before, a),
        after == (FrameView { frame: after.frame, ..before }),
        same_planes(b, a),
        b.wf(),
    ensures
        after.wf(b),
        primary_kept(before, b),
        after.legacy_cursor matches Some(presentation) ==> (b.cursor matches Some(cursor)
            && cursor.legacy.active_presentation_spec() == Some(presentation)),
{
    attempts_keep_frames_going(before, a, b);
    assert(after.output_fits(b)) by {
        assert forall|i: int| 0 <= i < after.visible.len() implies {
            &&& (#[trigger] after.visible[i]).info.comparable()
            &&& crate::attempt::element_fits(after.visible[i].info, after.output, b)
            &&& crate::legacy_attempt::legacy_fits(
                after.visible[i].info,
                after.output,
                b.cursor_size,
            )
            &&& after.visible[i].visible_area <= crate::region::area(after.output.geometry)
        } by {
            assert(before.visible[i].info.comparable());
        }
    }
}

/// Whether a frame can go on does not depend on what is known about elements or on the cursor.
proof fn lemma_still_in_order(view: FrameView, a: CoreView, b: CoreView)
    requires
        view.wf(a),
        primary_kept(view, a),
        b.wf(),
        b.planes == a.planes,
        b.primary == a.primary,
        b.cursor_size == a.cursor_size,
    ensures
        view.wf(b),
        primary_kept(view, b),
{
    assert(view.output_fits(b)) by {
        assert forall|i: int| 0 <= i < view.visible.len() implies {
            &&& (#[trigger] view.visible[i]).info.comparable()
            &&& crate::attempt::element_fits(view.visible[i].info, view.output, b)
            &&& crate::legacy_attempt::legacy_fits(view.visible[i].info, view.output, b.cursor_size)
            &&& view.visible[i].visible_area <= crate::region::area(view.output.geometry)
        } by {
            assert(crate::attempt::element_fits(view.visible[i].info, view.output, a));
        }
    }
}

} // verus!
