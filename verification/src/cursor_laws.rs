//! What holds of cursors that are presented through the legacy cursor ioctls.

use vstd::prelude::*;
use crate::element::{ElementInfo, OutputState, Scale};
use crate::geometry::{Point, Size, Transform};
use crate::legacy_attempt::{legacy_fits, LegacyAttempt, LegacyPhase, LegacyRequest};
use crate::legacy_cursor::{
    classified, install_next, CursorPlanePolicy, InstallStep, LegacyCursorActive,
    LegacyCursorAssignment, LegacyCursorInstallResult, LegacyCursorIoError, LegacyCursorMoveResult,
    LegacyCursorOwnership, LegacyCursorPlan, LegacyCursorPresentation, LegacyCursorState,
    LegacyCursorToken,
};
use crate::placement_laws::{disable_refused, refusals_stay};
use crate::record::Exchange;
use crate::scanout_laws::{degrees, turned_point};
use crate::talk::{drawn_buffer, drawn_by, ioctl_answer, legacy_talk};

verus! {

/// Whether the installed cursor was drawn for this content of this element, in this size and for an
/// output like this.
pub open spec fn is_drawn_for(
    active: LegacyCursorActive,
    element: ElementInfo,
    element_size: Size,
    scale: Scale,
    transform: Transform,
) -> bool {
    &&& active.presentation.element_id == element.id
    &&& active.presentation.commit == element.commit
    &&& active.element_size.w == element_size.w
    &&& active.element_size.h == element_size.h
    &&& active.output_scale.x.same_spec(scale.x)
    &&& active.output_scale.y.same_spec(scale.y)
    &&& active.output_transform == transform
}

/// The installed cursor is kept or moved only if it shows what the element shows now: kept where it
/// is in place, and moved otherwise, unless the driver moves nothing. Any other content is installed
/// anew, and cursors that were left to atomic frames stay so.
pub proof fn installed_cursors_show_their_element(
    state: LegacyCursorState,
    element: ElementInfo,
    element_size: Size,
    scale: Scale,
    transform: Transform,
    origin: Point,
)
    ensures
        ({
            let plan = state.plan_spec(element, element_size, scale, transform, origin);
            &&& plan matches LegacyCursorPlan::Keep(kept) ==> (
            state.ownership matches LegacyCursorOwnership::Active(active) && kept
                == active.presentation && kept.physical_origin == origin && is_drawn_for(
                active,
                element,
                element_size,
                scale,
                transform,
            ))
            &&& plan is Move ==> (state.ownership matches LegacyCursorOwnership::Active(active)
                && active.presentation.physical_origin != origin && is_drawn_for(
                active,
                element,
                element_size,
                scale,
                transform,
            )) && !state.fast_motion_permanently_rejected
            &&& plan is Atomic <==> state.ownership is Atomic
            &&& plan is Install ==> !(state.ownership matches LegacyCursorOwnership::Active(active)
                && is_drawn_for(active, element, element_size, scale, transform) && (
            active.presentation.physical_origin == origin
                || !state.fast_motion_permanently_rejected))
        }),
{
}

/// Where an attempt stands, as far as it knows whom the installed cursor is for.
spec fn goes_for(
    attempt: LegacyAttempt,
    legacy: LegacyCursorState,
    before: Option<LegacyCursorPresentation>,
) -> bool {
    match attempt.phase {
        LegacyPhase::Done { assignment, released } => {
            assignment matches LegacyCursorAssignment::Presented(shown) ==> shown.element_id
                == attempt.element.id && shown.commit == attempt.element.commit
                && shown.physical_origin == attempt.origin
        },
        LegacyPhase::Move => {
            &&& legacy.active_presentation_spec() == before
            &&& legacy.ownership matches LegacyCursorOwnership::Active(active)
                && active.presentation.element_id == attempt.element.id
                && active.presentation.commit == attempt.element.commit
        },
        LegacyPhase::Draw => legacy.active_presentation_spec() == before,
        LegacyPhase::Install { step, buffer } => legacy.active_presentation_spec() == before && !(
        step is Done),
    }
}

/// What is presented is the element, with the content that it has, where it is; unless another cursor
/// was installed and could not be taken off, which then is presented as before.
pub proof fn presented_cursors_are_of_the_element<A, B, F, R>(
    element: ElementInfo,
    output: OutputState,
    cursor_size: Size,
    legacy: LegacyCursorState,
    talk: Seq<Exchange<A, B, F, R>>,
    result: (LegacyCursorAssignment, bool),
    after: LegacyCursorState,
)
    requires
        legacy_talk(
            LegacyAttempt::begin_spec(element, output, cursor_size, Some(legacy)),
            legacy,
            talk,
            result,
            after,
        ),
    ensures
        result.0 matches LegacyCursorAssignment::Presented(shown) ==> {
            let attempt = LegacyAttempt::begin_spec(element, output, cursor_size, Some(legacy));
            ||| shown.element_id == element.id && shown.commit == element.commit
                && shown.physical_origin == attempt.origin
            ||| disable_refused(talk) && legacy.active_presentation_spec() == Some(shown)
        },
{
    let attempt = LegacyAttempt::begin_spec(element, output, cursor_size, Some(legacy));
    lemma_presented(attempt, legacy, talk, result, after, legacy.active_presentation_spec());
}

proof fn lemma_presented<A, B, F, R>(
    attempt: LegacyAttempt,
    legacy: LegacyCursorState,
    talk: Seq<Exchange<A, B, F, R>>,
    result: (LegacyCursorAssignment, bool),
    after: LegacyCursorState,
    before: Option<LegacyCursorPresentation>,
)
    requires
        legacy_talk(attempt, legacy, talk, result, after),
        goes_for(attempt, legacy, before),
    ensures
        result.0 matches LegacyCursorAssignment::Presented(shown) ==> {
            ||| shown.element_id == attempt.element.id && shown.commit == attempt.element.commit
                && shown.physical_origin == attempt.origin
            ||| disable_refused(talk) && before == Some(shown)
        },
    decreases attempt.steps_left(),
{
    reveal_with_fuel(legacy_talk, 2);
    match attempt.phase {
        LegacyPhase::Done { assignment, released } => {},
        LegacyPhase::Move => {
            let answer = talk[0]->MoveCursor_answer;
            let next = LegacyAttempt { phase: attempt.moved_phase(legacy, answer), ..attempt };
            lemma_presented(
                next,
                legacy.after_move(attempt.origin, answer),
                talk.skip(1),
                result,
                after,
                before,
            );
            lemma_later_refusals(talk, 1);
        },
        LegacyPhase::Draw => {
            let (k, drawn) = choose|
                k: int,
                drawn: Option<(u64, Option<crate::buffer::FramebufferInfo>)>,
            |
                0 <= k <= talk.len() && #[trigger] drawn_by(attempt, talk.take(k), drawn)
                    && legacy_talk(
                    LegacyAttempt {
                        phase: LegacyAttempt::drawn_phase(legacy, drawn_buffer(drawn)),
                        ..attempt
                    },
                    legacy,
                    talk.skip(k),
                    result,
                    after,
                );
            let next = LegacyAttempt {
                phase: LegacyAttempt::drawn_phase(legacy, drawn_buffer(drawn)),
                ..attempt
            };
            lemma_presented(next, legacy, talk.skip(k), result, after, before);
            lemma_later_refusals(talk, k);
        },
        LegacyPhase::Install { step, buffer } => {
            let answer = ioctl_answer(step, buffer, attempt.origin, talk[0])->0;
            match install_next(step, legacy.legacy_succeeded, answer) {
                InstallStep::Done(outcome) => {
                    if outcome == LegacyCursorInstallResult::PreserveActive {
                        if step is DisableReplaced {
                            assert(talk[0] is DisableCursor && talk[0]->DisableCursor_answer is Err);
                            assert(disable_refused(talk));
                        }
                        assert(result.0 == legacy.install_assignment(
                            outcome,
                            attempt.fresh(legacy, buffer),
                        ));
                    } else {
                        let next = LegacyAttempt {
                            phase: LegacyPhase::Done {
                                assignment: legacy.install_assignment(
                                    outcome,
                                    attempt.fresh(legacy, buffer),
                                ),
                                released: outcome == LegacyCursorInstallResult::Atomic,
                            },
                            ..attempt
                        };
                        lemma_presented(
                            next,
                            legacy.after_install(outcome, attempt.fresh(legacy, buffer)),
                            talk.skip(1),
                            result,
                            after,
                            before,
                        );
                        lemma_later_refusals(talk, 1);
                    }
                },
                next => {
                    lemma_presented(
                        LegacyAttempt {
                            phase: LegacyPhase::Install { step: next, buffer },
                            ..attempt
                        },
                        legacy,
                        talk.skip(1),
                        result,
                        after,
                        before,
                    );
                    lemma_later_refusals(talk, 1);
                },
            }
        },
    }
}

proof fn lemma_later_refusals<A, B, F, R>(talk: Seq<Exchange<A, B, F, R>>, k: int)
    requires
        0 <= k <= talk.len(),
    ensures
        disable_refused(talk.skip(k)) ==> disable_refused(talk),
{
    assert(talk.skip(k) =~= talk.subrange(k, talk.len() as int));
    if disable_refused(talk.skip(k)) {
        refusals_stay(talk, k, talk.len() as int);
    }
}

/// An attempt is made for the element as it looks on the output: nothing is tried for one that is
/// larger than cursors can be, and the cursor goes where each point of it is seen in place.
pub proof fn attempts_are_made_in_place(
    element: ElementInfo,
    output: OutputState,
    cursor_size: Size,
    legacy: LegacyCursorState,
    dx: int,
    dy: int,
)
    requires
        element.kind == crate::element::Kind::Cursor,
        legacy_fits(element, output, cursor_size),
    ensures
        ({
            let attempt = LegacyAttempt::begin_spec(element, output, cursor_size, Some(legacy));
            let drawn = turned_point(
                output.transform,
                dx,
                dy,
                cursor_size.w as int,
                cursor_size.h as int,
            );
            let seen = turned_point(
                output.transform,
                element.location.x + dx,
                element.location.y + dy,
                output.geometry.size.w as int,
                output.geometry.size.h as int,
            );
            &&& attempt.origin.x + drawn.0 == seen.0
            &&& attempt.origin.y + drawn.1 == seen.1
            &&& attempt.element == element
            &&& attempt.output == output
            &&& attempt.plane_size == cursor_size
            &&& attempt.element_size == (if degrees(output.transform) % 180 == 90 {
                Size { w: element.geometry.size.h, h: element.geometry.size.w }
            } else {
                element.geometry.size
            })
            &&& attempt.element_size.w > cursor_size.w || attempt.element_size.h > cursor_size.h
                ==> (attempt.phase matches LegacyPhase::Done { assignment, released }
                && assignment is Software && !released)
        }),
{
}

/// What an attempt asks for is what its phase is about.
pub proof fn attempts_ask_for_their_step(attempt: LegacyAttempt)
    ensures
        attempt.phase is Move ==> attempt.request_spec() == LegacyRequest::MoveCursor(attempt.origin),
        attempt.phase is Draw ==> attempt.request_spec() == (LegacyRequest::DrawCursor {
            element_size: attempt.element_size,
            plane_size: attempt.plane_size,
        }),
        attempt.phase matches LegacyPhase::Install { step, buffer } ==> match step {
            InstallStep::DisableReplaced => attempt.request_spec() is DisableCursor,
            InstallStep::MoveFirst => attempt.request_spec() == LegacyRequest::MoveCursor(
                attempt.origin,
            ),
            InstallStep::Install => attempt.request_spec() == LegacyRequest::InstallCursor(buffer),
            InstallStep::MoveInstalled => attempt.request_spec() == LegacyRequest::MoveCursor(
                attempt.origin,
            ),
            InstallStep::DisableMisplaced => attempt.request_spec() is DisableCursor,
            InstallStep::Done(_) => true,
        },
        attempt.phase matches LegacyPhase::Done { assignment, released } ==> attempt.request_spec()
            == (LegacyRequest::Finished { assignment, released }),
{
}

/// The driver will never do what is invalid, unknown or not supported; it may do later what the
/// session is not allowed to do now; and anything else is a matter of time.
pub proof fn failures_are_permanent_if_they_stay(code: i32)
    ensures
        classified(None) == LegacyCursorIoError::Busy,
        classified(Some(code)) == LegacyCursorIoError::Permanent <==> (code == 22 || code == 25 || code
            == 38 || code == 95),
        classified(Some(code)) == LegacyCursorIoError::Inactive <==> (code == 1 || code == 13),
{
}

/// A move needs the token of the installed cursor, and a driver that moves cursors. One that is
/// accepted changes where the cursor is and nothing else; one that is refused leaves it where it is,
/// and only a permanent refusal is remembered.
pub proof fn moves_change_the_place_alone(
    state: LegacyCursorState,
    active: LegacyCursorActive,
    token: LegacyCursorToken,
    origin: Point,
    error: Option<i32>,
)
    requires
        state.ownership == LegacyCursorOwnership::Active(active),
    ensures
        state.move_refusal_spec(token) is None <==> active.presentation.token.value == token.value
            && !state.fast_motion_permanently_rejected,
        ({
            let moved = state.after_move(origin, Ok(()));
            &&& moved.ownership matches LegacyCursorOwnership::Active(now)
                && now.presentation.physical_origin == origin && now.presentation.token
                == active.presentation.token && now.presentation.element_id
                == active.presentation.element_id && now.presentation.commit
                == active.presentation.commit && now.presentation.plane_size
                == active.presentation.plane_size && now.buffer == active.buffer && now.element_size
                == active.element_size && now.output_scale == active.output_scale
                && now.output_transform == active.output_transform && state.move_result(
                origin,
                Ok(()),
            ) == LegacyCursorMoveResult::Moved(now.presentation)
            &&& moved.next_token == state.next_token
            &&& moved.legacy_succeeded == state.legacy_succeeded
            &&& moved.fast_motion_permanently_rejected == state.fast_motion_permanently_rejected
        }),
        state.after_move(origin, Err(error)).ownership == state.ownership,
        state.after_move(origin, Err(error)).next_token == state.next_token,
        state.after_move(origin, Err(error)).legacy_succeeded == state.legacy_succeeded,
        state.after_move(origin, Err(error)).fast_motion_permanently_rejected <==> (
        state.fast_motion_permanently_rejected || classified(error)
            == LegacyCursorIoError::Permanent),
        state.move_result(origin, Err(error)) == (if classified(error)
            == LegacyCursorIoError::Permanent {
            LegacyCursorMoveResult::Rejected
        } else {
            LegacyCursorMoveResult::Busy
        }),
{
}

/// Without an installed cursor there is nothing to move.
pub proof fn moves_need_an_installed_cursor(state: LegacyCursorState, token: LegacyCursorToken)
    requires
        !(state.ownership is Active),
    ensures
        state.move_refusal_spec(token) == Some(
            if state.fast_motion_permanently_rejected {
                LegacyCursorMoveResult::Rejected
            } else {
                LegacyCursorMoveResult::NotActive
            },
        ),
{
}

/// An installation that succeeds makes the cursor of the element the installed one, under a token
/// that no cursor had just before. Any other end is told, and leaves no cursor that is not there.
pub proof fn installations_are_remembered(
    attempt: LegacyAttempt,
    legacy: LegacyCursorState,
    buffer: u64,
    outcome: LegacyCursorInstallResult,
)
    requires
        legacy.wf(),
    ensures
        ({
            let after = legacy.after_install(outcome, attempt.fresh(legacy, buffer));
            let told = legacy.install_assignment(outcome, attempt.fresh(legacy, buffer));
            &&& outcome is Installed ==> (
            after.ownership matches LegacyCursorOwnership::Active(active)
                && active.presentation.element_id == attempt.element.id
                && active.presentation.commit == attempt.element.commit && active.element_size
                == attempt.element_size && active.output_scale == attempt.output.scale
                && active.output_transform == attempt.output.transform && active.buffer == buffer
                && active.presentation.physical_origin == attempt.origin
                && active.presentation.plane_size == attempt.plane_size
                && active.presentation.token.value == legacy.next_token && told
                == LegacyCursorAssignment::Presented(active.presentation) && after.next_token
                != active.presentation.token.value && (
            legacy.ownership matches LegacyCursorOwnership::Active(replaced)
                ==> active.presentation.token != replaced.presentation.token)) && after.legacy_succeeded
            &&& outcome is PreserveActive ==> after == legacy && told == (
            match legacy.active_presentation_spec() {
                Some(shown) => LegacyCursorAssignment::Presented(shown),
                None => LegacyCursorAssignment::Software,
            })
            &&& outcome is DisabledSoftware ==> after.ownership is Disabled && after.legacy_succeeded
                && told is Software
            &&& outcome is CandidateSoftware ==> after.ownership is Candidate && told is Software
                && after.legacy_succeeded == legacy.legacy_succeeded
            &&& outcome is Atomic ==> after.ownership is Atomic && told is Atomic
            &&& !(outcome is Installed) ==> after.next_token == legacy.next_token
        }),
{
}

/// Taking the cursor off ends the installation if that works, and changes nothing otherwise. Starting
/// over forgets the installed cursor and what was learned of the driver, and takes a token out of use;
/// legacy cursors are tried only where cursor planes are left to them.
pub proof fn cursors_end_as_they_are_taken_off(
    state: LegacyCursorState,
    succeeded: bool,
    policy: CursorPlanePolicy,
)
    ensures
        state.after_disable(succeeded).ownership == (if succeeded && state.ownership is Active {
            LegacyCursorOwnership::Disabled
        } else {
            state.ownership
        }),
        state.after_disable(succeeded).next_token == state.next_token,
        state.after_disable(succeeded).legacy_succeeded == state.legacy_succeeded,
        state.invalidated(policy).ownership == (if policy == CursorPlanePolicy::Legacy {
            LegacyCursorOwnership::Candidate
        } else {
            LegacyCursorOwnership::Atomic
        }),
        LegacyCursorState::initial(policy).ownership == state.invalidated(policy).ownership,
        !state.invalidated(policy).legacy_succeeded,
        !state.invalidated(policy).fast_motion_permanently_rejected,
        state.invalidated(policy).next_token != state.next_token,
        state.invalidated(policy).next_token > 0,
        LegacyCursorState::initial(policy).next_token > 0,
        !LegacyCursorState::initial(policy).legacy_succeeded,
        !LegacyCursorState::initial(policy).fast_motion_permanently_rejected,
{
}

} // verus!
