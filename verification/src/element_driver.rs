//! Looking for planes with a device.

use vstd::prelude::*;
use crate::attempt::{begun, target_plane, Attempt, ElementContext, Phase, Request};
use crate::attempt_bounds::{answers_bring_the_end_nearer, attempts_begin_with_the_same_planes, remaining};
use crate::attempt_laws::{
    allowed_assignment, answers_keep_on_course, attempts_begin_on_course, fences_keep_on_course,
    on_course, shows_on_or_tested, Answer,
};
use crate::attempt_talk::{
    attempt_talk, drawn_for, drawn_framebuffer, ended_attempts_ask_nothing,
    rendered_elements_ask_nothing, stays_rendered, step_talk, steps_add_up, verdicts_are_steps,
};
use crate::core_state::{same_planes, Core};
use crate::device::Device;
use crate::driver::{draw_cursor, test_frame};
use crate::element::{Kind, RenderingReason};
use crate::flags::FrameFlags;
use crate::frame_state::{fenced, fences_add_up, FrameState};
use crate::geometry::{Rectangle, Size, Transform};
use crate::plane::{PlaneAssignment, PlaneState, PlaneType, SrcRect};
use crate::record::{goes_on, record_is_what_was_said, records_add_up, since, Exchange, Recorded};
use crate::talk::draw_talk;

verus! {

proof fn lemma_one_more<A, B, F, R>(
    before: Seq<Exchange<A, B, F, R>>,
    next: Exchange<A, B, F, R>,
)
    ensures
        goes_on(before, before.push(next)),
        since(before, before.push(next)) == seq![next],
{
    assert(before.push(next) =~= before + seq![next]);
    record_is_what_was_said(before, seq![next]);
}

/// Makes the framebuffer that an attempt asks for.
fn answer_export<A, B, F, R, D: Device<A, B, F, R>>(
    device: &mut Recorded<A, B, F, R, D>,
    attempt: &mut Attempt,
    core: &mut Core,
    frame: &FrameState,
    previous: &FrameState,
    allow_opaque_fallback: bool,
    supports_fencing: bool,
    Ghost(base): Ghost<Seq<(u32, PlaneState)>>,
)
    requires
        old(attempt).wf(old(core)@),
        old(attempt).phase is Export,
        on_course(old(attempt).progress(old(core)@, frame@), base, old(attempt).ctx),
        allow_opaque_fallback == old(attempt).phase->Export_primary,
    ensures
        final(attempt).ctx == old(attempt).ctx,
        final(attempt).wf(final(core)@),
        same_planes(final(core)@, old(core)@),
        on_course(
            final(attempt).progress(final(core)@, frame@),
            base,
            old(attempt).ctx,
        ),
        remaining(final(attempt).phase, final(core)@) < remaining(old(attempt).phase, old(core)@),
        goes_on(old(device).log(), final(device).log()),
        old(device).log().len() < final(device).log().len(),
        step_talk(
            old(attempt).progress(old(core)@, frame@),
            old(attempt).ctx,
            previous@,
            supports_fencing,
            since(old(device).log(), final(device).log()),
            final(attempt).progress(final(core)@, frame@),
        ),
{
    let ctx = attempt.ctx;
    let ghost before = attempt.progress(core@, frame@);
    let result = device.add_element_framebuffer(&ctx.info, allow_opaque_fallback);
    proof {
        reveal(step_talk);
        lemma_one_more(
            old(device).log(),
            Exchange::<A, B, F, R>::AddElementFramebuffer {
                element: ctx.info,
                allow_opaque_fallback,
                answer: result,
            },
        );
        let answer = Answer::Exported(result);
        answers_keep_on_course(before, base, ctx, previous@, answer);
        answers_bring_the_end_nearer(before, ctx, previous@, answer);
    }
    attempt.exported(core, frame, previous, result);
}

/// Claims the plane that an attempt asks for.
fn answer_claim<A, B, F, R, D: Device<A, B, F, R>>(
    device: &mut Recorded<A, B, F, R, D>,
    attempt: &mut Attempt,
    core: &mut Core,
    frame: &FrameState,
    previous: &FrameState,
    handle: u32,
    supports_fencing: bool,
    Ghost(base): Ghost<Seq<(u32, PlaneState)>>,
)
    requires
        old(attempt).wf(old(core)@),
        old(attempt).phase is Claim,
        on_course(old(attempt).progress(old(core)@, frame@), base, old(attempt).ctx),
        handle == target_plane(old(core)@, old(attempt).phase->Claim_target).handle,
    ensures
        final(attempt).ctx == old(attempt).ctx,
        final(attempt).wf(final(core)@),
        same_planes(final(core)@, old(core)@),
        on_course(
            final(attempt).progress(final(core)@, frame@),
            base,
            old(attempt).ctx,
        ),
        remaining(final(attempt).phase, final(core)@) < remaining(old(attempt).phase, old(core)@),
        goes_on(old(device).log(), final(device).log()),
        old(device).log().len() < final(device).log().len(),
        step_talk(
            old(attempt).progress(old(core)@, frame@),
            old(attempt).ctx,
            previous@,
            supports_fencing,
            since(old(device).log(), final(device).log()),
            final(attempt).progress(final(core)@, frame@),
        ),
{
    let ctx = attempt.ctx;
    let ghost before = attempt.progress(core@, frame@);
    let claim = device.claim_plane(handle);
    proof {
        reveal(step_talk);
        lemma_one_more(
            old(device).log(),
            Exchange::<A, B, F, R>::ClaimPlane {
                plane: handle,
                answer: claim,
            },
        );
        let answer = Answer::Claimed(claim);
        answers_keep_on_course(before, base, ctx, previous@, answer);
        answers_bring_the_end_nearer(before, ctx, previous@, answer);
    }
    attempt.claimed(core, frame, previous, claim);
}

/// Claims the cursor plane that an attempt asks for.
fn answer_cursor_claim<A, B, F, R, D: Device<A, B, F, R>>(
    device: &mut Recorded<A, B, F, R, D>,
    attempt: &mut Attempt,
    core: &mut Core,
    frame: &mut FrameState,
    previous: &FrameState,
    handle: u32,
    supports_fencing: bool,
    Ghost(base): Ghost<Seq<(u32, PlaneState)>>,
)
    requires
        old(attempt).wf(old(core)@),
        old(attempt).phase is CursorClaim,
        on_course(old(attempt).progress(old(core)@, old(frame)@), base, old(attempt).ctx),
        handle == old(core)@.planes.cursor@[old(attempt).phase->CursorClaim_index as int].handle,
    ensures
        final(attempt).ctx == old(attempt).ctx,
        final(attempt).wf(final(core)@),
        same_planes(final(core)@, old(core)@),
        on_course(
            final(attempt).progress(final(core)@, final(frame)@),
            base,
            old(attempt).ctx,
        ),
        remaining(final(attempt).phase, final(core)@) < remaining(old(attempt).phase, old(core)@),
        goes_on(old(device).log(), final(device).log()),
        old(device).log().len() < final(device).log().len(),
        step_talk(
            old(attempt).progress(old(core)@, old(frame)@),
            old(attempt).ctx,
            previous@,
            supports_fencing,
            since(old(device).log(), final(device).log()),
            final(attempt).progress(final(core)@, final(frame)@),
        ),
{
    let ctx = attempt.ctx;
    let ghost before = attempt.progress(core@, frame@);
    let claim = device.claim_plane(handle);
    proof {
        reveal(step_talk);
        lemma_one_more(
            old(device).log(),
            Exchange::<A, B, F, R>::ClaimPlane {
                plane: handle,
                answer: claim,
            },
        );
        let answer = Answer::Claimed(claim);
        answers_keep_on_course(before, base, ctx, previous@, answer);
        answers_bring_the_end_nearer(before, ctx, previous@, answer);
    }
    attempt.cursor_claimed(core, frame, previous, claim);
}

/// Collects the damage that an attempt asks for.
fn answer_damage<A, B, F, R, D: Device<A, B, F, R>>(
    device: &mut Recorded<A, B, F, R, D>,
    attempt: &mut Attempt,
    core: &mut Core,
    frame: &mut FrameState,
    previous: &FrameState,
    since: Option<u64>,
    src: SrcRect,
    geometry: Rectangle,
    transform: Transform,
    supports_fencing: bool,
    Ghost(base): Ghost<Seq<(u32, PlaneState)>>,
)
    requires
        old(attempt).wf(old(core)@),
        old(attempt).phase is Damage,
        on_course(old(attempt).progress(old(core)@, old(frame)@), base, old(attempt).ctx),
        old(attempt).request_spec(old(core)@, previous@) == (Request::CollectDamage {
            since,
            src,
            geometry,
            transform,
        }),
    ensures
        final(attempt).ctx == old(attempt).ctx,
        final(attempt).wf(final(core)@),
        same_planes(final(core)@, old(core)@),
        on_course(
            final(attempt).progress(final(core)@, final(frame)@),
            base,
            old(attempt).ctx,
        ),
        remaining(final(attempt).phase, final(core)@) < remaining(old(attempt).phase, old(core)@),
        goes_on(old(device).log(), final(device).log()),
        old(device).log().len() < final(device).log().len(),
        step_talk(
            old(attempt).progress(old(core)@, old(frame)@),
            old(attempt).ctx,
            previous@,
            supports_fencing,
            crate::record::since(old(device).log(), final(device).log()),
            final(attempt).progress(final(core)@, final(frame)@),
        ),
{
    let ctx = attempt.ctx;
    let ghost before = attempt.progress(core@, frame@);
    let (has_damage, clips) = device.element_damage(&ctx.info, since, src, geometry, transform);
    proof {
        reveal(step_talk);
        lemma_one_more(
            old(device).log(),
            Exchange::<A, B, F, R>::ElementDamage {
                element: ctx.info,
                since,
                src,
                geometry,
                transform,
                answer: (has_damage, clips),
            },
        );
        let answer = Answer::Damaged(has_damage, clips);
        answers_keep_on_course(before, base, ctx, previous@, answer);
        answers_bring_the_end_nearer(before, ctx, previous@, answer);
    }
    attempt.damaged(core, frame, previous, has_damage, clips);
}

/// Draws the cursor that an attempt asks for.
fn answer_draw<A, B, F, R, D: Device<A, B, F, R>>(
    device: &mut Recorded<A, B, F, R, D>,
    attempt: &mut Attempt,
    core: &mut Core,
    frame: &mut FrameState,
    previous: &FrameState,
    element_size: Size,
    plane_size: Size,
    supports_fencing: bool,
    Ghost(base): Ghost<Seq<(u32, PlaneState)>>,
)
    requires
        old(attempt).wf(old(core)@),
        old(attempt).phase is CursorDraw,
        on_course(old(attempt).progress(old(core)@, old(frame)@), base, old(attempt).ctx),
        element_size == old(attempt).phase->CursorDraw_placement.element_size,
        plane_size == old(attempt).phase->CursorDraw_placement.size,
    ensures
        final(attempt).ctx == old(attempt).ctx,
        final(attempt).wf(final(core)@),
        same_planes(final(core)@, old(core)@),
        on_course(
            final(attempt).progress(final(core)@, final(frame)@),
            base,
            old(attempt).ctx,
        ),
        remaining(final(attempt).phase, final(core)@) < remaining(old(attempt).phase, old(core)@),
        goes_on(old(device).log(), final(device).log()),
        old(device).log().len() < final(device).log().len(),
        step_talk(
            old(attempt).progress(old(core)@, old(frame)@),
            old(attempt).ctx,
            previous@,
            supports_fencing,
            since(old(device).log(), final(device).log()),
            final(attempt).progress(final(core)@, final(frame)@),
        ),
{
    let ctx = attempt.ctx;
    let ghost before = attempt.progress(core@, frame@);
    let ghost placement = attempt.phase->CursorDraw_placement;
    let result = draw_cursor(
        device,
        ctx.info,
        element_size,
        plane_size,
        ctx.output.transform,
        true,
    );
    let drawn = match result {
        Some((buffer, Some(framebuffer))) => Some((buffer, framebuffer)),
        _ => None,
    };
    proof {
        reveal(step_talk);
        reveal(draw_talk);
        let talk = since(old(device).log(), device.log());
        assert(drawn_for(ctx, placement, talk, result));
        assert(drawn == drawn_framebuffer(result));
        let answer = Answer::Drawn(drawn);
        answers_keep_on_course(before, base, ctx, previous@, answer);
        answers_bring_the_end_nearer(before, ctx, previous@, answer);
    }
    attempt.cursor_drawn(core, frame, previous, drawn);
}

/// Puts the frame of an attempt to the test. Fences are made for that, so that the frame that the
/// attempt started from is taken to have them too.
fn answer_test<A, B, F, R, D: Device<A, B, F, R>>(
    device: &mut Recorded<A, B, F, R, D>,
    attempt: &mut Attempt,
    core: &mut Core,
    frame: &mut FrameState,
    previous: &FrameState,
    supports_fencing: bool,
    Ghost(base): Ghost<Seq<(u32, PlaneState)>>,
) -> (fenced_base: Ghost<Seq<(u32, PlaneState)>>)
    requires
        old(attempt).wf(old(core)@),
        old(attempt).phase is Test || old(attempt).phase is CursorTest,
        on_course(old(attempt).progress(old(core)@, old(frame)@), base, old(attempt).ctx),
    ensures
        final(attempt).ctx == old(attempt).ctx,
        final(attempt).wf(final(core)@),
        same_planes(final(core)@, old(core)@),
        fenced(base, fenced_base@),
        on_course(
            final(attempt).progress(final(core)@, final(frame)@),
            fenced_base@,
            old(attempt).ctx,
        ),
        remaining(final(attempt).phase, final(core)@) < remaining(old(attempt).phase, old(core)@),
        goes_on(old(device).log(), final(device).log()),
        old(device).log().len() < final(device).log().len(),
        step_talk(
            old(attempt).progress(old(core)@, old(frame)@),
            old(attempt).ctx,
            previous@,
            supports_fencing,
            since(old(device).log(), final(device).log()),
            final(attempt).progress(final(core)@, final(frame)@),
        ),
{
    let ctx = attempt.ctx;
    let ghost before = attempt.progress(core@, frame@);
    let verdict = test_frame(device, frame, supports_fencing, true, false);
    let passed = verdict.is_ok();
    let ghost mut fenced_base = base;
    proof {
        let talk = since(old(device).log(), device.log());
        verdicts_are_steps(before, ctx, previous@, supports_fencing, talk, frame@, verdict);
        let after = attempt.progress(core@, frame@);
        fenced_base = fences_keep_on_course(before, frame@, base, ctx);
        let answer = Answer::Tested(passed);
        answers_keep_on_course(after, fenced_base, ctx, previous@, answer);
        answers_bring_the_end_nearer(after, ctx, previous@, answer);
    }
    match attempt.phase {
        Phase::CursorTest { index: _, backup: _ } => {
            attempt.cursor_tested(core, frame, previous, passed);
        },
        _ => {
            attempt.tested(core, frame, previous, passed);
        },
    }
    Ghost(fenced_base)
}

/// Looks on for a plane for an element, from where an attempt stands.
fn run_attempt<A, B, F, R, D: Device<A, B, F, R>>(
    device: &mut Recorded<A, B, F, R, D>,
    attempt: Attempt,
    core: &mut Core,
    frame: &mut FrameState,
    previous: &FrameState,
    supports_fencing: bool,
    Ghost(base): Ghost<Seq<(u32, PlaneState)>>,
) -> (r: Result<PlaneAssignment, Option<RenderingReason>>)
    requires
        attempt.wf(old(core)@),
        on_course(attempt.progress(old(core)@, old(frame)@), base, attempt.ctx),
    ensures
        final(core)@.wf(),
        same_planes(final(core)@, old(core)@),
        exists|after: Seq<(u32, PlaneState)>| #[trigger]
            fenced(base, after) && match r {
                Ok(assignment) => allowed_assignment(final(core)@, after, attempt.ctx, assignment)
                    && shows_on_or_tested(
                    final(frame)@,
                    after,
                    attempt.ctx,
                    assignment.handle,
                    assignment.type_ == PlaneType::Cursor,
                ),
                Err(_) => final(frame)@ == after,
            },
        goes_on(old(device).log(), final(device).log()),
        attempt_talk(
            attempt.progress(old(core)@, old(frame)@),
            attempt.ctx,
            previous@,
            supports_fencing,
            since(old(device).log(), final(device).log()),
            r,
            final(core)@,
            final(frame)@,
        ),
    decreases remaining(attempt.phase, old(core)@),
{
    let ghost ctx = attempt.ctx;
    let ghost before = attempt.progress(core@, frame@);
    let ghost started = device.log();
    let ghost mut next_base = base;
    let mut attempt = attempt;
    proof {
        lemma_fenced_as_it_is(base);
    }
    match attempt.request(core, previous) {
        Request::ExportFramebuffer { allow_opaque_fallback } => {
            answer_export(
                device,
                &mut attempt,
                core,
                frame,
                previous,
                allow_opaque_fallback,
                supports_fencing,
                Ghost(base),
            );
        },
        Request::ClaimPlane(handle) => match attempt.phase {
            Phase::CursorClaim { kept: _, index: _ } => {
                answer_cursor_claim(
                    device,
                    &mut attempt,
                    core,
                    frame,
                    previous,
                    handle,
                    supports_fencing,
                    Ghost(base),
                );
            },
            _ => {
                answer_claim(
                    device,
                    &mut attempt,
                    core,
                    frame,
                    previous,
                    handle,
                    supports_fencing,
                    Ghost(base),
                );
            },
        },
        Request::CollectDamage { since, src, geometry, transform } => {
            answer_damage(
                device,
                &mut attempt,
                core,
                frame,
                previous,
                since,
                src,
                geometry,
                transform,
                supports_fencing,
                Ghost(base),
            );
        },
        Request::DrawCursor { element_size, plane_size } => {
            answer_draw(
                device,
                &mut attempt,
                core,
                frame,
                previous,
                element_size,
                plane_size,
                supports_fencing,
                Ghost(base),
            );
        },
        Request::TestFrame => {
            let fenced_base = answer_test(
                device,
                &mut attempt,
                core,
                frame,
                previous,
                supports_fencing,
                Ghost(base),
            );
            proof {
                next_base = fenced_base@;
            }
        },
        Request::Finished(result) => {
            proof {
                reveal(on_course);
                let talk = since(started, device.log());
                assert(talk.len() == 0);
                ended_attempts_ask_nothing(
                    before,
                    ctx,
                    previous@,
                    supports_fencing,
                    talk,
                    result,
                    core@,
                    frame@,
                );
            }
            return result;
        },
    }
    let ghost answered = device.log();
    let ghost next = attempt.progress(core@, frame@);
    let r = run_attempt(
        device,
        attempt,
        core,
        frame,
        previous,
        supports_fencing,
        Ghost(next_base),
    );
    proof {
        records_add_up(started, answered, device.log());
        let talk = since(started, device.log());
        let k = (answered.len() - started.len()) as int;
        assert(talk.take(k) =~= since(started, answered));
        assert(talk.skip(k) =~= since(answered, device.log()));
        steps_add_up(before, next, ctx, previous@, supports_fencing, talk, k, r, core@, frame@);
        let after = choose|after: Seq<(u32, PlaneState)>| #[trigger]
            fenced(next_base, after) && match r {
                Ok(assignment) => allowed_assignment(core@, after, ctx, assignment)
                    && shows_on_or_tested(
                    frame@,
                    after,
                    ctx,
                    assignment.handle,
                    assignment.type_ == PlaneType::Cursor,
                ),
                Err(_) => frame@ == after,
            };
        fences_add_up(base, next_base, after);
    }
    r
}

proof fn lemma_fenced_as_it_is(frame: Seq<(u32, PlaneState)>)
    ensures
        fenced(frame, frame),
{
    assert forall|i: int| 0 <= i < frame.len() implies crate::frame_state::entry_fenced(
        #[trigger] frame[i],
        frame[i],
    ) by {}
}

/// Looks for a plane for an element, asking the device whatever has to be known.
///
/// Whatever the device answers: if no plane is found the frame is left as it was, but for fences
/// that were made meanwhile; and if one is found that plane alone is changed, which shows the
/// element and which the frame allowed for it. What is asked of the device follows from the element,
/// the frame and the answers before, and the answers decide about the result. An effect, an element
/// below an effect, and one that no flag admits to a plane, is not looked at any further.
pub fn try_assign_element<A, B, F, R, D: Device<A, B, F, R>>(
    device: &mut Recorded<A, B, F, R, D>,
    ctx: ElementContext,
    core: &mut Core,
    frame: &mut FrameState,
    previous: &FrameState,
    supports_fencing: bool,
) -> (r: Result<PlaneAssignment, Option<RenderingReason>>)
    requires
        old(core)@.wf(),
        ctx.info.comparable(),
        ctx.fits(old(core)@),
    ensures
        final(core)@.wf(),
        same_planes(final(core)@, old(core)@),
        exists|base: Seq<(u32, PlaneState)>| #[trigger]
            fenced(old(frame)@, base) && match r {
                Ok(assignment) => allowed_assignment(final(core)@, base, ctx, assignment)
                    && shows_on_or_tested(
                    final(frame)@,
                    base,
                    ctx,
                    assignment.handle,
                    assignment.type_ == PlaneType::Cursor,
                ),
                Err(_) => final(frame)@ == base,
            },
        goes_on(old(device).log(), final(device).log()),
        attempt_talk(
            begun(old(core)@, old(frame)@, ctx, previous@),
            ctx,
            previous@,
            supports_fencing,
            since(old(device).log(), final(device).log()),
            r,
            final(core)@,
            final(frame)@,
        ),
        stays_rendered(ctx) ==> (r == Err::<PlaneAssignment, Option<RenderingReason>>(None)
            && final(core)@ == old(core)@ && final(frame)@ == old(frame)@ && final(device).log()
            == old(device).log()),
        r matches Ok(assignment) ==> (assignment.type_ == PlaneType::Overlay ==> ctx.flags.has_all(
            FrameFlags::ALLOW_OVERLAY_PLANE_SCANOUT,
        ) && ctx.info.kind != Kind::Unspecified),
        r matches Ok(assignment) ==> (assignment.type_ == PlaneType::Cursor ==> ctx.flags.has_all(
            FrameFlags::ALLOW_CURSOR_PLANE_SCANOUT,
        ) && ctx.info.kind == Kind::Cursor),
{
    let attempt = Attempt::begin(ctx, core, frame, previous);
    proof {
        attempts_begin_on_course(old(core)@, frame@, ctx, previous@);
        attempts_begin_with_the_same_planes(old(core)@, frame@, ctx, previous@);
    }
    let ghost started = device.log();
    let r = run_attempt(
        device,
        attempt,
        core,
        frame,
        previous,
        supports_fencing,
        Ghost(frame@),
    );
    proof {
        if stays_rendered(ctx) {
            let p = begun(old(core)@, old(frame)@, ctx, previous@);
            let talk = since(started, device.log());
            rendered_elements_ask_nothing(old(core)@, old(frame)@, ctx, previous@);
            ended_attempts_ask_nothing(
                p,
                ctx,
                previous@,
                supports_fencing,
                talk,
                r,
                core@,
                frame@,
            );
            assert(device.log() =~= started);
        }
    }
    r
}

} // verus!
