//! What is exchanged with a device while a plane is looked for.

use vstd::prelude::*;
use crate::assignment::{previous_commit_spec, CursorPlacement};
use crate::attempt::{begun, target_plane, ElementContext, Phase, Progress};
use crate::attempt_laws::{answered, Answer};
use crate::buffer::FramebufferInfo;
use crate::core_state::CoreView;
use crate::cursor_buffer::{CursorDrawing, DrawPhase};
use crate::element::RenderingReason;
use crate::error::DrmError;
use crate::flags::FrameFlags;
use crate::frame_state::state_of;
use crate::plane::{PlaneAssignment, PlaneState};
use crate::record::Exchange;
use crate::talk::{draw_talk, test_talk};

verus! {

/// Whether an element is not looked at for a plane at all: no flag admits any, or it is an effect, or
/// it lies below an effect.
pub open spec fn stays_rendered(ctx: ElementContext) -> bool {
    !ctx.flags.has_any(FrameFlags::ALLOW_SCANOUT) || ctx.info.is_framebuffer_effect
        || ctx.below_effect
}

/// Whether the cursor of an attempt was drawn for a plane, or could not be drawn.
pub open spec fn drawn_for<A, B, F, R>(
    ctx: ElementContext,
    placement: CursorPlacement,
    talk: Seq<Exchange<A, B, F, R>>,
    drawn: Option<(u64, Option<FramebufferInfo>)>,
) -> bool {
    exists|has_renderer: bool, memory_supported: bool| #[trigger]
        draw_talk(
            CursorDrawing {
                element: ctx.info,
                element_size: placement.element_size,
                plane_size: placement.size,
                output_transform: ctx.output.transform,
                needs_framebuffer: true,
                has_renderer,
                memory_supported,
                phase: DrawPhase::Create,
            },
            talk,
            drawn,
        )
}

pub open spec fn drawn_framebuffer(drawn: Option<(u64, Option<FramebufferInfo>)>) -> Option<
    (u64, FramebufferInfo),
> {
    match drawn {
        Some((buffer, Some(framebuffer))) => Some((buffer, framebuffer)),
        _ => None,
    }
}

/// Whether what an attempt asks for next was asked of the device, and the attempt went on with the
/// answer.
#[verifier::opaque]
pub open spec fn step_talk<A, B, F, R>(
    p: Progress,
    ctx: ElementContext,
    previous: Seq<(u32, PlaneState)>,
    supports_fencing: bool,
    talk: Seq<Exchange<A, B, F, R>>,
    next: Progress,
) -> bool {
    match p.phase {
        Phase::Export { primary, key } => {
            &&& talk.len() == 1
            &&& talk[0] is AddElementFramebuffer
            &&& talk[0]->AddElementFramebuffer_element == ctx.info
            &&& talk[0]->AddElementFramebuffer_allow_opaque_fallback == primary
            &&& next == answered(
                p,
                ctx,
                previous,
                Answer::Exported(talk[0]->AddElementFramebuffer_answer),
            )
        },
        Phase::Claim { target, config } => {
            &&& talk.len() == 1
            &&& talk[0] is ClaimPlane
            &&& talk[0]->ClaimPlane_plane == target_plane(p.core, target).handle
            &&& next == answered(p, ctx, previous, Answer::Claimed(talk[0]->ClaimPlane_answer))
        },
        Phase::CursorClaim { kept, index } => {
            &&& talk.len() == 1
            &&& talk[0] is ClaimPlane
            &&& talk[0]->ClaimPlane_plane == p.core.planes.cursor@[index as int].handle
            &&& next == answered(p, ctx, previous, Answer::Claimed(talk[0]->ClaimPlane_answer))
        },
        Phase::Damage { target, config, claim } => {
            let answer = talk[0]->ElementDamage_answer;
            &&& talk.len() == 1
            &&& talk[0] == (Exchange::<A, B, F, R>::ElementDamage {
                element: ctx.info,
                since: previous_commit_spec(
                    state_of(previous, target_plane(p.core, target).handle),
                    ctx.info.id,
                ),
                src: config.properties.src,
                geometry: config.geometry,
                transform: ctx.info.transform.invert_spec(),
                answer,
            })
            &&& next == answered(p, ctx, previous, Answer::Damaged(answer.0, answer.1))
        },
        Phase::CursorDraw { index, claim, placement } => exists|
            drawn: Option<(u64, Option<FramebufferInfo>)>,
        | #[trigger]
            drawn_for(ctx, placement, talk, drawn) && next == answered(
                p,
                ctx,
                previous,
                Answer::Drawn(drawn_framebuffer(drawn)),
            ),
        Phase::Done(_) => false,
        _ => exists|frame: Seq<(u32, PlaneState)>, verdict: Result<(), DrmError>| #[trigger]
            test_talk(p.frame, frame, supports_fencing, true, false, talk, verdict) && next
                == answered(
                Progress { frame, ..p },
                ctx,
                previous,
                Answer::Tested(verdict is Ok),
            ),
    }
}

/// Whether an attempt went on from where it stands up to its end: everything it asks for was asked
/// of the device, in order, and the answers decide about the result, about what is known of
/// elements, and about the frame.
#[verifier::opaque]
pub open spec fn attempt_talk<A, B, F, R>(
    p: Progress,
    ctx: ElementContext,
    previous: Seq<(u32, PlaneState)>,
    supports_fencing: bool,
    talk: Seq<Exchange<A, B, F, R>>,
    result: Result<PlaneAssignment, Option<RenderingReason>>,
    core: CoreView,
    frame: Seq<(u32, PlaneState)>,
) -> bool
    decreases talk.len(),
{
    if p.phase is Done {
        talk.len() == 0 && p.phase == Phase::Done(result) && p.core == core && p.frame == frame
    } else {
        exists|k: int, next: Progress|
            0 < k <= talk.len() && #[trigger] step_talk(
                p,
                ctx,
                previous,
                supports_fencing,
                talk.take(k),
                next,
            ) && attempt_talk(
                next,
                ctx,
                previous,
                supports_fencing,
                talk.skip(k),
                result,
                core,
                frame,
            )
    }
}

/// An attempt that is put to the test goes on with the verdict, on the frame that was tested.
pub proof fn verdicts_are_steps<A, B, F, R>(
    p: Progress,
    ctx: ElementContext,
    previous: Seq<(u32, PlaneState)>,
    supports_fencing: bool,
    talk: Seq<Exchange<A, B, F, R>>,
    frame: Seq<(u32, PlaneState)>,
    verdict: Result<(), DrmError>,
)
    requires
        p.phase is Test || p.phase is CursorTest,
        test_talk(p.frame, frame, supports_fencing, true, false, talk, verdict),
    ensures
        step_talk(
            p,
            ctx,
            previous,
            supports_fencing,
            talk,
            answered(Progress { frame, ..p }, ctx, previous, Answer::Tested(verdict is Ok)),
        ),
        talk.len() > 0,
{
    reveal(step_talk);
    reveal(test_talk);
}

/// A step and what follows it make up an attempt.
pub proof fn steps_add_up<A, B, F, R>(
    p: Progress,
    next: Progress,
    ctx: ElementContext,
    previous: Seq<(u32, PlaneState)>,
    supports_fencing: bool,
    talk: Seq<Exchange<A, B, F, R>>,
    k: int,
    result: Result<PlaneAssignment, Option<RenderingReason>>,
    core: CoreView,
    frame: Seq<(u32, PlaneState)>,
)
    requires
        0 < k <= talk.len(),
        step_talk(p, ctx, previous, supports_fencing, talk.take(k), next),
        attempt_talk(next, ctx, previous, supports_fencing, talk.skip(k), result, core, frame),
    ensures
        attempt_talk(p, ctx, previous, supports_fencing, talk, result, core, frame),
{
    reveal(attempt_talk);
    assert(!(p.phase is Done)) by {
        reveal(step_talk);
    }
}

/// An attempt that is done asks nothing, and its result is the one it ended with.
pub proof fn ended_attempts_ask_nothing<A, B, F, R>(
    p: Progress,
    ctx: ElementContext,
    previous: Seq<(u32, PlaneState)>,
    supports_fencing: bool,
    talk: Seq<Exchange<A, B, F, R>>,
    result: Result<PlaneAssignment, Option<RenderingReason>>,
    core: CoreView,
    frame: Seq<(u32, PlaneState)>,
)
    requires
        p.phase is Done,
    ensures
        attempt_talk(p, ctx, previous, supports_fencing, talk, result, core, frame) <==> (
        talk.len() == 0 && p.phase == Phase::Done(result) && p.core == core && p.frame == frame),
{
    reveal(attempt_talk);
}

/// An element that stays rendered ends its attempt at once.
pub proof fn rendered_elements_ask_nothing(
    core: CoreView,
    frame: Seq<(u32, PlaneState)>,
    ctx: ElementContext,
    previous: Seq<(u32, PlaneState)>,
)
    requires
        stays_rendered(ctx),
    ensures
        begun(core, frame, ctx, previous) == (Progress {
            phase: Phase::Done(Err(None)),
            reason: None,
            core,
            frame,
        }),
{
}

} // verus!
