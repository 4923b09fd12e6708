//! Every attempt comes to an end.

use vstd::prelude::*;
use crate::assignment::{
    export_key_spec, export_outcome, primary_refusal_spec, with_bit, ElementPlaneConfig,
};
use crate::attempt::{
    begun, element_config_spec, known, noting, overlay_configured, phase_wf, primary_configured,
    registered, target_exists, target_failed, target_plane, try_any, try_cursor, try_cursor_planes,
    try_matching, try_overlay, with_reason, ElementContext, Phase, Progress, Target,
};
use crate::attempt_laws::{answered, Answer};
use crate::buffer::CachedDrmFramebuffer;
use crate::core_state::{same_planes, CoreView};
use crate::element::{Kind, RenderingReason};
use crate::element_states::{cached, failed_planes_of, with_framebuffer, ExportBufferError, PlanesSnapshot};
use crate::frame_state::with_state;
use crate::plane::PlaneState;

verus! {

/// A number that gets smaller with every answer: the planes are tried in a fixed order, and about
/// each of them only so much can be asked.
pub open spec fn remaining(phase: Phase, core: CoreView) -> int {
    let n = core.planes.overlay@.len() as int;
    let m = core.planes.cursor@.len() as int;
    match phase {
        Phase::Done(_) => 0,
        Phase::Export { primary, key } => if primary {
            8 * n + 2 * m + 14
        } else {
            8 * n + 8
        },
        Phase::CursorTest { index, backup } => 8 * n + 9,
        Phase::CursorDraw { index, claim, placement } => 8 * n + 10,
        Phase::CursorClaim { kept, index } => if kept {
            8 * n + 10 + 2 * m - index
        } else {
            8 * n + 10 + m - index
        },
        Phase::Claim { target, config } => remaining_at(target, n, m) + 3,
        Phase::Damage { target, config, claim } => remaining_at(target, n, m) + 2,
        Phase::Test { target, config, backup } => remaining_at(target, n, m) + 1,
    }
}

/// What is left after a plane did not work out.
pub open spec fn remaining_at(target: Target, n: int, m: int) -> int {
    match target {
        Target::Primary => 8 * n + 2 * m + 10,
        Target::Matching(i) => 4 * n + 4 * (n - 1 - i) + 4,
        Target::Any(i) => 4 * (n - 1 - i),
    }
}

proof fn lemma_try_any(p: Progress, ctx: ElementContext, config: ElementPlaneConfig, index: nat)
    requires
        index <= p.core.planes.overlay@.len(),
        p.core.wf(),
    ensures
        ({
            let q = try_any(p, ctx, config, index);
            same_planes(q.core, p.core) && phase_wf(q.phase, ctx, q.core) && remaining(
                q.phase,
                q.core,
            ) <= 4 * (p.core.planes.overlay@.len() - index)
        }),
    decreases p.core.planes.overlay@.len() - index,
{
    if index < p.core.planes.overlay@.len() {
        lemma_try_any(p, ctx, config, index + 1);
        lemma_try_any(
            with_reason(p, Some(RenderingReason::ScanoutFailed)),
            ctx,
            config,
            index + 1,
        );
    }
}

proof fn lemma_try_matching(
    p: Progress,
    ctx: ElementContext,
    config: ElementPlaneConfig,
    previous: Seq<(u32, PlaneState)>,
    index: nat,
)
    requires
        index <= p.core.planes.overlay@.len(),
        p.core.wf(),
    ensures
        ({
            let q = try_matching(p, ctx, config, previous, index);
            same_planes(q.core, p.core) && phase_wf(q.phase, ctx, q.core) && remaining(
                q.phase,
                q.core,
            ) <= 4 * p.core.planes.overlay@.len() + 4 * (p.core.planes.overlay@.len() - index) + 4
        }),
    decreases p.core.planes.overlay@.len() - index,
{
    if index < p.core.planes.overlay@.len() {
        lemma_try_matching(p, ctx, config, previous, index + 1);
    } else {
        lemma_try_any(p, ctx, config, 0);
    }
}

proof fn lemma_overlay_configured(
    p: Progress,
    ctx: ElementContext,
    fb: Result<CachedDrmFramebuffer, ExportBufferError>,
    previous: Seq<(u32, PlaneState)>,
)
    requires
        p.core.wf(),
    ensures
        ({
            let q = overlay_configured(p, ctx, fb, previous);
            same_planes(q.core, p.core) && phase_wf(q.phase, ctx, q.core) && remaining(
                q.phase,
                q.core,
            ) <= 8 * p.core.planes.overlay@.len() + 4
        }),
{
    if let Ok(fb) = fb {
        let config = element_config_spec(ctx, fb);
        lemma_try_matching(registered(p, ctx, config, previous), ctx, config, previous, 0);
    }
}

proof fn lemma_try_overlay(
    p: Progress,
    ctx: ElementContext,
    previous: Seq<(u32, PlaneState)>,
)
    requires
        p.core.wf(),
    ensures
        ({
            let q = try_overlay(p, ctx, previous);
            same_planes(q.core, p.core) && phase_wf(q.phase, ctx, q.core) && remaining(
                q.phase,
                q.core,
            ) <= 8 * p.core.planes.overlay@.len() + 8
        }),
{
    let k = known(p, ctx);
    if let Ok(key) = export_key_spec(ctx.info, false) {
        if let Some(fb) = cached(k.core.states[ctx.info.id].fb_cache, key) {
            lemma_overlay_configured(k, ctx, fb, previous);
        }
    }
}

proof fn lemma_try_cursor_planes(
    p: Progress,
    ctx: ElementContext,
    previous: Seq<(u32, PlaneState)>,
    kept: bool,
    index: nat,
)
    requires
        p.core.wf(),
        p.core.cursor.is_some(),
        ctx.info.kind == Kind::Cursor,
        index <= p.core.planes.cursor@.len(),
    ensures
        ({
            let q = try_cursor_planes(p, ctx, previous, kept, index);
            let m = p.core.planes.cursor@.len() as int;
            same_planes(q.core, p.core) && phase_wf(q.phase, ctx, q.core) && remaining(
                q.phase,
                q.core,
            ) <= 8 * p.core.planes.overlay@.len() + 10 + (if kept {
                2 * m
            } else {
                m
            }) - index
        }),
    decreases (if kept { 1int } else { 0int }), p.core.planes.cursor@.len() - index,
{
    if index >= p.core.planes.cursor@.len() {
        if kept {
            lemma_try_cursor_planes(p, ctx, previous, false, 0);
        } else {
            lemma_try_overlay(p, ctx, previous);
        }
    } else {
        lemma_try_cursor_planes(p, ctx, previous, kept, index + 1);
    }
}

proof fn lemma_try_cursor(
    p: Progress,
    ctx: ElementContext,
    previous: Seq<(u32, PlaneState)>,
)
    requires
        p.core.wf(),
    ensures
        ({
            let q = try_cursor(p, ctx, previous);
            same_planes(q.core, p.core) && phase_wf(q.phase, ctx, q.core) && remaining(
                q.phase,
                q.core,
            ) <= 8 * p.core.planes.overlay@.len() + 2 * p.core.planes.cursor@.len() + 10
        }),
{
    lemma_try_overlay(p, ctx, previous);
    if p.core.cursor.is_some() && ctx.info.kind == Kind::Cursor {
        lemma_try_cursor_planes(p, ctx, previous, true, 0);
    }
}

proof fn lemma_primary_configured(
    p: Progress,
    ctx: ElementContext,
    fb: Result<CachedDrmFramebuffer, ExportBufferError>,
    previous: Seq<(u32, PlaneState)>,
)
    requires
        p.core.wf(),
    ensures
        ({
            let q = primary_configured(p, ctx, fb, previous);
            same_planes(q.core, p.core) && phase_wf(q.phase, ctx, q.core) && remaining(
                q.phase,
                q.core,
            ) <= 8 * p.core.planes.overlay@.len() + 2 * p.core.planes.cursor@.len() + 13
        }),
{
    match fb {
        Err(error) => {
            lemma_try_cursor(with_reason(p, error.rendering_reason_spec()), ctx, previous);
        },
        Ok(fb) => {
            let config = element_config_spec(ctx, fb);
            let r = registered(p, ctx, config, previous);
            if let Err(reason) = primary_refusal_spec(
                r.frame,
                r.core.primary,
                r.core.planes.overlay@,
                ctx.flags,
                config,
                failed_planes_of(r.core.states, ctx.info.id, config.properties),
            ) {
                lemma_try_cursor(with_reason(r, reason), ctx, previous);
            }
        },
    }
}

proof fn lemma_target_failed(
    p: Progress,
    ctx: ElementContext,
    previous: Seq<(u32, PlaneState)>,
    target: Target,
    config: ElementPlaneConfig,
    reason: Option<RenderingReason>,
)
    requires
        p.core.wf(),
        target_exists(p.core, target),
    ensures
        ({
            let q = target_failed(p, ctx, previous, target, config, reason);
            same_planes(q.core, p.core) && phase_wf(q.phase, ctx, q.core) && remaining(
                q.phase,
                q.core,
            ) <= remaining_at(
                target,
                p.core.planes.overlay@.len() as int,
                p.core.planes.cursor@.len() as int,
            )
        }),
{
    let failed_planes = failed_planes_of(p.core.states, ctx.info.id, config.properties);
    let refused = reason == Some(RenderingReason::ScanoutFailed);
    match target {
        Target::Primary => {
            let noted = if refused {
                noting(p, ctx, config, PlanesSnapshot { primary: true, ..failed_planes })
            } else {
                p
            };
            lemma_try_cursor(with_reason(noted, reason), ctx, previous);
        },
        Target::Matching(i) => {
            lemma_try_matching(p, ctx, config, previous, (i + 1) as nat);
        },
        Target::Any(i) => {
            let noted = if refused {
                noting(
                    p,
                    ctx,
                    config,
                    PlanesSnapshot {
                        overlay_bitmask: with_bit(failed_planes.overlay_bitmask, i as int),
                        ..failed_planes
                    },
                )
            } else {
                p
            };
            lemma_try_any(with_reason(noted, reason), ctx, config, (i + 1) as nat);
        },
    }
}

/// Whether an answer is to the question that was asked.
pub open spec fn answers(phase: Phase, answer: Answer) -> bool {
    match (phase, answer) {
        (Phase::Export { .. }, Answer::Exported(_)) => true,
        (Phase::Claim { .. }, Answer::Claimed(_)) => true,
        (Phase::Damage { .. }, Answer::Damaged(_, _)) => true,
        (Phase::Test { .. }, Answer::Tested(_)) => true,
        (Phase::CursorClaim { .. }, Answer::Claimed(_)) => true,
        (Phase::CursorDraw { .. }, Answer::Drawn(_)) => true,
        (Phase::CursorTest { .. }, Answer::Tested(_)) => true,
        _ => false,
    }
}

/// Every attempt ends: each answer brings its end nearer. Attempts do not change which planes there
/// are, nor the legacy cursor.
pub proof fn answers_bring_the_end_nearer(
    p: Progress,
    ctx: ElementContext,
    previous: Seq<(u32, PlaneState)>,
    answer: Answer,
)
    requires
        p.core.wf(),
        phase_wf(p.phase, ctx, p.core),
        answers(p.phase, answer),
    ensures
        same_planes(answered(p, ctx, previous, answer).core, p.core),
        0 <= remaining(answered(p, ctx, previous, answer).phase, p.core) < remaining(
            p.phase,
            p.core,
        ),
{
    let q = answered(p, ctx, previous, answer);
    match (p.phase, answer) {
        (Phase::Export { primary, key }, Answer::Exported(result)) => {
            let fb = export_outcome(result);
            let stored = Progress {
                core: CoreView {
                    states: with_framebuffer(p.core.states, ctx.info.id, key, fb),
                    ..p.core
                },
                ..p
            };
            if primary {
                lemma_primary_configured(stored, ctx, fb, previous);
            } else {
                lemma_overlay_configured(stored, ctx, fb, previous);
            }
        },
        (Phase::Claim { target, config }, Answer::Claimed(claim)) => {
            if claim.is_none() {
                lemma_target_failed(p, ctx, previous, target, config, None);
            } else {
                lemma_target_failed(
                    p,
                    ctx,
                    previous,
                    target,
                    config,
                    Some(RenderingReason::FormatUnsupported),
                );
            }
        },
        (Phase::Damage { target, config, claim }, Answer::Damaged(has_damage, clips)) => {},
        (Phase::Test { target, config, backup }, Answer::Tested(passed)) => {
            lemma_target_failed(
                Progress {
                    frame: with_state(p.frame, target_plane(p.core, target).handle, backup),
                    ..p
                },
                ctx,
                previous,
                target,
                config,
                Some(RenderingReason::ScanoutFailed),
            );
        },
        (Phase::CursorClaim { kept, index }, Answer::Claimed(claim)) => {
            lemma_try_cursor_planes(p, ctx, previous, kept, (index + 1) as nat);
        },
        (Phase::CursorDraw { index, claim, placement }, Answer::Drawn(drawn)) => {
            lemma_try_overlay(p, ctx, previous);
        },
        (Phase::CursorTest { index, backup }, Answer::Tested(passed)) => {
            lemma_try_overlay(
                Progress {
                    frame: with_state(
                        p.frame,
                        p.core.planes.cursor@[index as int].handle,
                        backup,
                    ),
                    ..p
                },
                ctx,
                previous,
            );
        },
        _ => {},
    }
    lemma_remaining(q.phase, ctx, q.core);
}

proof fn lemma_remaining(phase: Phase, ctx: ElementContext, core: CoreView)
    ensures
        phase_wf(phase, ctx, core) ==> 0 <= remaining(phase, core),
{
}

/// However an attempt begins, the planes stay what they are.
pub proof fn attempts_begin_with_the_same_planes(
    core: CoreView,
    frame: Seq<(u32, PlaneState)>,
    ctx: ElementContext,
    previous: Seq<(u32, PlaneState)>,
)
    requires
        core.wf(),
    ensures
        same_planes(begun(core, frame, ctx, previous).core, core),
{
    crate::attempt_laws::attempts_begin_on_course(core, frame, ctx, previous);
}

} // verus!
