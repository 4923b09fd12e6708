//! What holds of every attempt, whatever the answers are.

use vstd::prelude::*;
use crate::assignment::{cursor_open_spec, has_underlay_spec, primary_open_spec, ElementPlaneConfig};
use crate::attempt::{
    admits, begun, claimed, cursor_claimed, cursor_drawn, cursor_tested, damaged, exported,
    overlay_configured, primary_configured, target_failed, target_plane, tested, try_any,
    try_cursor, try_cursor_planes, try_matching, try_overlay, try_primary, ElementContext, Phase,
    Progress, Target,
};
use crate::buffer::{CachedDrmFramebuffer, FramebufferInfo, UnderlyingStorage};
use crate::core_state::{same_planes, CoreView};
use crate::element::{Kind, RenderingReason};
use crate::flags::FrameFlags;
use crate::element_states::ExportBufferError;
use crate::frame_state::{
    all_tested, assigned, entry_fenced, fenced, fences_change_nothing_else, index_of, plane_overlaps,
    state_of, with_state,
};
use crate::plane::{PlaneAssignment, PlaneState, PlaneType};

verus! {

/// The answer to a question of an attempt.
pub enum Answer {
    Exported(Result<Option<FramebufferInfo>, ()>),
    Claimed(Option<u64>),
    Damaged(bool, Option<u64>),
    Drawn(Option<(u64, FramebufferInfo)>),
    Tested(bool),
}

/// The progress after an answer. An answer to something that was not asked changes nothing.
pub open spec fn answered(
    p: Progress,
    ctx: ElementContext,
    previous: Seq<(u32, PlaneState)>,
    answer: Answer,
) -> Progress {
    match (p.phase, answer) {
        (Phase::Export { primary, key }, Answer::Exported(result)) => exported(
            p,
            ctx,
            previous,
            primary,
            key,
            result,
        ),
        (Phase::Claim { target, config }, Answer::Claimed(claim)) => claimed(
            p,
            ctx,
            previous,
            target,
            config,
            claim,
        ),
        (Phase::Damage { target, config, claim }, Answer::Damaged(has_damage, clips)) => damaged(
            p,
            ctx,
            previous,
            target,
            config,
            claim,
            has_damage,
            clips,
        ),
        (Phase::Test { target, config, backup }, Answer::Tested(passed)) => tested(
            p,
            ctx,
            previous,
            target,
            config,
            backup,
            passed,
        ),
        (Phase::CursorClaim { kept, index }, Answer::Claimed(claim)) => cursor_claimed(
            p,
            ctx,
            previous,
            kept,
            index,
            claim,
        ),
        (Phase::CursorDraw { index, claim, placement }, Answer::Drawn(drawn)) => cursor_drawn(
            p,
            ctx,
            previous,
            index,
            claim,
            placement,
            drawn,
        ),
        (Phase::CursorTest { index, backup }, Answer::Tested(passed)) => cursor_tested(
            p,
            ctx,
            previous,
            index,
            backup,
            passed,
        ),
        _ => p,
    }
}

/// The progress after all answers.
pub open spec fn run(
    core: CoreView,
    frame: Seq<(u32, PlaneState)>,
    ctx: ElementContext,
    previous: Seq<(u32, PlaneState)>,
    answers: Seq<Answer>,
) -> Progress
    decreases answers.len(),
{
    if answers.len() == 0 {
        begun(core, frame, ctx, previous)
    } else {
        answered(
            run(core, frame, ctx, previous, answers.drop_last()),
            ctx,
            previous,
            answers.last(),
        )
    }
}

/// Whether overlay planes may be used for the element at all.
pub open spec fn overlay_wanted(ctx: ElementContext) -> bool {
    ctx.flags.has_all(FrameFlags::ALLOW_OVERLAY_PLANE_SCANOUT) && ctx.info.kind != Kind::Unspecified
}

/// Whether the frame allows the element on the plane that is tried: the primary plane only for the
/// last element, and only while no underlay is in use; an overlay plane only where it admits the
/// element; a cursor plane only while none is in use.
pub open spec fn allowed(
    core: CoreView,
    base: Seq<(u32, PlaneState)>,
    ctx: ElementContext,
    target: Target,
) -> bool {
    let p = Progress { phase: Phase::Done(Err(None)), reason: None, core, frame: base };
    match target {
        Target::Primary => ctx.try_primary && primary_open_spec(base, core.primary.handle, ctx.flags)
            && !has_underlay_spec(base, core.primary, core.planes.overlay@),
        Target::Matching(i) => i < core.planes.overlay@.len() && admits(p, ctx, i as int)
            && overlay_wanted(ctx),
        Target::Any(i) => i < core.planes.overlay@.len() && admits(p, ctx, i as int)
            && overlay_wanted(ctx),
    }
}

pub open spec fn cursor_allowed(
    core: CoreView,
    base: Seq<(u32, PlaneState)>,
    ctx: ElementContext,
    index: int,
) -> bool {
    core.cursor.is_some() && index < core.planes.cursor@.len() && !core.policy.reserves_spec()
        && cursor_open_spec(
        base,
        core.planes.cursor@,
        ctx.flags,
        ctx.info.kind,
        ctx.element_size_spec(),
        core.cursor_size,
    )
}

/// Whether the frame is `base` with the element on one more plane. Unless the element was drawn for
/// a cursor plane, the plane still is to be tested.
pub open spec fn shows_on(
    frame: Seq<(u32, PlaneState)>,
    base: Seq<(u32, PlaneState)>,
    ctx: ElementContext,
    handle: u32,
    drawn: bool,
) -> bool {
    exists|state: PlaneState|
        #![trigger with_state(base, handle, state)]
        frame == with_state(base, handle, state) && shows_element(state, ctx, drawn)
}

/// Whether the state of a plane is one in which it shows the element.
pub open spec fn shows_element(state: PlaneState, ctx: ElementContext, drawn: bool) -> bool {
    &&& state.config.is_some()
    &&& state.element_state matches Some(element) && element.id == ctx.info.id
    &&& drawn || (state.needs_test && !(state.config->0.buffer.buffer is Swapchain))
}

/// Whether the configuration shows a buffer that does not belong to the swapchain.
pub open spec fn own_buffer(config: ElementPlaneConfig) -> bool {
    !(config.buffer.buffer is Swapchain)
}

/// Whether the frame is such a frame, or such a frame that passed its test.
pub open spec fn shows_on_or_tested(
    frame: Seq<(u32, PlaneState)>,
    base: Seq<(u32, PlaneState)>,
    ctx: ElementContext,
    handle: u32,
    drawn: bool,
) -> bool {
    shows_on(frame, base, ctx, handle, drawn) || exists|untested: Seq<(u32, PlaneState)>|
        #![trigger all_tested(untested)]
        frame == all_tested(untested) && shows_on(untested, base, ctx, handle, drawn)
}

/// Whether the assignment names a plane that the frame allows the element on.
pub open spec fn allowed_assignment(
    core: CoreView,
    base: Seq<(u32, PlaneState)>,
    ctx: ElementContext,
    assignment: PlaneAssignment,
) -> bool {
    ||| exists|target: Target|
        #![trigger allowed(core, base, ctx, target)]
        allowed(core, base, ctx, target) && target_plane(core, target).assignment_spec()
            == assignment
    ||| exists|index: int|
        #![trigger cursor_allowed(core, base, ctx, index)]
        0 <= index && cursor_allowed(core, base, ctx, index)
            && core.planes.cursor@[index].assignment_spec() == assignment
}

/// Whether the element is stored in a buffer of a client.
pub open spec fn is_client_buffer(ctx: ElementContext) -> bool {
    ctx.info.storage matches Some(UnderlyingStorage::Wayland(_))
}

/// What holds between two answers.
#[verifier::opaque]
pub open spec fn on_course(p: Progress, base: Seq<(u32, PlaneState)>, ctx: ElementContext) -> bool {
    match p.phase {
        Phase::Export { primary, key } => p.frame == base && (primary ==> ctx.try_primary
            && primary_open_spec(base, p.core.primary.handle, ctx.flags)) && (!primary
            ==> overlay_wanted(ctx)) && is_client_buffer(ctx),
        Phase::Claim { target, config } => p.frame == base && allowed(p.core, base, ctx, target)
            && own_buffer(config),
        Phase::Damage { target, config, claim } => p.frame == base && allowed(
            p.core,
            base,
            ctx,
            target,
        ) && own_buffer(config),
        Phase::Test { target, config, backup } => {
            let handle = target_plane(p.core, target).handle;
            allowed(p.core, base, ctx, target) && own_buffer(config) && state_of(base, handle)
                == Some(backup)
                && shows_on(p.frame, base, ctx, handle, false)
        },
        Phase::CursorClaim { kept, index } => p.frame == base && cursor_allowed(
            p.core,
            base,
            ctx,
            index as int,
        ),
        Phase::CursorDraw { index, claim, placement } => p.frame == base && cursor_allowed(
            p.core,
            base,
            ctx,
            index as int,
        ),
        Phase::CursorTest { index, backup } => {
            let handle = p.core.planes.cursor@[index as int].handle;
            cursor_allowed(p.core, base, ctx, index as int) && state_of(base, handle) == Some(
                backup,
            ) && shows_on(p.frame, base, ctx, handle, true)
        },
        Phase::Done(Ok(assignment)) => allowed_assignment(p.core, base, ctx, assignment)
            && shows_on_or_tested(
            p.frame,
            base,
            ctx,
            assignment.handle,
            assignment.type_ == PlaneType::Cursor,
        ),
        Phase::Done(Err(reason)) => p.frame == base,
    }
}

proof fn lemma_try_any(
    p: Progress,
    base: Seq<(u32, PlaneState)>,
    ctx: ElementContext,
    config: ElementPlaneConfig,
    index: nat,
)
    requires
        overlay_wanted(ctx),
        own_buffer(config),
        p.frame == base,
        p.core.wf(),
    ensures
        on_course(try_any(p, ctx, config, index), base, ctx),
        same_planes(try_any(p, ctx, config, index).core, p.core),
    decreases p.core.planes.overlay@.len() - index,
{
    reveal(on_course);
    if index < p.core.planes.overlay@.len() {
        lemma_try_any(p, base, ctx, config, index + 1);
        lemma_try_any(
            crate::attempt::with_reason(p, Some(RenderingReason::ScanoutFailed)),
            base,
            ctx,
            config,
            index + 1,
        );
    }
}

proof fn lemma_try_matching(
    p: Progress,
    base: Seq<(u32, PlaneState)>,
    ctx: ElementContext,
    config: ElementPlaneConfig,
    previous: Seq<(u32, PlaneState)>,
    index: nat,
)
    requires
        overlay_wanted(ctx),
        own_buffer(config),
        p.frame == base,
        p.core.wf(),
    ensures
        on_course(try_matching(p, ctx, config, previous, index), base, ctx),
        same_planes(try_matching(p, ctx, config, previous, index).core, p.core),
    decreases p.core.planes.overlay@.len() - index,
{
    reveal(on_course);
    if index < p.core.planes.overlay@.len() {
        lemma_try_matching(p, base, ctx, config, previous, index + 1);
    } else {
        lemma_try_any(p, base, ctx, config, 0);
    }
}

proof fn lemma_overlay_configured(
    p: Progress,
    base: Seq<(u32, PlaneState)>,
    ctx: ElementContext,
    fb: Result<CachedDrmFramebuffer, ExportBufferError>,
    previous: Seq<(u32, PlaneState)>,
)
    requires
        overlay_wanted(ctx),
        is_client_buffer(ctx),
        p.frame == base,
        p.core.wf(),
    ensures
        on_course(overlay_configured(p, ctx, fb, previous), base, ctx),
        same_planes(overlay_configured(p, ctx, fb, previous).core, p.core),
{
    reveal(on_course);
    if let Ok(fb) = fb {
        let config = crate::attempt::element_config_spec(ctx, fb);
        lemma_try_matching(
            crate::attempt::registered(p, ctx, config, previous),
            base,
            ctx,
            config,
            previous,
            0,
        );
    }
}

proof fn lemma_try_overlay(
    p: Progress,
    base: Seq<(u32, PlaneState)>,
    ctx: ElementContext,
    previous: Seq<(u32, PlaneState)>,
)
    requires
        p.frame == base,
        p.core.wf(),
    ensures
        on_course(try_overlay(p, ctx, previous), base, ctx),
        same_planes(try_overlay(p, ctx, previous).core, p.core),
{
    reveal(on_course);
    let k = crate::attempt::known(p, ctx);
    if let Ok(key) = crate::assignment::export_key_spec(ctx.info, false) {
        if let Some(fb) = crate::element_states::cached(k.core.states[ctx.info.id].fb_cache, key) {
            if overlay_wanted(ctx) {
                lemma_overlay_configured(k, base, ctx, fb, previous);
            }
        }
    }
}

proof fn lemma_try_cursor_planes(
    p: Progress,
    base: Seq<(u32, PlaneState)>,
    ctx: ElementContext,
    previous: Seq<(u32, PlaneState)>,
    kept: bool,
    index: nat,
)
    requires
        p.frame == base,
        p.core.wf(),
        p.core.cursor.is_some(),
        !p.core.policy.reserves_spec(),
        cursor_open_spec(
            base,
            p.core.planes.cursor@,
            ctx.flags,
            ctx.info.kind,
            ctx.element_size_spec(),
            p.core.cursor_size,
        ),
    ensures
        on_course(try_cursor_planes(p, ctx, previous, kept, index), base, ctx),
        same_planes(try_cursor_planes(p, ctx, previous, kept, index).core, p.core),
    decreases (if kept { 1int } else { 0int }), p.core.planes.cursor@.len() - index,
{
    reveal(on_course);
    if index >= p.core.planes.cursor@.len() {
        if kept {
            lemma_try_cursor_planes(p, base, ctx, previous, false, 0);
        } else {
            lemma_try_overlay(p, base, ctx, previous);
        }
    } else {
        lemma_try_cursor_planes(p, base, ctx, previous, kept, index + 1);
    }
}

proof fn lemma_try_cursor(
    p: Progress,
    base: Seq<(u32, PlaneState)>,
    ctx: ElementContext,
    previous: Seq<(u32, PlaneState)>,
)
    requires
        p.frame == base,
        p.core.wf(),
    ensures
        on_course(try_cursor(p, ctx, previous), base, ctx),
        same_planes(try_cursor(p, ctx, previous).core, p.core),
{
    lemma_try_overlay(p, base, ctx, previous);
    if p.core.cursor.is_some() && !p.core.policy.reserves_spec() && cursor_open_spec(
        base,
        p.core.planes.cursor@,
        ctx.flags,
        ctx.info.kind,
        ctx.element_size_spec(),
        p.core.cursor_size,
    ) {
        lemma_try_cursor_planes(p, base, ctx, previous, true, 0);
    }
}

proof fn lemma_primary_configured(
    p: Progress,
    base: Seq<(u32, PlaneState)>,
    ctx: ElementContext,
    fb: Result<CachedDrmFramebuffer, ExportBufferError>,
    previous: Seq<(u32, PlaneState)>,
)
    requires
        is_client_buffer(ctx),
        p.frame == base,
        p.core.wf(),
        ctx.try_primary,
        primary_open_spec(base, p.core.primary.handle, ctx.flags),
    ensures
        on_course(primary_configured(p, ctx, fb, previous), base, ctx),
        same_planes(primary_configured(p, ctx, fb, previous).core, p.core),
{
    reveal(on_course);
    match fb {
        Err(error) => {
            lemma_try_cursor(
                crate::attempt::with_reason(p, error.rendering_reason_spec()),
                base,
                ctx,
                previous,
            );
        },
        Ok(fb) => {
            let config = crate::attempt::element_config_spec(ctx, fb);
            let r = crate::attempt::registered(p, ctx, config, previous);
            let refusal = crate::assignment::primary_refusal_spec(
                r.frame,
                r.core.primary,
                r.core.planes.overlay@,
                ctx.flags,
                config,
                crate::element_states::failed_planes_of(
                    r.core.states,
                    ctx.info.id,
                    config.properties,
                ),
            );
            if let Err(reason) = refusal {
                lemma_try_cursor(crate::attempt::with_reason(r, reason), base, ctx, previous);
            }
        },
    }
}

proof fn lemma_target_failed(
    p: Progress,
    base: Seq<(u32, PlaneState)>,
    ctx: ElementContext,
    previous: Seq<(u32, PlaneState)>,
    target: Target,
    config: ElementPlaneConfig,
    reason: Option<RenderingReason>,
)
    requires
        target == Target::Primary || overlay_wanted(ctx),
        own_buffer(config),
        p.frame == base,
        p.core.wf(),
    ensures
        on_course(target_failed(p, ctx, previous, target, config, reason), base, ctx),
        same_planes(target_failed(p, ctx, previous, target, config, reason).core, p.core),
{
    let failed_planes = crate::element_states::failed_planes_of(
        p.core.states,
        ctx.info.id,
        config.properties,
    );
    let refused = reason == Some(RenderingReason::ScanoutFailed);
    match target {
        Target::Primary => {
            let noted = if refused {
                crate::attempt::noting(
                    p,
                    ctx,
                    config,
                    crate::element_states::PlanesSnapshot { primary: true, ..failed_planes },
                )
            } else {
                p
            };
            lemma_try_cursor(crate::attempt::with_reason(noted, reason), base, ctx, previous);
        },
        Target::Matching(i) => {
            lemma_try_matching(p, base, ctx, config, previous, (i + 1) as nat);
        },
        Target::Any(i) => {
            let noted = if refused {
                crate::attempt::noting(
                    p,
                    ctx,
                    config,
                    crate::element_states::PlanesSnapshot {
                        overlay_bitmask: crate::assignment::with_bit(
                            failed_planes.overlay_bitmask,
                            i as int,
                        ),
                        ..failed_planes
                    },
                )
            } else {
                p
            };
            lemma_try_any(
                crate::attempt::with_reason(noted, reason),
                base,
                ctx,
                config,
                (i + 1) as nat,
            );
        },
    }
}

proof fn lemma_restored(
    frame: Seq<(u32, PlaneState)>,
    base: Seq<(u32, PlaneState)>,
    ctx: ElementContext,
    handle: u32,
    drawn: bool,
    backup: PlaneState,
)
    requires
        shows_on(frame, base, ctx, handle, drawn),
        state_of(base, handle) == Some(backup),
    ensures
        with_state(frame, handle, backup) == base,
{
    let state = choose|state: PlaneState|
        #![trigger with_state(base, handle, state)]
        frame == with_state(base, handle, state) && shows_element(state, ctx, drawn);
    crate::frame_state::restoring_undoes_a_change(base, handle, state);
}

/// An attempt begins on course.
pub proof fn attempts_begin_on_course(
    core: CoreView,
    frame: Seq<(u32, PlaneState)>,
    ctx: ElementContext,
    previous: Seq<(u32, PlaneState)>,
)
    requires
        core.wf(),
    ensures
        on_course(begun(core, frame, ctx, previous), frame, ctx),
        same_planes(begun(core, frame, ctx, previous).core, core),
{
    reveal(on_course);
    let p = Progress { phase: Phase::Done(Err(None)), reason: None, core, frame };
    lemma_try_cursor(p, frame, ctx, previous);
    if ctx.try_primary && primary_open_spec(frame, core.primary.handle, ctx.flags) {
        let k = crate::attempt::known(p, ctx);
        match crate::assignment::export_key_spec(ctx.info, true) {
            Err(error) => {
                lemma_try_cursor(
                    crate::attempt::with_reason(p, error.rendering_reason_spec()),
                    frame,
                    ctx,
                    previous,
                );
            },
            Ok(key) => {
                if let Some(fb) = crate::element_states::cached(
                    k.core.states[ctx.info.id].fb_cache,
                    key,
                ) {
                    lemma_primary_configured(k, frame, ctx, fb, previous);
                }
            },
        }
    }
}

proof fn lemma_exported(
    p: Progress,
    base: Seq<(u32, PlaneState)>,
    ctx: ElementContext,
    previous: Seq<(u32, PlaneState)>,
    result: Result<Option<FramebufferInfo>, ()>,
)
    requires
        p.core.wf(),
        on_course(p, base, ctx),
        p.phase is Export,
    ensures
        p.phase matches Phase::Export { primary, key } && {
            let q = exported(p, ctx, previous, primary, key, result);
            on_course(q, base, ctx) && same_planes(q.core, p.core)
        },
{
    reveal(on_course);
    if let Phase::Export { primary, key } = p.phase {
        let fb = crate::assignment::export_outcome(result);
        let stored = Progress {
            core: CoreView {
                states: crate::element_states::with_framebuffer(
                    p.core.states,
                    ctx.info.id,
                    key,
                    fb,
                ),
                ..p.core
            },
            ..p
        };
        if primary {
            lemma_primary_configured(stored, base, ctx, fb, previous);
        } else {
            lemma_overlay_configured(stored, base, ctx, fb, previous);
        }
    }
}

proof fn lemma_claimed(
    p: Progress,
    base: Seq<(u32, PlaneState)>,
    ctx: ElementContext,
    previous: Seq<(u32, PlaneState)>,
    claim: Option<u64>,
)
    requires
        p.core.wf(),
        on_course(p, base, ctx),
        p.phase is Claim,
    ensures
        p.phase matches Phase::Claim { target, config } && {
            let q = claimed(p, ctx, previous, target, config, claim);
            on_course(q, base, ctx) && same_planes(q.core, p.core)
        },
{
    reveal(on_course);
    if let Phase::Claim { target, config } = p.phase {
        if claim.is_none() {
            lemma_target_failed(p, base, ctx, previous, target, config, None);
        } else {
            lemma_target_failed(
                p,
                base,
                ctx,
                previous,
                target,
                config,
                Some(RenderingReason::FormatUnsupported),
            );
        }
    }
}

proof fn lemma_damaged(
    p: Progress,
    base: Seq<(u32, PlaneState)>,
    ctx: ElementContext,
    previous: Seq<(u32, PlaneState)>,
    has_damage: bool,
    clips: Option<u64>,
)
    requires
        p.core.wf(),
        on_course(p, base, ctx),
        p.phase is Damage,
    ensures
        p.phase matches Phase::Damage { target, config, claim } && {
            let q = damaged(p, ctx, previous, target, config, claim, has_damage, clips);
            on_course(q, base, ctx) && same_planes(q.core, p.core)
        },
{
    reveal(on_course);
    if let Phase::Damage { target, config, claim } = p.phase {
        let plane = target_plane(p.core, target);
        let q = damaged(p, ctx, previous, target, config, claim, has_damage, clips);
        let plane_config = crate::assignment::element_plane_config(
            config,
            if has_damage {
                clips
            } else {
                None
            },
            claim,
            p.core.signaled_fence,
        );
        let state = crate::assignment::element_plane_state(
            state_of(previous, plane.handle),
            ctx.info,
            config.z_index,
            plane_config,
            has_damage,
        );
        assert(q.frame == with_state(base, plane.handle, state));
        assert(shows_element(state, ctx, false));
        assert(shows_on(q.frame, base, ctx, plane.handle, false));
        assert(allowed(p.core, base, ctx, target));
        if let Phase::Done(Ok(assignment)) = q.phase {
            assert(allowed_assignment(p.core, base, ctx, assignment));
        }
    }
}

proof fn lemma_tested(
    p: Progress,
    base: Seq<(u32, PlaneState)>,
    ctx: ElementContext,
    previous: Seq<(u32, PlaneState)>,
    passed: bool,
)
    requires
        p.core.wf(),
        on_course(p, base, ctx),
        p.phase is Test,
    ensures
        p.phase matches Phase::Test { target, config, backup } && {
            let q = tested(p, ctx, previous, target, config, backup, passed);
            on_course(q, base, ctx) && same_planes(q.core, p.core)
        },
{
    reveal(on_course);
    if let Phase::Test { target, config, backup } = p.phase {
        let handle = target_plane(p.core, target).handle;
        if passed {
            assert(allowed(p.core, base, ctx, target));
            assert(shows_on_or_tested(all_tested(p.frame), base, ctx, handle, false));
            assert(allowed_assignment(
                p.core,
                base,
                ctx,
                target_plane(p.core, target).assignment_spec(),
            ));
        } else {
            lemma_restored(p.frame, base, ctx, handle, false, backup);
            lemma_target_failed(
                Progress { frame: with_state(p.frame, handle, backup), ..p },
                base,
                ctx,
                previous,
                target,
                config,
                Some(RenderingReason::ScanoutFailed),
            );
        }
    }
}

proof fn lemma_cursor_ended(
    p: Progress,
    base: Seq<(u32, PlaneState)>,
    ctx: ElementContext,
    index: int,
)
    requires
        0 <= index,
        cursor_allowed(p.core, base, ctx, index),
        p.core.planes.cursor@[index].type_ == PlaneType::Cursor,
        p.phase == Phase::Done(Ok(p.core.planes.cursor@[index].assignment_spec())),
        shows_on_or_tested(p.frame, base, ctx, p.core.planes.cursor@[index].handle, true),
    ensures
        on_course(p, base, ctx),
{
    reveal(on_course);
    assert(allowed_assignment(
        p.core,
        base,
        ctx,
        p.core.planes.cursor@[index].assignment_spec(),
    ));
}

proof fn lemma_cursor_claimed(
    p: Progress,
    base: Seq<(u32, PlaneState)>,
    ctx: ElementContext,
    previous: Seq<(u32, PlaneState)>,
    claim: Option<u64>,
)
    requires
        p.core.wf(),
        on_course(p, base, ctx),
        p.phase is CursorClaim,
    ensures
        p.phase matches Phase::CursorClaim { kept, index } && {
            let q = cursor_claimed(p, ctx, previous, kept, index, claim);
            on_course(q, base, ctx) && same_planes(q.core, p.core)
        },
{
    reveal(on_course);
    if let Phase::CursorClaim { kept, index } = p.phase {
        let q = cursor_claimed(p, ctx, previous, kept, index, claim);
        if claim.is_none() {
            lemma_try_cursor_planes(p, base, ctx, previous, kept, (index + 1) as nat);
        } else {
            lemma_cursor_update(p, base, ctx, previous, index);
            if q.phase is Done {
                lemma_cursor_ended(q, base, ctx, index as int);
            }
        }
    }
}

proof fn lemma_cursor_drawn(
    p: Progress,
    base: Seq<(u32, PlaneState)>,
    ctx: ElementContext,
    previous: Seq<(u32, PlaneState)>,
    drawn: Option<(u64, FramebufferInfo)>,
)
    requires
        p.core.wf(),
        on_course(p, base, ctx),
        p.phase is CursorDraw,
    ensures
        p.phase matches Phase::CursorDraw { index, claim, placement } && {
            let q = cursor_drawn(p, ctx, previous, index, claim, placement, drawn);
            on_course(q, base, ctx) && same_planes(q.core, p.core)
        },
{
    reveal(on_course);
    if let Phase::CursorDraw { index, claim, placement } = p.phase {
        let q = cursor_drawn(p, ctx, previous, index, claim, placement, drawn);
        if drawn.is_none() {
            lemma_try_overlay(p, base, ctx, previous);
        } else {
            let (buffer, framebuffer) = drawn->0;
            let plane = p.core.planes.cursor@[index as int];
            let config = crate::assignment::cursor_config_spec(
                placement,
                buffer,
                framebuffer,
                claim,
            );
            let compatible = crate::assignment::cursor_stays_compatible(
                state_of(previous, plane.handle),
                config,
            );
            let state = crate::assignment::cursor_plane_state(
                ctx.info,
                ctx.z_index,
                placement.element_size,
                config,
                compatible,
            );
            assert(q.frame == with_state(base, plane.handle, state));
            assert(shows_element(state, ctx, true));
            assert(shows_on(q.frame, base, ctx, plane.handle, true));
            assert(cursor_allowed(q.core, base, ctx, index as int));
            if q.phase is Done {
                lemma_cursor_ended(q, base, ctx, index as int);
            }
        }
    }
}

proof fn lemma_cursor_tested(
    p: Progress,
    base: Seq<(u32, PlaneState)>,
    ctx: ElementContext,
    previous: Seq<(u32, PlaneState)>,
    passed: bool,
)
    requires
        p.core.wf(),
        on_course(p, base, ctx),
        p.phase is CursorTest,
    ensures
        p.phase matches Phase::CursorTest { index, backup } && {
            let q = cursor_tested(p, ctx, previous, index, backup, passed);
            on_course(q, base, ctx) && same_planes(q.core, p.core)
        },
{
    reveal(on_course);
    if let Phase::CursorTest { index, backup } = p.phase {
        let handle = p.core.planes.cursor@[index as int].handle;
        let q = cursor_tested(p, ctx, previous, index, backup, passed);
        if passed {
            assert(shows_on_or_tested(all_tested(p.frame), base, ctx, handle, true));
            assert(cursor_allowed(q.core, base, ctx, index as int));
            lemma_cursor_ended(q, base, ctx, index as int);
        } else {
            lemma_restored(p.frame, base, ctx, handle, true, backup);
            lemma_try_overlay(
                Progress { frame: with_state(p.frame, handle, backup), ..p },
                base,
                ctx,
                previous,
            );
        }
    }
}

/// An attempt stays on course, whatever it is answered.
pub proof fn answers_keep_on_course(
    p: Progress,
    base: Seq<(u32, PlaneState)>,
    ctx: ElementContext,
    previous: Seq<(u32, PlaneState)>,
    answer: Answer,
)
    requires
        p.core.wf(),
        on_course(p, base, ctx),
    ensures
        on_course(answered(p, ctx, previous, answer), base, ctx),
        same_planes(answered(p, ctx, previous, answer).core, p.core),
{
    match (p.phase, answer) {
        (Phase::Export { primary, key }, Answer::Exported(result)) => {
            lemma_exported(p, base, ctx, previous, result);
        },
        (Phase::Claim { target, config }, Answer::Claimed(claim)) => {
            lemma_claimed(p, base, ctx, previous, claim);
        },
        (Phase::Damage { target, config, claim }, Answer::Damaged(has_damage, clips)) => {
            lemma_damaged(p, base, ctx, previous, has_damage, clips);
        },
        (Phase::Test { target, config, backup }, Answer::Tested(passed)) => {
            lemma_tested(p, base, ctx, previous, passed);
        },
        (Phase::CursorClaim { kept, index }, Answer::Claimed(claim)) => {
            lemma_cursor_claimed(p, base, ctx, previous, claim);
        },
        (Phase::CursorDraw { index, claim, placement }, Answer::Drawn(drawn)) => {
            lemma_cursor_drawn(p, base, ctx, previous, drawn);
        },
        (Phase::CursorTest { index, backup }, Answer::Tested(passed)) => {
            lemma_cursor_tested(p, base, ctx, previous, passed);
        },
        _ => {},
    }
}

proof fn lemma_cursor_update(
    p: Progress,
    base: Seq<(u32, PlaneState)>,
    ctx: ElementContext,
    previous: Seq<(u32, PlaneState)>,
    index: usize,
)
    ensures
        ({
            let plane = p.core.planes.cursor@[index as int];
            match crate::assignment::cursor_update_spec(
                p.core.cursor->0,
                state_of(previous, plane.handle),
                ctx.info,
                ctx.placement_spec(plane, p.core.cursor_size),
                ctx.output,
            ) {
                crate::assignment::CursorUpdate::Keep(state) => shows_on(
                    with_state(base, plane.handle, state),
                    base,
                    ctx,
                    plane.handle,
                    true,
                ),
                crate::assignment::CursorUpdate::Reposition(state) => shows_on(
                    with_state(base, plane.handle, state),
                    base,
                    ctx,
                    plane.handle,
                    true,
                ),
                crate::assignment::CursorUpdate::Render => true,
            }
        }),
{
}

/// However the questions of an attempt are answered: an attempt that ends without a plane leaves
/// the frame as it was, and one that ends with a plane changed that plane alone, which now shows
/// the element, which the frame allowed for it, and which had been free.
#[verifier::rlimit(30)]
#[verifier::spinoff_prover]
pub proof fn attempts_change_one_allowed_plane_or_none(
    core: CoreView,
    frame: Seq<(u32, PlaneState)>,
    ctx: ElementContext,
    previous: Seq<(u32, PlaneState)>,
    answers: Seq<Answer>,
)
    requires
        core.wf(),
    ensures
        on_course(run(core, frame, ctx, previous, answers), frame, ctx),
        same_planes(run(core, frame, ctx, previous, answers).core, core),
        run(core, frame, ctx, previous, answers).phase matches Phase::Done(Err(_)) ==> run(
            core,
            frame,
            ctx,
            previous,
            answers,
        ).frame == frame,
        run(core, frame, ctx, previous, answers).phase matches Phase::Done(Ok(assignment)) ==> {
            &&& allowed_assignment(core, frame, ctx, assignment)
            &&& shows_on_or_tested(
                run(core, frame, ctx, previous, answers).frame,
                frame,
                ctx,
                assignment.handle,
                assignment.type_ == PlaneType::Cursor,
            )
            &&& !assigned(frame, assignment.handle) || assignment.handle == core.primary.handle
        },
    decreases answers.len(),
{
    if answers.len() == 0 {
        attempts_begin_on_course(core, frame, ctx, previous);
        lemma_ended(begun(core, frame, ctx, previous), core, frame, ctx);
    } else {
        attempts_change_one_allowed_plane_or_none(
            core,
            frame,
            ctx,
            previous,
            answers.drop_last(),
        );
        let p = run(core, frame, ctx, previous, answers.drop_last());
        let q = answered(p, ctx, previous, answers.last());
        answers_keep_on_course(p, frame, ctx, previous, answers.last());
        assert(run(core, frame, ctx, previous, answers) == q);
        lemma_ended(q, core, frame, ctx);
    }
}

/// However questions are answered: an effect, and an element that lies below an effect, is never put
/// on a plane, so an effect finds what it samples in what is rendered.
pub proof fn effects_find_what_they_sample(
    core: CoreView,
    frame: Seq<(u32, PlaneState)>,
    ctx: ElementContext,
    previous: Seq<(u32, PlaneState)>,
    answers: Seq<Answer>,
)
    requires
        ctx.info.is_framebuffer_effect || ctx.below_effect,
    ensures
        run(core, frame, ctx, previous, answers) == (Progress {
            phase: Phase::Done(Err(None)),
            reason: None,
            core,
            frame,
        }),
    decreases answers.len(),
{
    if answers.len() > 0 {
        effects_find_what_they_sample(core, frame, ctx, previous, answers.drop_last());
    }
}

proof fn lemma_ended(
    q: Progress,
    core: CoreView,
    frame: Seq<(u32, PlaneState)>,
    ctx: ElementContext,
)
    requires
        on_course(q, frame, ctx),
        same_planes(q.core, core),
    ensures
        q.phase matches Phase::Done(Err(_)) ==> q.frame == frame,
        q.phase matches Phase::Done(Ok(assignment)) ==> {
            &&& allowed_assignment(core, frame, ctx, assignment)
            &&& shows_on_or_tested(
                q.frame,
                frame,
                ctx,
                assignment.handle,
                assignment.type_ == PlaneType::Cursor,
            )
            &&& !assigned(frame, assignment.handle) || assignment.handle == core.primary.handle
        },
{
    reveal(on_course);
    if let Phase::Done(Ok(assignment)) = q.phase {
        lemma_allowed_anywhere(q.core, core, frame, ctx, assignment);
    }
}

proof fn lemma_allowed_anywhere(
    a: CoreView,
    b: CoreView,
    base: Seq<(u32, PlaneState)>,
    ctx: ElementContext,
    assignment: PlaneAssignment,
)
    requires
        same_planes(a, b),
        allowed_assignment(a, base, ctx, assignment),
    ensures
        allowed_assignment(b, base, ctx, assignment),
        !assigned(base, assignment.handle) || assignment.handle == b.primary.handle,
{
    if exists|target: Target|
        #![trigger allowed(a, base, ctx, target)]
        allowed(a, base, ctx, target) && target_plane(a, target).assignment_spec() == assignment {
        let target = choose|target: Target|
            #![trigger allowed(a, base, ctx, target)]
            allowed(a, base, ctx, target) && target_plane(a, target).assignment_spec()
                == assignment;
        assert(allowed(b, base, ctx, target));
    } else {
        let index = choose|index: int|
            #![trigger cursor_allowed(a, base, ctx, index)]
            0 <= index && cursor_allowed(a, base, ctx, index)
                && a.planes.cursor@[index].assignment_spec() == assignment;
        assert(cursor_allowed(b, base, ctx, index));
        assert(!assigned(base, a.planes.cursor@[index].handle));
    }
}

proof fn lemma_allowed_fenced(
    core: CoreView,
    base: Seq<(u32, PlaneState)>,
    fenced_base: Seq<(u32, PlaneState)>,
    ctx: ElementContext,
)
    requires
        fenced(base, fenced_base),
    ensures
        forall|target: Target| #[trigger]
            allowed(core, base, ctx, target) ==> allowed(core, fenced_base, ctx, target),
        forall|index: int| #[trigger]
            cursor_allowed(core, base, ctx, index) ==> cursor_allowed(
                core,
                fenced_base,
                ctx,
                index,
            ),
{
    assert forall|h: u32| #[trigger] assigned(fenced_base, h) == assigned(base, h) by {
        fences_change_nothing_else(base, fenced_base, h);
    }
    assert forall|h: u32, g: crate::geometry::Rectangle| #[trigger]
        plane_overlaps(fenced_base, h, g) == plane_overlaps(base, h, g) by {
        fences_change_nothing_else(base, fenced_base, h);
    }
    fences_change_nothing_else(base, fenced_base, core.primary.handle);
    assert forall|target: Target| #[trigger] allowed(core, base, ctx, target) implies allowed(
        core,
        fenced_base,
        ctx,
        target,
    ) by {
        let before = Progress { phase: Phase::Done(Err(None)), reason: None, core, frame: base };
        let after = Progress {
            phase: Phase::Done(Err(None)),
            reason: None,
            core,
            frame: fenced_base,
        };
        assert(crate::assignment::buffer_of(fenced_base, core.primary.handle)
            == crate::assignment::buffer_of(base, core.primary.handle));
        match target {
            Target::Primary => {},
            Target::Matching(i) => {
                assert(admits(before, ctx, i as int));
                assert(admits(after, ctx, i as int));
            },
            Target::Any(i) => {
                assert(admits(before, ctx, i as int));
                assert(admits(after, ctx, i as int));
            },
        }
    }
}

/// Fences that are stored for a test keep an attempt on course: the frame it started from is taken
/// to have them too.
pub proof fn fences_keep_on_course(
    p: Progress,
    frame: Seq<(u32, PlaneState)>,
    base: Seq<(u32, PlaneState)>,
    ctx: ElementContext,
) -> (fenced_base: Seq<(u32, PlaneState)>)
    requires
        on_course(p, base, ctx),
        fenced(p.frame, frame),
        p.phase is Test || p.phase is CursorTest,
    ensures
        on_course(Progress { frame, ..p }, fenced_base, ctx),
        fenced(base, fenced_base),
{
    reveal(on_course);
    let (handle, drawn, backup) = match p.phase {
        Phase::Test { target, config, backup } => (
            target_plane(p.core, target).handle,
            false,
            backup,
        ),
        Phase::CursorTest { index, backup } => (
            p.core.planes.cursor@[index as int].handle,
            true,
            backup,
        ),
        _ => (0u32, false, PlaneState::idle()),
    };
    assert(state_of(base, handle) == Some(backup));
    let state = choose|state: PlaneState|
        #![trigger with_state(base, handle, state)]
        p.frame == with_state(base, handle, state) && shows_element(state, ctx, drawn);
    let at = index_of(base, handle);
    crate::frame_state::index_is_the_first_entry(base, handle);
    let fenced_base = frame.update(at, base[at]);
    assert forall|i: int| 0 <= i < base.len() implies entry_fenced(
        #[trigger] base[i],
        fenced_base[i],
    ) by {
        if i != at {
            assert(entry_fenced(p.frame[i], frame[i]));
            assert(p.frame[i] == base[i]);
        }
    }
    fences_change_nothing_else(base, fenced_base, handle);
    assert(entry_fenced(p.frame[at], frame[at]));
    let fenced_state = frame[at].1;
    assert(frame[at].0 == handle);
    assert(frame =~= with_state(fenced_base, handle, fenced_state));
    assert(shows_element(fenced_state, ctx, drawn));
    assert(shows_on(frame, fenced_base, ctx, handle, drawn));
    assert(state_of(fenced_base, handle) == Some(backup));
    lemma_allowed_fenced(p.core, base, fenced_base, ctx);
    fenced_base
}

} // verus!
