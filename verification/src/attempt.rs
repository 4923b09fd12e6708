//! The attempt to find a plane for one element.
//!
//! Whether a combination of planes works can only be found out by asking the device. An
//! [`Attempt`] therefore goes from one question to the next: it says what it needs to know, is
//! told the answer, and ends with a plane or with the reason why the element has to be rendered.

use vstd::prelude::*;
use crate::assignment::{
    cache_export, cursor_open, cursor_open_spec, cursor_config_spec, cursor_plane_size,
    cursor_plane_size_spec, cursor_plane_state, cursor_stays_compatible, cursor_update,
    cursor_update_spec, element_plane_config, element_plane_state, element_properties,
    element_properties_spec, export_key, export_key_spec, export_outcome, first_reason, has_bit,
    know_element, known_states, or_reason, overlay_admits, overlay_admits_spec, overlay_open,
    overlay_open_spec, plan_cursor, plan_plane, plane_matches, plane_matches_spec, planes_settled,
    previous_commit, previous_commit_spec, primary_open, primary_open_spec, primary_refusal,
    primary_refusal_spec, register_instance, registered_states, remaining_states, snapshot_of,
    stays_compatible, with_bit, buffer_of, CursorPlacement, CursorState, CursorUpdate,
    ElementPlaneConfig,
};
use crate::buffer::{CachedDrmFramebuffer, DrmScanoutBuffer, FramebufferInfo, ScanoutBuffer, UnderlyingStorage};
use crate::core_state::{Core, CoreView};
use crate::element::{ElementInfo, Kind, OutputState, RenderingReason};
use crate::element_states::{
    cached, failed_planes_of, with_failed_planes, with_framebuffer, ElementFramebufferCacheKey,
    ExportBufferError, PlanesSnapshot,
};
use crate::flags::FrameFlags;
use crate::frame_state::{all_tested, assigned, knows, state_of, with_state, FrameState};
use crate::geometry::{Rectangle, Size, Transform};
use crate::plane::{PlaneAssignment, PlaneInfo, PlaneState, SrcRect};
use crate::transform::{cursor_plane_location, cursor_plane_location_fits, cursor_plane_origin};

verus! {

/// The element that a plane is looked for, and the circumstances.
#[derive(Clone, Copy, Debug, PartialEq, Eq, Structural)]
pub struct ElementContext {
    pub info: ElementInfo,
    /// The place among the visible elements, front to back.
    pub z_index: usize,
    pub is_opaque: bool,
    /// Something that is rendered overlaps the element and is in front of it.
    pub below_rendered: bool,
    /// An effect overlaps the element and is in front of it.
    pub below_effect: bool,
    /// The element is the last one, and the primary plane would show it alone.
    pub try_primary: bool,
    pub flags: FrameFlags,
    pub output: OutputState,
}

/// The plane that is being tried. Overlay planes are tried twice: first those that showed an
/// element in just this way before, then all of them.
#[derive(Clone, Copy, Debug, PartialEq, Eq, Structural)]
pub enum Target {
    Primary,
    Matching(usize),
    Any(usize),
}

/// What an attempt waits for.
#[derive(Clone, Copy, Debug, PartialEq, Eq)]
pub enum Phase {
    /// A framebuffer for the element.
    Export { primary: bool, key: ElementFramebufferCacheKey },
    /// The claim of a plane.
    Claim { target: Target, config: ElementPlaneConfig },
    /// The damage of the element since the plane showed it last.
    Damage { target: Target, config: ElementPlaneConfig, claim: u64 },
    /// The device's verdict.
    Test { target: Target, config: ElementPlaneConfig, backup: PlaneState },
    /// The claim of a cursor plane. Planes that showed a cursor before are tried first.
    CursorClaim { kept: bool, index: usize },
    /// A buffer with the cursor drawn in it.
    CursorDraw { index: usize, claim: u64, placement: CursorPlacement },
    /// The device's verdict on the cursor plane.
    CursorTest { index: usize, backup: PlaneState },
    /// Nothing any more.
    Done(Result<PlaneAssignment, Option<RenderingReason>>),
}

/// A question of an attempt.
#[derive(Clone, Copy, Debug, PartialEq, Eq)]
pub enum Request {
    /// Make a framebuffer of the element's storage.
    ExportFramebuffer { allow_opaque_fallback: bool },
    /// Claim a plane.
    ClaimPlane(u32),
    /// Collect the damage since a commit, and make damage clips of it if there is any.
    CollectDamage { since: Option<u64>, src: SrcRect, geometry: Rectangle, transform: Transform },
    /// Draw the element into a new cursor buffer and make a framebuffer of that.
    DrawCursor { element_size: Size, plane_size: Size },
    /// Test the frame as it is now, as a partial update without a modeset.
    TestFrame,
    /// The attempt is over.
    Finished(Result<PlaneAssignment, Option<RenderingReason>>),
}

/// Everything that an attempt changes.
#[verifier::ext_equal]
pub struct Progress {
    pub phase: Phase,
    pub reason: Option<RenderingReason>,
    pub core: CoreView,
    pub frame: Seq<(u32, PlaneState)>,
}

impl ElementContext {
    /// The extent of the element on the device.
    pub open spec fn element_size_spec(self) -> Size {
        self.output.transform.transform_size_spec(self.info.geometry.size)
    }

    pub open spec fn placement_spec(self, plane: PlaneInfo, cursor_size: Size) -> CursorPlacement {
        let size = cursor_plane_size_spec(plane, self.element_size_spec(), cursor_size);
        CursorPlacement {
            element_size: self.element_size_spec(),
            size,
            location: cursor_plane_origin(
                self.info.location,
                size,
                self.output.geometry,
                self.output.transform,
            ),
        }
    }

    /// Whether the element can be placed on every plane it might go to.
    pub open spec fn fits(self, core: CoreView) -> bool {
        element_fits(self.info, self.output, core)
    }
}

/// Whether an element can be placed on every plane it might go to.
pub open spec fn element_fits(info: ElementInfo, output: OutputState, core: CoreView) -> bool {
    &&& output.transform.rect_fits(info.geometry, output.geometry.size)
    &&& cursor_fits(info, output, core)
}

/// Whether a cursor can be placed on every cursor plane.
pub open spec fn cursor_fits(info: ElementInfo, output: OutputState, core: CoreView) -> bool {
    info.kind == Kind::Cursor ==> forall|i: int|
        0 <= i < core.planes.cursor@.len() ==> cursor_plane_location_fits(
            info.location,
            cursor_plane_size_spec(
                #[trigger] core.planes.cursor@[i],
                output.transform.transform_size_spec(info.geometry.size),
                core.cursor_size,
            ),
            output.geometry,
            output.transform,
        )
}

/// The plane that a target stands for.
pub open spec fn target_plane(core: CoreView, target: Target) -> PlaneInfo {
    match target {
        Target::Primary => core.primary,
        Target::Matching(i) => core.planes.overlay@[i as int],
        Target::Any(i) => core.planes.overlay@[i as int],
    }
}

pub open spec fn target_exists(core: CoreView, target: Target) -> bool {
    match target {
        Target::Primary => true,
        Target::Matching(i) => i < core.planes.overlay@.len(),
        Target::Any(i) => i < core.planes.overlay@.len(),
    }
}

/// Whether the phase speaks of planes and framebuffers that exist.
pub open spec fn phase_wf(phase: Phase, ctx: ElementContext, core: CoreView) -> bool {
    match phase {
        Phase::Export { primary, key } => export_key_spec(ctx.info, primary) == Ok::<
            ElementFramebufferCacheKey,
            ExportBufferError,
        >(key) && core.states.contains_key(ctx.info.id),
        Phase::Claim { target, config } => target_exists(core, target),
        Phase::Damage { target, config, claim } => target_exists(core, target),
        Phase::Test { target, config, backup } => target_exists(core, target),
        Phase::CursorClaim { kept, index } => index < core.planes.cursor@.len()
            && core.cursor.is_some() && ctx.info.kind == Kind::Cursor,
        Phase::CursorDraw { index, claim, placement } => index < core.planes.cursor@.len()
            && core.cursor.is_some(),
        Phase::CursorTest { index, backup } => index < core.planes.cursor@.len()
            && core.cursor.is_some(),
        Phase::Done(_) => true,
    }
}

/// Ends with a plane, or with the reason that was found first.
pub open spec fn failed(p: Progress) -> Progress {
    Progress { phase: Phase::Done(Err(p.reason)), ..p }
}

pub open spec fn ended(p: Progress, plane: PlaneInfo) -> Progress {
    Progress { phase: Phase::Done(Ok(plane.assignment_spec())), ..p }
}

pub open spec fn with_reason(p: Progress, reason: Option<RenderingReason>) -> Progress {
    Progress { reason: first_reason(p.reason, reason), ..p }
}

/// The configuration that shows the element with the given framebuffer.
pub open spec fn element_config_spec(ctx: ElementContext, fb: CachedDrmFramebuffer) -> ElementPlaneConfig {
    ElementPlaneConfig {
        z_index: ctx.z_index,
        geometry: ctx.info.geometry,
        properties: element_properties_spec(ctx.info, ctx.info.storage->0, ctx.output, fb),
        buffer: DrmScanoutBuffer {
            buffer: ScanoutBuffer::from_underlying_storage_spec(ctx.info.storage->0)->0,
            fb,
        },
    }
}

/// The states of elements once the element has an instance for the configuration.
pub open spec fn registered(
    p: Progress,
    ctx: ElementContext,
    config: ElementPlaneConfig,
    previous: Seq<(u32, PlaneState)>,
) -> Progress {
    Progress {
        core: CoreView {
            states: registered_states(
                p.core.states,
                p.core.previous_states,
                ctx.info.id,
                config.properties,
                snapshot_of(p.frame, p.core.primary.handle, p.core.planes),
                planes_settled(p.frame, previous, p.core.primary.handle, p.core.planes),
            ),
            ..p.core
        },
        ..p
    }
}

/// Whether the overlay plane may be tried for the element.
pub open spec fn admits(p: Progress, ctx: ElementContext, index: int) -> bool {
    overlay_admits_spec(
        p.frame,
        p.core.primary,
        p.core.planes.overlay@,
        p.core.planes.overlay@[index],
        ctx.info.geometry,
        ctx.is_opaque,
        match buffer_of(p.frame, p.core.primary.handle) {
            Some(buffer) => p.core.formats.has_alpha_spec(buffer.fb.format_spec().code),
            None => false,
        },
        ctx.below_rendered,
    )
}

/// Goes on with all overlay planes from a position: those known to fail give a reason and are
/// passed over, those that do not admit the element are passed over.
pub open spec fn try_any(
    p: Progress,
    ctx: ElementContext,
    config: ElementPlaneConfig,
    index: nat,
) -> Progress
    decreases p.core.planes.overlay@.len() - index,
{
    if index >= p.core.planes.overlay@.len() {
        failed(p)
    } else if has_bit(
        failed_planes_of(p.core.states, ctx.info.id, config.properties).overlay_bitmask,
        index as int,
    ) {
        try_any(
            with_reason(p, Some(RenderingReason::ScanoutFailed)),
            ctx,
            config,
            index + 1,
        )
    } else if admits(p, ctx, index as int) {
        Progress { phase: Phase::Claim { target: Target::Any(index as usize), config }, ..p }
    } else {
        try_any(p, ctx, config, index + 1)
    }
}

/// Goes on with the overlay planes from a position that showed an element in this way before, and
/// then with all of them.
pub open spec fn try_matching(
    p: Progress,
    ctx: ElementContext,
    config: ElementPlaneConfig,
    previous: Seq<(u32, PlaneState)>,
    index: nat,
) -> Progress
    decreases p.core.planes.overlay@.len() - index,
{
    if index >= p.core.planes.overlay@.len() {
        try_any(p, ctx, config, 0)
    } else if plane_matches_spec(previous, p.core.planes.overlay@[index as int].handle, config)
        && admits(p, ctx, index as int) {
        Progress { phase: Phase::Claim { target: Target::Matching(index as usize), config }, ..p }
    } else {
        try_matching(p, ctx, config, previous, index + 1)
    }
}

/// Goes on with an overlay plane, given the framebuffer of the element.
pub open spec fn overlay_configured(
    p: Progress,
    ctx: ElementContext,
    fb: Result<CachedDrmFramebuffer, ExportBufferError>,
    previous: Seq<(u32, PlaneState)>,
) -> Progress {
    match fb {
        Ok(fb) => {
            let config = element_config_spec(ctx, fb);
            try_matching(registered(p, ctx, config, previous), ctx, config, previous, 0)
        },
        Err(error) => failed(with_reason(p, error.rendering_reason_spec())),
    }
}

/// The progress once the element is among the states of this frame.
pub open spec fn known(p: Progress, ctx: ElementContext) -> Progress {
    Progress {
        core: CoreView {
            states: known_states(p.core.states, p.core.previous_states, ctx.info.id),
            previous_states: remaining_states(p.core.states, p.core.previous_states, ctx.info.id),
            ..p.core
        },
        ..p
    }
}

/// Goes on with the overlay planes.
pub open spec fn try_overlay(
    p: Progress,
    ctx: ElementContext,
    previous: Seq<(u32, PlaneState)>,
) -> Progress {
    if !overlay_open_spec(p.frame, p.core.planes.overlay@, ctx.flags, ctx.info.kind) {
        failed(p)
    } else {
        match export_key_spec(ctx.info, false) {
            Err(error) => failed(with_reason(p, error.rendering_reason_spec())),
            Ok(key) => {
                let k = known(p, ctx);
                match cached(k.core.states[ctx.info.id].fb_cache, key) {
                    Some(fb) => overlay_configured(k, ctx, fb, previous),
                    None => Progress { phase: Phase::Export { primary: false, key }, ..k },
                }
            },
        }
    }
}

/// Goes on with claiming a cursor plane from a position: first those that showed a cursor before,
/// then all of them.
pub open spec fn try_cursor_planes(
    p: Progress,
    ctx: ElementContext,
    previous: Seq<(u32, PlaneState)>,
    kept: bool,
    index: nat,
) -> Progress
    decreases (if kept { 1int } else { 0int }), p.core.planes.cursor@.len() - index,
{
    if index >= p.core.planes.cursor@.len() {
        if kept {
            try_cursor_planes(p, ctx, previous, false, 0)
        } else {
            try_overlay(p, ctx, previous)
        }
    } else if !kept || assigned(previous, p.core.planes.cursor@[index as int].handle) {
        Progress { phase: Phase::CursorClaim { kept, index: index as usize }, ..p }
    } else {
        try_cursor_planes(p, ctx, previous, kept, index + 1)
    }
}

/// Goes on with the cursor planes.
pub open spec fn try_cursor(
    p: Progress,
    ctx: ElementContext,
    previous: Seq<(u32, PlaneState)>,
) -> Progress {
    if p.core.policy.reserves_spec() || p.core.cursor.is_none() || !cursor_open_spec(
        p.frame,
        p.core.planes.cursor@,
        ctx.flags,
        ctx.info.kind,
        ctx.element_size_spec(),
        p.core.cursor_size,
    ) {
        try_overlay(p, ctx, previous)
    } else {
        try_cursor_planes(p, ctx, previous, true, 0)
    }
}

/// Goes on with the primary plane, given the framebuffer of the element.
pub open spec fn primary_configured(
    p: Progress,
    ctx: ElementContext,
    fb: Result<CachedDrmFramebuffer, ExportBufferError>,
    previous: Seq<(u32, PlaneState)>,
) -> Progress {
    match fb {
        Err(error) => try_cursor(with_reason(p, error.rendering_reason_spec()), ctx, previous),
        Ok(fb) => {
            let config = element_config_spec(ctx, fb);
            let r = registered(p, ctx, config, previous);
            match primary_refusal_spec(
                r.frame,
                r.core.primary,
                r.core.planes.overlay@,
                ctx.flags,
                config,
                failed_planes_of(r.core.states, ctx.info.id, config.properties),
            ) {
                Ok(_) => Progress { phase: Phase::Claim { target: Target::Primary, config }, ..r },
                Err(reason) => try_cursor(with_reason(r, reason), ctx, previous),
            }
        },
    }
}

/// Goes on with the primary plane.
pub open spec fn try_primary(
    p: Progress,
    ctx: ElementContext,
    previous: Seq<(u32, PlaneState)>,
) -> Progress {
    if !primary_open_spec(p.frame, p.core.primary.handle, ctx.flags) {
        try_cursor(p, ctx, previous)
    } else {
        match export_key_spec(ctx.info, true) {
            Err(error) => try_cursor(with_reason(p, error.rendering_reason_spec()), ctx, previous),
            Ok(key) => {
                let k = known(p, ctx);
                match cached(k.core.states[ctx.info.id].fb_cache, key) {
                    Some(fb) => primary_configured(k, ctx, fb, previous),
                    None => Progress { phase: Phase::Export { primary: true, key }, ..k },
                }
            },
        }
    }
}

/// How an attempt begins. Effects and what lies behind them are never put on planes.
pub open spec fn begun(
    core: CoreView,
    frame: Seq<(u32, PlaneState)>,
    ctx: ElementContext,
    previous: Seq<(u32, PlaneState)>,
) -> Progress {
    let p = Progress { phase: Phase::Done(Err(None)), reason: None, core, frame };
    if !ctx.flags.has_any(FrameFlags::ALLOW_SCANOUT) || ctx.info.is_framebuffer_effect
        || ctx.below_effect {
        p
    } else if ctx.try_primary {
        try_primary(p, ctx, previous)
    } else {
        try_cursor(p, ctx, previous)
    }
}

/// Goes on after a plane did not work out. That the device refused it is remembered, unless the
/// plane was only tried because it matched.
pub open spec fn target_failed(
    p: Progress,
    ctx: ElementContext,
    previous: Seq<(u32, PlaneState)>,
    target: Target,
    config: ElementPlaneConfig,
    reason: Option<RenderingReason>,
) -> Progress {
    let failed_planes = failed_planes_of(p.core.states, ctx.info.id, config.properties);
    let refused = reason == Some(RenderingReason::ScanoutFailed);
    match target {
        Target::Primary => {
            let noted = if refused {
                noting(p, ctx, config, PlanesSnapshot { primary: true, ..failed_planes })
            } else {
                p
            };
            try_cursor(with_reason(noted, reason), ctx, previous)
        },
        Target::Matching(i) => try_matching(p, ctx, config, previous, (i + 1) as nat),
        Target::Any(i) => {
            let noted = if refused {
                noting(
                    p,
                    ctx,
                    config,
                    PlanesSnapshot {
                        overlay_bitmask: with_bit(failed_planes.overlay_bitmask, i as int),
                        ..failed_planes
                    },
                )
            } else {
                p
            };
            try_any(with_reason(noted, reason), ctx, config, (i + 1) as nat)
        },
    }
}

pub open spec fn noting(
    p: Progress,
    ctx: ElementContext,
    config: ElementPlaneConfig,
    failed_planes: PlanesSnapshot,
) -> Progress {
    Progress {
        core: CoreView {
            states: with_failed_planes(
                p.core.states,
                ctx.info.id,
                config.properties,
                failed_planes,
            ),
            ..p.core
        },
        ..p
    }
}

/// Once the framebuffer of the element was made, or could not be made.
pub open spec fn exported(
    p: Progress,
    ctx: ElementContext,
    previous: Seq<(u32, PlaneState)>,
    primary: bool,
    key: ElementFramebufferCacheKey,
    result: Result<Option<FramebufferInfo>, ()>,
) -> Progress {
    let fb = export_outcome(result);
    let stored = Progress {
        core: CoreView {
            states: with_framebuffer(p.core.states, ctx.info.id, key, fb),
            ..p.core
        },
        ..p
    };
    if primary {
        primary_configured(stored, ctx, fb, previous)
    } else {
        overlay_configured(stored, ctx, fb, previous)
    }
}

/// Once a plane was claimed, or could not be claimed.
pub open spec fn claimed(
    p: Progress,
    ctx: ElementContext,
    previous: Seq<(u32, PlaneState)>,
    target: Target,
    config: ElementPlaneConfig,
    claim: Option<u64>,
) -> Progress {
    match claim {
        None => target_failed(p, ctx, previous, target, config, None),
        Some(claim) => if target_plane(p.core, target).formats@.contains(config.properties.format) {
            Progress { phase: Phase::Damage { target, config, claim }, ..p }
        } else {
            target_failed(
                p,
                ctx,
                previous,
                target,
                config,
                Some(RenderingReason::FormatUnsupported),
            )
        },
    }
}

/// Once the damage is known. A plane that is shown as before needs no test.
pub open spec fn damaged(
    p: Progress,
    ctx: ElementContext,
    previous: Seq<(u32, PlaneState)>,
    target: Target,
    config: ElementPlaneConfig,
    claim: u64,
    has_damage: bool,
    damage_clips: Option<u64>,
) -> Progress {
    let plane = target_plane(p.core, target);
    let clips = if has_damage {
        damage_clips
    } else {
        None
    };
    let plane_config = element_plane_config(config, clips, claim, p.core.signaled_fence);
    let before = state_of(previous, plane.handle);
    let state = element_plane_state(before, ctx.info, config.z_index, plane_config, has_damage);
    let set = Progress { frame: with_state(p.frame, plane.handle, state), ..p };
    if stays_compatible(before, plane_config) || !knows(p.frame, plane.handle) {
        ended(set, plane)
    } else {
        Progress {
            phase: Phase::Test {
                target,
                config,
                backup: state_of(p.frame, plane.handle)->0,
            },
            ..set
        }
    }
}

/// Once the device gave its verdict. A refused state is taken back.
pub open spec fn tested(
    p: Progress,
    ctx: ElementContext,
    previous: Seq<(u32, PlaneState)>,
    target: Target,
    config: ElementPlaneConfig,
    backup: PlaneState,
    passed: bool,
) -> Progress {
    let plane = target_plane(p.core, target);
    if passed {
        ended(Progress { frame: all_tested(p.frame), ..p }, plane)
    } else {
        target_failed(
            Progress { frame: with_state(p.frame, plane.handle, backup), ..p },
            ctx,
            previous,
            target,
            config,
            Some(RenderingReason::ScanoutFailed),
        )
    }
}

/// Once a cursor plane was claimed, or could not be claimed.
pub open spec fn cursor_claimed(
    p: Progress,
    ctx: ElementContext,
    previous: Seq<(u32, PlaneState)>,
    kept: bool,
    index: usize,
    claim: Option<u64>,
) -> Progress {
    match claim {
        None => try_cursor_planes(p, ctx, previous, kept, (index + 1) as nat),
        Some(claim) => {
            let plane = p.core.planes.cursor@[index as int];
            let placement = ctx.placement_spec(plane, p.core.cursor_size);
            match cursor_update_spec(
                p.core.cursor->0,
                state_of(previous, plane.handle),
                ctx.info,
                placement,
                ctx.output,
            ) {
                CursorUpdate::Keep(state) => ended(
                    Progress { frame: with_state(p.frame, plane.handle, state), ..p },
                    plane,
                ),
                CursorUpdate::Reposition(state) => ended(
                    Progress { frame: with_state(p.frame, plane.handle, state), ..p },
                    plane,
                ),
                CursorUpdate::Render => Progress {
                    phase: Phase::CursorDraw { index, claim, placement },
                    ..p
                },
            }
        },
    }
}

/// The cursor plane was drawn for this output.
pub open spec fn cursor_shown(p: Progress, ctx: ElementContext, plane: PlaneInfo) -> Progress {
    ended(
        Progress {
            core: CoreView {
                cursor: Some(
                    CursorState {
                        previous_output_transform: Some(ctx.output.transform),
                        previous_output_scale: Some(ctx.output.scale),
                        ..p.core.cursor->0
                    },
                ),
                ..p.core
            },
            ..p
        },
        plane,
    )
}

/// Once the cursor was drawn, or could not be drawn.
pub open spec fn cursor_drawn(
    p: Progress,
    ctx: ElementContext,
    previous: Seq<(u32, PlaneState)>,
    index: usize,
    claim: u64,
    placement: CursorPlacement,
    drawn: Option<(u64, FramebufferInfo)>,
) -> Progress {
    match drawn {
        None => try_overlay(p, ctx, previous),
        Some((buffer, framebuffer)) => {
            let plane = p.core.planes.cursor@[index as int];
            let config = cursor_config_spec(placement, buffer, framebuffer, claim);
            let compatible = cursor_stays_compatible(state_of(previous, plane.handle), config);
            let state = cursor_plane_state(
                ctx.info,
                ctx.z_index,
                placement.element_size,
                config,
                compatible,
            );
            let set = Progress { frame: with_state(p.frame, plane.handle, state), ..p };
            if compatible || !knows(p.frame, plane.handle) {
                cursor_shown(set, ctx, plane)
            } else {
                Progress {
                    phase: Phase::CursorTest {
                        index,
                        backup: state_of(p.frame, plane.handle)->0,
                    },
                    ..set
                }
            }
        },
    }
}

/// Once the device gave its verdict on the cursor plane.
pub open spec fn cursor_tested(
    p: Progress,
    ctx: ElementContext,
    previous: Seq<(u32, PlaneState)>,
    index: usize,
    backup: PlaneState,
    passed: bool,
) -> Progress {
    let plane = p.core.planes.cursor@[index as int];
    if passed {
        cursor_shown(Progress { frame: all_tested(p.frame), ..p }, ctx, plane)
    } else {
        try_overlay(
            Progress { frame: with_state(p.frame, plane.handle, backup), ..p },
            ctx,
            previous,
        )
    }
}

/// The search for a plane for one element.
#[derive(Clone, Copy, Debug, PartialEq, Eq)]
pub struct Attempt {
    pub ctx: ElementContext,
    pub phase: Phase,
    pub reason: Option<RenderingReason>,
}

impl Attempt {
    /// Everything that goes into the next step.
    pub open spec fn progress(self, core: CoreView, frame: Seq<(u32, PlaneState)>) -> Progress {
        Progress { phase: self.phase, reason: self.reason, core, frame }
    }

    /// Whether the attempt can go on.
    pub open spec fn wf(self, core: CoreView) -> bool {
        core.wf() && self.ctx.info.comparable() && self.ctx.fits(core) && phase_wf(
            self.phase,
            self.ctx,
            core,
        )
    }

    fn fail(&mut self)
        ensures
            *final(self) == (Attempt { phase: Phase::Done(Err(old(self).reason)), ..*old(self) }),
    {
        self.phase = Phase::Done(Err(self.reason));
    }

    fn end(&mut self, plane: &PlaneInfo)
        ensures
            *final(self) == (Attempt {
                phase: Phase::Done(Ok(plane.assignment_spec())),
                ..*old(self)
            }),
    {
        self.phase = Phase::Done(Ok(plane.assignment()));
    }

    fn add_reason(&mut self, reason: Option<RenderingReason>)
        ensures
            *final(self) == (Attempt {
                reason: first_reason(old(self).reason, reason),
                ..*old(self)
            }),
    {
        self.reason = or_reason(self.reason, reason);
    }

    /// Whether the overlay plane may be tried.
    fn is_admitted(&self, core: &Core, frame: &FrameState, index: usize) -> (r: bool)
        requires
            index < core.planes.overlay@.len(),
        ensures
            r == admits(self.progress(core@, frame@), self.ctx, index as int),
    {
        let primary_has_alpha = match frame.plane_buffer(core.primary.handle) {
            Some(buffer) => core.formats.has_alpha(buffer.fb.format().code),
            None => false,
        };
        overlay_admits(
            frame,
            &core.primary,
            &core.planes.overlay,
            &core.planes.overlay[index],
            self.ctx.info.geometry,
            self.ctx.is_opaque,
            primary_has_alpha,
            self.ctx.below_rendered,
        )
    }

    fn try_any(&mut self, core: &Core, frame: &FrameState, config: ElementPlaneConfig, start: usize)
        requires
            old(self).wf_base(core@),
        ensures
            final(self).ctx == old(self).ctx,
            final(self).wf(core@),
            final(self).progress(core@, frame@) == try_any(
                old(self).progress(core@, frame@),
                old(self).ctx,
                config,
                start as nat,
            ),
    {
        let failed_planes = core.states.failed_planes(self.ctx.info.id, config.properties);
        let mut index: usize = start;
        while index < core.planes.overlay.len()
            invariant
                self.ctx == old(self).ctx,
                self.phase == old(self).phase,
                self.wf_base(core@),
                failed_planes == failed_planes_of(
                    core@.states,
                    self.ctx.info.id,
                    config.properties,
                ),
                try_any(
                    old(self).progress(core@, frame@),
                    old(self).ctx,
                    config,
                    start as nat,
                ) == try_any(self.progress(core@, frame@), self.ctx, config, index as nat),
            decreases core.planes.overlay.len() - index,
        {
            if failed_planes.overlay_bitmask & (1u32 << (index as u32)) != 0 {
                self.add_reason(Some(RenderingReason::ScanoutFailed));
            } else if self.is_admitted(core, frame, index) {
                self.phase = Phase::Claim { target: Target::Any(index), config };
                return;
            }
            index = index + 1;
        }
        self.fail();
    }

    /// What holds of an attempt whatever its phase is.
    pub open spec fn wf_base(self, core: CoreView) -> bool {
        core.wf() && self.ctx.info.comparable() && self.ctx.fits(core)
    }

    fn try_matching(
        &mut self,
        core: &Core,
        frame: &FrameState,
        previous: &FrameState,
        config: ElementPlaneConfig,
        start: usize,
    )
        requires
            old(self).wf_base(core@),
        ensures
            final(self).ctx == old(self).ctx,
            final(self).wf(core@),
            final(self).progress(core@, frame@) == try_matching(
                old(self).progress(core@, frame@),
                old(self).ctx,
                config,
                previous@,
                start as nat,
            ),
    {
        let mut index: usize = start;
        while index < core.planes.overlay.len()
            invariant
                *self == *old(self),
                self.wf_base(core@),
                try_matching(
                    self.progress(core@, frame@),
                    self.ctx,
                    config,
                    previous@,
                    start as nat,
                ) == try_matching(
                    self.progress(core@, frame@),
                    self.ctx,
                    config,
                    previous@,
                    index as nat,
                ),
            decreases core.planes.overlay.len() - index,
        {
            if plane_matches(previous, core.planes.overlay[index].handle, &config)
                && self.is_admitted(core, frame, index) {
                self.phase = Phase::Claim { target: Target::Matching(index), config };
                return;
            }
            index = index + 1;
        }
        self.try_any(core, frame, config, 0);
    }

    /// How the element is shown with the given framebuffer, once it is remembered as an instance.
    fn element_config(
        &self,
        core: &mut Core,
        frame: &FrameState,
        previous: &FrameState,
        fb: CachedDrmFramebuffer,
    ) -> (r: ElementPlaneConfig)
        requires
            self.wf_base(old(core)@),
            old(core)@.states.contains_key(self.ctx.info.id),
            self.ctx.info.storage matches Some(UnderlyingStorage::Wayland(_)),
        ensures
            r == element_config_spec(self.ctx, fb),
            self.progress(final(core)@, frame@) == registered(
                self.progress(old(core)@, frame@),
                self.ctx,
                r,
                previous@,
            ),
            self.wf_base(final(core)@),
    {
        let storage = match self.ctx.info.storage {
            Some(storage) => storage,
            None => UnderlyingStorage::Memory,
        };
        let buffer = match ScanoutBuffer::from_underlying_storage(storage) {
            Some(buffer) => buffer,
            None => ScanoutBuffer::Cursor(0),
        };
        let config = ElementPlaneConfig {
            z_index: self.ctx.z_index,
            geometry: self.ctx.info.geometry,
            properties: element_properties(&self.ctx.info, storage, &self.ctx.output, fb),
            buffer: DrmScanoutBuffer { buffer, fb },
        };
        register_instance(
            &mut core.states,
            &core.previous_states,
            self.ctx.info.id,
            config.properties,
            frame,
            previous,
            core.primary.handle,
            &core.planes,
        );
        config
    }

    fn overlay_configured(
        &mut self,
        core: &mut Core,
        frame: &FrameState,
        previous: &FrameState,
        fb: Result<CachedDrmFramebuffer, ExportBufferError>,
    )
        requires
            old(self).wf_base(old(core)@),
            old(core)@.states.contains_key(old(self).ctx.info.id),
            old(self).ctx.info.storage matches Some(UnderlyingStorage::Wayland(_)),
        ensures
            final(self).ctx == old(self).ctx,
            final(self).wf(final(core)@),
            final(self).progress(final(core)@, frame@) == overlay_configured(
                old(self).progress(old(core)@, frame@),
                old(self).ctx,
                fb,
                previous@,
            ),
    {
        match fb {
            Ok(fb) => {
                let config = self.element_config(core, frame, previous, fb);
                self.try_matching(core, frame, previous, config, 0);
            },
            Err(error) => {
                self.add_reason(error.rendering_reason());
                self.fail();
            },
        }
    }

    fn try_assign_overlay_plane(&mut self, core: &mut Core, frame: &FrameState, previous: &FrameState)
        requires
            old(self).wf_base(old(core)@),
        ensures
            final(self).ctx == old(self).ctx,
            final(self).wf(final(core)@),
            final(self).progress(final(core)@, frame@) == try_overlay(
                old(self).progress(old(core)@, frame@),
                old(self).ctx,
                previous@,
            ),
    {
        if !overlay_open(frame, &core.planes.overlay, self.ctx.flags, self.ctx.info.kind) {
            self.fail();
            return;
        }
        match export_key(&self.ctx.info, false) {
            Err(error) => {
                self.add_reason(error.rendering_reason());
                self.fail();
            },
            Ok(key) => {
                let id: u64 = self.ctx.info.id;
                know_element(&mut core.states, &mut core.previous_states, id);
                match core.states.framebuffer(id, key) {
                    Some(fb) => self.overlay_configured(core, frame, previous, fb),
                    None => {
                        self.phase = Phase::Export { primary: false, key };
                    },
                }
            },
        }
    }

    fn try_cursor_planes(
        &mut self,
        core: &mut Core,
        frame: &FrameState,
        previous: &FrameState,
        start_kept: bool,
        start: usize,
    )
        requires
            old(self).wf_base(old(core)@),
            old(core)@.cursor.is_some(),
            old(self).ctx.info.kind == Kind::Cursor,
        ensures
            final(self).ctx == old(self).ctx,
            final(self).wf(final(core)@),
            final(self).progress(final(core)@, frame@) == try_cursor_planes(
                old(self).progress(old(core)@, frame@),
                old(self).ctx,
                previous@,
                start_kept,
                start as nat,
            ),
    {
        let mut index: usize = start;
        if start_kept {
            while index < core.planes.cursor.len()
                invariant
                    start_kept,
                    *self == *old(self),
                    *core == *old(core),
                    self.wf_base(core@),
                    core@.cursor.is_some(),
                    self.ctx.info.kind == Kind::Cursor,
                    try_cursor_planes(
                        self.progress(core@, frame@),
                        self.ctx,
                        previous@,
                        true,
                        start as nat,
                    ) == try_cursor_planes(
                        self.progress(core@, frame@),
                        self.ctx,
                        previous@,
                        true,
                        index as nat,
                    ),
                decreases core.planes.cursor.len() - index,
            {
                if previous.is_assigned(core.planes.cursor[index].handle) {
                    self.phase = Phase::CursorClaim { kept: true, index };
                    return;
                }
                index = index + 1;
            }
            index = 0;
        }
        assert(try_cursor_planes(
            self.progress(core@, frame@),
            self.ctx,
            previous@,
            start_kept,
            start as nat,
        ) == try_cursor_planes(self.progress(core@, frame@), self.ctx, previous@, false, index as nat));
        if index < core.planes.cursor.len() {
            self.phase = Phase::CursorClaim { kept: false, index };
        } else {
            self.try_assign_overlay_plane(core, frame, previous);
        }
    }

    fn try_assign_cursor_plane(&mut self, core: &mut Core, frame: &FrameState, previous: &FrameState)
        requires
            old(self).wf_base(old(core)@),
        ensures
            final(self).ctx == old(self).ctx,
            final(self).wf(final(core)@),
            final(self).progress(final(core)@, frame@) == try_cursor(
                old(self).progress(old(core)@, frame@),
                old(self).ctx,
                previous@,
            ),
    {
        let element_size = self.ctx.output.transform.transform_size(self.ctx.info.geometry.size);
        if core.policy.reserves_legacy_cursor() || core.cursor.is_none() || !cursor_open(
            frame,
            &core.planes.cursor,
            self.ctx.flags,
            self.ctx.info.kind,
            element_size,
            core.cursor_size,
        ) {
            self.try_assign_overlay_plane(core, frame, previous);
        } else {
            self.try_cursor_planes(core, frame, previous, true, 0);
        }
    }

    fn primary_configured(
        &mut self,
        core: &mut Core,
        frame: &FrameState,
        previous: &FrameState,
        fb: Result<CachedDrmFramebuffer, ExportBufferError>,
    )
        requires
            old(self).wf_base(old(core)@),
            old(core)@.states.contains_key(old(self).ctx.info.id),
            old(self).ctx.info.storage matches Some(UnderlyingStorage::Wayland(_)),
        ensures
            final(self).ctx == old(self).ctx,
            final(self).wf(final(core)@),
            final(self).progress(final(core)@, frame@) == primary_configured(
                old(self).progress(old(core)@, frame@),
                old(self).ctx,
                fb,
                previous@,
            ),
    {
        match fb {
            Err(error) => {
                self.add_reason(error.rendering_reason());
                self.try_assign_cursor_plane(core, frame, previous);
            },
            Ok(fb) => {
                let config = self.element_config(core, frame, previous, fb);
                let failed_planes = core.states.failed_planes(
                    self.ctx.info.id,
                    config.properties,
                );
                match primary_refusal(
                    frame,
                    &core.primary,
                    &core.planes.overlay,
                    self.ctx.flags,
                    &config,
                    failed_planes,
                ) {
                    Ok(_) => {
                        self.phase = Phase::Claim { target: Target::Primary, config };
                    },
                    Err(reason) => {
                        self.add_reason(reason);
                        self.try_assign_cursor_plane(core, frame, previous);
                    },
                }
            },
        }
    }

    fn try_assign_primary_plane(&mut self, core: &mut Core, frame: &FrameState, previous: &FrameState)
        requires
            old(self).wf_base(old(core)@),
        ensures
            final(self).ctx == old(self).ctx,
            final(self).wf(final(core)@),
            final(self).progress(final(core)@, frame@) == try_primary(
                old(self).progress(old(core)@, frame@),
                old(self).ctx,
                previous@,
            ),
    {
        if !primary_open(frame, core.primary.handle, self.ctx.flags) {
            self.try_assign_cursor_plane(core, frame, previous);
            return;
        }
        match export_key(&self.ctx.info, true) {
            Err(error) => {
                self.add_reason(error.rendering_reason());
                self.try_assign_cursor_plane(core, frame, previous);
            },
            Ok(key) => {
                let id: u64 = self.ctx.info.id;
                know_element(&mut core.states, &mut core.previous_states, id);
                match core.states.framebuffer(id, key) {
                    Some(fb) => self.primary_configured(core, frame, previous, fb),
                    None => {
                        self.phase = Phase::Export { primary: true, key };
                    },
                }
            },
        }
    }

    /// Starts the search for a plane.
    pub fn begin(
        ctx: ElementContext,
        core: &mut Core,
        frame: &FrameState,
        previous: &FrameState,
    ) -> (r: Attempt)
        requires
            old(core)@.wf(),
            ctx.info.comparable(),
            ctx.fits(old(core)@),
        ensures
            r.ctx == ctx,
            r.wf(final(core)@),
            r.progress(final(core)@, frame@) == begun(old(core)@, frame@, ctx, previous@),
    {
        let mut attempt = Attempt { ctx, phase: Phase::Done(Err(None)), reason: None };
        if !ctx.flags.intersects(FrameFlags::ALLOW_SCANOUT) || ctx.info.is_framebuffer_effect
            || ctx.below_effect {
            return attempt;
        }
        if ctx.try_primary {
            attempt.try_assign_primary_plane(core, frame, previous);
        } else {
            attempt.try_assign_cursor_plane(core, frame, previous);
        }
        attempt
    }

    fn target_failed(
        &mut self,
        core: &mut Core,
        frame: &FrameState,
        previous: &FrameState,
        target: Target,
        config: ElementPlaneConfig,
        reason: Option<RenderingReason>,
    )
        requires
            old(self).wf_base(old(core)@),
            target_exists(old(core)@, target),
        ensures
            final(self).ctx == old(self).ctx,
            final(self).wf(final(core)@),
            final(self).progress(final(core)@, frame@) == target_failed(
                old(self).progress(old(core)@, frame@),
                old(self).ctx,
                previous@,
                target,
                config,
                reason,
            ),
    {
        let id: u64 = self.ctx.info.id;
        let refused = matches!(reason, Some(RenderingReason::ScanoutFailed));
        match target {
            Target::Primary => {
                if refused {
                    let mut failed_planes = core.states.failed_planes(id, config.properties);
                    failed_planes.primary = true;
                    core.states.set_failed_planes(id, config.properties, failed_planes);
                }
                self.add_reason(reason);
                self.try_assign_cursor_plane(core, frame, previous);
            },
            Target::Matching(index) => {
                self.try_matching(core, frame, previous, config, index + 1);
            },
            Target::Any(index) => {
                if refused {
                    let mut failed_planes = core.states.failed_planes(id, config.properties);
                    failed_planes.overlay_bitmask = failed_planes.overlay_bitmask | (1u32 << (
                    index as u32));
                    core.states.set_failed_planes(id, config.properties, failed_planes);
                }
                self.add_reason(reason);
                self.try_any(core, frame, config, index + 1);
            },
        }
    }

    /// Takes the framebuffer that was asked for: `None` where the exporter has none to offer, an
    /// error where it failed.
    pub fn exported(
        &mut self,
        core: &mut Core,
        frame: &FrameState,
        previous: &FrameState,
        result: Result<Option<FramebufferInfo>, ()>,
    )
        requires
            old(self).wf(old(core)@),
            old(self).phase is Export,
        ensures
            final(self).ctx == old(self).ctx,
            final(self).wf(final(core)@),
            old(self).phase matches Phase::Export { primary, key } && final(self).progress(
                final(core)@,
                frame@,
            ) == exported(
                old(self).progress(old(core)@, frame@),
                old(self).ctx,
                previous@,
                primary,
                key,
                result,
            ),
    {
        if let Phase::Export { primary, key } = self.phase {
            let fb = cache_export(result);
            core.states.insert_framebuffer(self.ctx.info.id, key, fb);
            if primary {
                self.primary_configured(core, frame, previous, fb);
            } else {
                self.overlay_configured(core, frame, previous, fb);
            }
        }
    }

    /// Takes the claim that was asked for, if there is one to be had.
    pub fn claimed(
        &mut self,
        core: &mut Core,
        frame: &FrameState,
        previous: &FrameState,
        claim: Option<u64>,
    )
        requires
            old(self).wf(old(core)@),
            old(self).phase is Claim,
        ensures
            final(self).ctx == old(self).ctx,
            final(self).wf(final(core)@),
            old(self).phase matches Phase::Claim { target, config } && final(self).progress(
                final(core)@,
                frame@,
            ) == claimed(
                old(self).progress(old(core)@, frame@),
                old(self).ctx,
                previous@,
                target,
                config,
                claim,
            ),
    {
        if let Phase::Claim { target, config } = self.phase {
            match claim {
                None => self.target_failed(core, frame, previous, target, config, None),
                Some(claim) => {
                    let supported = match target {
                        Target::Primary => core.primary.supports(config.properties.format),
                        Target::Matching(index) => core.planes.overlay[index].supports(
                            config.properties.format,
                        ),
                        Target::Any(index) => core.planes.overlay[index].supports(
                            config.properties.format,
                        ),
                    };
                    if supported {
                        self.phase = Phase::Damage { target, config, claim };
                    } else {
                        self.target_failed(
                            core,
                            frame,
                            previous,
                            target,
                            config,
                            Some(RenderingReason::FormatUnsupported),
                        );
                    }
                },
            }
        }
    }

    /// The plane of a target, by value of what is needed from it.
    fn plane_of<'a>(core: &'a Core, target: Target) -> (r: &'a PlaneInfo)
        requires
            target_exists(core@, target),
        ensures
            *r == target_plane(core@, target),
    {
        match target {
            Target::Primary => &core.primary,
            Target::Matching(index) => &core.planes.overlay[index],
            Target::Any(index) => &core.planes.overlay[index],
        }
    }

    /// Takes the damage that was asked for. Clips count only where there is damage.
    pub fn damaged(
        &mut self,
        core: &Core,
        frame: &mut FrameState,
        previous: &FrameState,
        has_damage: bool,
        damage_clips: Option<u64>,
    )
        requires
            old(self).wf(core@),
            old(self).phase is Damage,
        ensures
            final(self).ctx == old(self).ctx,
            final(self).wf(core@),
            old(self).phase matches Phase::Damage { target, config, claim } && final(self).progress(
                core@,
                final(frame)@,
            ) == damaged(
                old(self).progress(core@, old(frame)@),
                old(self).ctx,
                previous@,
                target,
                config,
                claim,
                has_damage,
                damage_clips,
            ),
    {
        if let Phase::Damage { target, config, claim } = self.phase {
            let plane = Self::plane_of(core, target);
            let clips: Option<u64> = if has_damage {
                damage_clips
            } else {
                None
            };
            let (state, compatible) = plan_plane(
                previous.plane_state(plane.handle),
                &self.ctx.info,
                &config,
                has_damage,
                clips,
                claim,
                core.signaled_fence,
            );
            if compatible {
                frame.set_state(plane.handle, state);
                self.end(plane);
            } else {
                match frame.begin_test(plane.handle, state) {
                    Some(backup) => {
                        self.phase = Phase::Test { target, config, backup };
                    },
                    None => self.end(plane),
                }
            }
        }
    }

    /// Takes the verdict on the frame that was to be tested.
    pub fn tested(
        &mut self,
        core: &mut Core,
        frame: &mut FrameState,
        previous: &FrameState,
        passed: bool,
    )
        requires
            old(self).wf(old(core)@),
            old(self).phase is Test,
        ensures
            final(self).ctx == old(self).ctx,
            final(self).wf(final(core)@),
            old(self).phase matches Phase::Test { target, config, backup } && final(self).progress(
                final(core)@,
                final(frame)@,
            ) == tested(
                old(self).progress(old(core)@, old(frame)@),
                old(self).ctx,
                previous@,
                target,
                config,
                backup,
                passed,
            ),
    {
        if let Phase::Test { target, config, backup } = self.phase {
            let handle: u32 = Self::plane_of(core, target).handle;
            frame.finish_test(handle, backup, passed);
            if passed {
                self.end(Self::plane_of(core, target));
            } else {
                self.target_failed(
                    core,
                    frame,
                    previous,
                    target,
                    config,
                    Some(RenderingReason::ScanoutFailed),
                );
            }
        }
    }

    /// Takes the claim of a cursor plane that was asked for, if there is one to be had.
    pub fn cursor_claimed(
        &mut self,
        core: &mut Core,
        frame: &mut FrameState,
        previous: &FrameState,
        claim: Option<u64>,
    )
        requires
            old(self).wf(old(core)@),
            old(self).phase is CursorClaim,
        ensures
            final(self).ctx == old(self).ctx,
            final(self).wf(final(core)@),
            old(self).phase matches Phase::CursorClaim { kept, index } && final(self).progress(
                final(core)@,
                final(frame)@,
            ) == cursor_claimed(
                old(self).progress(old(core)@, old(frame)@),
                old(self).ctx,
                previous@,
                kept,
                index,
                claim,
            ),
    {
        if let Phase::CursorClaim { kept, index } = self.phase {
            let claim: u64 = match claim {
                Some(claim) => claim,
                None => {
                    self.try_cursor_planes(core, frame, previous, kept, index + 1);
                    return;
                },
            };
            let plane = &core.planes.cursor[index];
            let element_size = self.ctx.output.transform.transform_size(
                self.ctx.info.geometry.size,
            );
            let size = cursor_plane_size(plane, element_size, core.cursor_size);
            assert(core@.planes.cursor@[index as int] == *plane);
            let location = cursor_plane_location(
                self.ctx.info.location,
                size,
                self.ctx.output.geometry,
                self.ctx.output.transform,
            );
            let placement = CursorPlacement { element_size, size, location };
            if let Some(cursor) = &core.cursor {
                match cursor_update(
                    cursor,
                    previous.plane_state(plane.handle),
                    &self.ctx.info,
                    &placement,
                    &self.ctx.output,
                ) {
                    CursorUpdate::Keep(state) => {
                        frame.set_state(plane.handle, state);
                        self.end(plane);
                    },
                    CursorUpdate::Reposition(state) => {
                        frame.set_state(plane.handle, state);
                        self.end(plane);
                    },
                    CursorUpdate::Render => {
                        self.phase = Phase::CursorDraw { index, claim, placement };
                    },
                }
            }
        }
    }

    fn show_cursor(&mut self, core: &mut Core, index: usize)
        requires
            old(self).wf_base(old(core)@),
            old(core)@.cursor.is_some(),
            index < old(core)@.planes.cursor@.len(),
        ensures
            final(self).ctx == old(self).ctx,
            final(self).wf(final(core)@),
            forall|frame: Seq<(u32, PlaneState)>| #[trigger]
                final(self).progress(final(core)@, frame) == cursor_shown(
                    old(self).progress(old(core)@, frame),
                    old(self).ctx,
                    old(core)@.planes.cursor@[index as int],
                ),
    {
        if let Some(cursor) = &core.cursor {
            let mut shown = *cursor;
            shown.previous_output_transform = Some(self.ctx.output.transform);
            shown.previous_output_scale = Some(self.ctx.output.scale);
            core.cursor = Some(shown);
        }
        self.end(&core.planes.cursor[index]);
    }

    /// Takes the cursor buffer that was to be drawn, if that worked.
    pub fn cursor_drawn(
        &mut self,
        core: &mut Core,
        frame: &mut FrameState,
        previous: &FrameState,
        drawn: Option<(u64, FramebufferInfo)>,
    )
        requires
            old(self).wf(old(core)@),
            old(self).phase is CursorDraw,
        ensures
            final(self).ctx == old(self).ctx,
            final(self).wf(final(core)@),
            old(self).phase matches Phase::CursorDraw { index, claim, placement }
                && final(self).progress(final(core)@, final(frame)@) == cursor_drawn(
                old(self).progress(old(core)@, old(frame)@),
                old(self).ctx,
                previous@,
                index,
                claim,
                placement,
                drawn,
            ),
    {
        if let Phase::CursorDraw { index, claim, placement } = self.phase {
            match drawn {
                None => self.try_assign_overlay_plane(core, frame, previous),
                Some((buffer, framebuffer)) => {
                    let handle: u32 = core.planes.cursor[index].handle;
                    let (state, compatible) = plan_cursor(
                        previous.plane_state(handle),
                        &self.ctx.info,
                        self.ctx.z_index,
                        &placement,
                        buffer,
                        framebuffer,
                        claim,
                    );
                    if compatible {
                        frame.set_state(handle, state);
                        self.show_cursor(core, index);
                    } else {
                        match frame.begin_test(handle, state) {
                            Some(backup) => {
                                self.phase = Phase::CursorTest { index, backup };
                            },
                            None => self.show_cursor(core, index),
                        }
                    }
                },
            }
        }
    }

    /// Takes the verdict on the frame with the cursor plane that was to be tested.
    pub fn cursor_tested(
        &mut self,
        core: &mut Core,
        frame: &mut FrameState,
        previous: &FrameState,
        passed: bool,
    )
        requires
            old(self).wf(old(core)@),
            old(self).phase is CursorTest,
        ensures
            final(self).ctx == old(self).ctx,
            final(self).wf(final(core)@),
            old(self).phase matches Phase::CursorTest { index, backup } && final(self).progress(
                final(core)@,
                final(frame)@,
            ) == cursor_tested(
                old(self).progress(old(core)@, old(frame)@),
                old(self).ctx,
                previous@,
                index,
                backup,
                passed,
            ),
    {
        if let Phase::CursorTest { index, backup } = self.phase {
            let handle: u32 = core.planes.cursor[index].handle;
            frame.finish_test(handle, backup, passed);
            if passed {
                self.show_cursor(core, index);
            } else {
                self.try_assign_overlay_plane(core, frame, previous);
            }
        }
    }

    pub open spec fn request_spec(self, core: CoreView, previous: Seq<(u32, PlaneState)>) -> Request {
        match self.phase {
            Phase::Export { primary, key } => Request::ExportFramebuffer {
                allow_opaque_fallback: primary,
            },
            Phase::Claim { target, config } => Request::ClaimPlane(
                target_plane(core, target).handle,
            ),
            Phase::Damage { target, config, claim } => Request::CollectDamage {
                since: previous_commit_spec(
                    state_of(previous, target_plane(core, target).handle),
                    self.ctx.info.id,
                ),
                src: config.properties.src,
                geometry: config.geometry,
                transform: self.ctx.info.transform.invert_spec(),
            },
            Phase::Test { target, config, backup } => Request::TestFrame,
            Phase::CursorClaim { kept, index } => Request::ClaimPlane(
                core.planes.cursor@[index as int].handle,
            ),
            Phase::CursorDraw { index, claim, placement } => Request::DrawCursor {
                element_size: placement.element_size,
                plane_size: placement.size,
            },
            Phase::CursorTest { index, backup } => Request::TestFrame,
            Phase::Done(result) => Request::Finished(result),
        }
    }

    /// What the attempt needs to know next.
    pub fn request(&self, core: &Core, previous: &FrameState) -> (r: Request)
        requires
            self.wf(core@),
        ensures
            r == self.request_spec(core@, previous@),
    {
        match self.phase {
            Phase::Export { primary, key: _ } => Request::ExportFramebuffer {
                allow_opaque_fallback: primary,
            },
            Phase::Claim { target, config: _ } => Request::ClaimPlane(
                Self::plane_of(core, target).handle,
            ),
            Phase::Damage { target, config, claim: _ } => Request::CollectDamage {
                since: previous_commit(
                    previous.plane_state(Self::plane_of(core, target).handle),
                    self.ctx.info.id,
                ),
                src: config.properties.src,
                geometry: config.geometry,
                transform: self.ctx.info.transform.invert(),
            },
            Phase::Test { target: _, config: _, backup: _ } => Request::TestFrame,
            Phase::CursorClaim { kept: _, index } => Request::ClaimPlane(
                core.planes.cursor[index].handle,
            ),
            Phase::CursorDraw { index: _, claim: _, placement } => Request::DrawCursor {
                element_size: placement.element_size,
                plane_size: placement.size,
            },
            Phase::CursorTest { index: _, backup: _ } => Request::TestFrame,
            Phase::Done(result) => Request::Finished(result),
        }
    }
}

} // verus!
