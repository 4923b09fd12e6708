//! What holds of the search for a plane, step by step.

use vstd::prelude::*;
use crate::assignment::{
    export_key_spec, export_outcome, has_bit, inherited_failures, known_states, plane_matches_spec,
    planes_settled, registered_states, remaining_states, ElementPlaneConfig,
};
use crate::attempt::{
    admits, begun, claimed, cursor_tested, damaged, element_config_spec, exported, known,
    overlay_configured, registered, target_plane, tested, try_any, try_cursor, try_cursor_planes,
    try_matching, try_overlay, try_primary, with_reason, ElementContext, Phase, Progress, Target,
};
use crate::buffer::{
    CachedDrmFramebuffer, DrmFramebuffer, FramebufferInfo, ScanoutBuffer, UnderlyingStorage,
};
use crate::element::{ElementInfo, Kind, RenderingReason};
use crate::element_states::{
    alive_entries, cached, cleaned_up, failed_planes_of, instance_of, primary_failed,
    with_failed_planes, with_framebuffer, CacheEntry, ElementFramebufferCacheKey,
    ElementInstanceState, ElementStateView, ExportBufferError, PlanesSnapshot,
};
use crate::frame_state::{assigned, knows, state_of, with_state};
use crate::plane::{PlaneProperties, PlaneState, Planes};
use crate::scanout_laws::{degrees, shown_alike};

verus! {

// ---------------------------------------------------------------------------------------------
// Framebuffers
// ---------------------------------------------------------------------------------------------

/// A framebuffer is asked for exactly for a client buffer that can be exported, and kept by that
/// buffer. An element without a storage is told apart from one whose storage does not do.
pub proof fn framebuffers_are_made_of_client_buffers(element: ElementInfo, fallback: bool)
    ensures
        ({
            let key = export_key_spec(element, fallback);
            &&& key is Ok <==> (element.storage matches Some(UnderlyingStorage::Wayland(_)))
                && element.exportable
            &&& key matches Ok(key) ==> (element.storage matches Some(
                UnderlyingStorage::Wayland(buffer),
            ) && key.buffer == buffer.id) && key.allow_opaque_fallback == fallback
            &&& key matches Err(error) ==> (error == ExportBufferError::NoUnderlyingStorage
                <==> element.storage is None) && error != ExportBufferError::ExportFailed
        }),
{
}

/// What comes of an export is what the exporter says, and only a failure of it is a reason to tell the
/// client, which may have a better buffer.
pub proof fn exports_tell_what_came_of_them(info: FramebufferInfo, error: ExportBufferError)
    ensures
        export_outcome(Ok(Some(info))) matches Ok(fb) && fb.framebuffer == DrmFramebuffer::Exporter(
            info,
        ),
        export_outcome(Ok(None)) == Err::<CachedDrmFramebuffer, ExportBufferError>(
            ExportBufferError::Unsupported,
        ),
        export_outcome(Err(())) == Err::<CachedDrmFramebuffer, ExportBufferError>(
            ExportBufferError::ExportFailed,
        ),
        error.rendering_reason_spec() == (if error == ExportBufferError::ExportFailed {
            Some(RenderingReason::ScanoutFailed)
        } else {
            None
        }),
{
}

/// The framebuffers of an element outlive a frame: an element that turns up again has those that it
/// had, and an element that is known keeps what is known about it.
pub proof fn framebuffers_outlive_a_frame(
    states: Map<u64, ElementStateView>,
    previous: Map<u64, ElementStateView>,
    id: u64,
    key: ElementFramebufferCacheKey,
)
    ensures
        known_states(states, previous, id).contains_key(id),
        states.contains_key(id) ==> known_states(states, previous, id)[id] == states[id],
        !states.contains_key(id) && previous.contains_key(id) ==> cached(
            known_states(states, previous, id)[id].fb_cache,
            key,
        ) == cached(previous[id].fb_cache, key),
        !states.contains_key(id) ==> known_states(states, previous, id)[id].instances.len() == 0,
        !states.contains_key(id) && !previous.contains_key(id) ==> cached(
            known_states(states, previous, id)[id].fb_cache,
            key,
        ) is None,
        previous.contains_key(id) ==> remaining_states(states, previous, id).contains_key(id)
            && remaining_states(states, previous, id)[id].instances == previous[id].instances,
{
}

/// A framebuffer is kept exactly as long as its client buffer is.
pub proof fn framebuffers_live_with_their_buffer(
    states: Map<u64, ElementStateView>,
    alive: Seq<u64>,
    id: u64,
    key: ElementFramebufferCacheKey,
)
    requires
        states.contains_key(id),
    ensures
        cleaned_up(states, alive).contains_key(id),
        cleaned_up(states, alive)[id].instances == states[id].instances,
        alive.contains(key.buffer) ==> cached(cleaned_up(states, alive)[id].fb_cache, key)
            == cached(states[id].fb_cache, key),
        !alive.contains(key.buffer) ==> cached(cleaned_up(states, alive)[id].fb_cache, key) is None,
{
    lemma_alive(states[id].fb_cache, alive, key);
}

proof fn lemma_alive(entries: Seq<CacheEntry>, alive: Seq<u64>, key: ElementFramebufferCacheKey)
    ensures
        alive.contains(key.buffer) ==> cached(alive_entries(entries, alive), key) == cached(
            entries,
            key,
        ),
        !alive.contains(key.buffer) ==> cached(alive_entries(entries, alive), key) is None,
    decreases entries.len(),
{
    let keeps = |entry: CacheEntry| alive.contains(entry.0.buffer);
    reveal(Seq::filter);
    if entries.len() > 0 {
        let rest = entries.skip(1);
        lemma_alive(rest, alive, key);
        assert(entries =~= seq![entries[0]] + rest);
        Seq::<CacheEntry>::filter_distributes_over_add(seq![entries[0]], rest, keeps);
        let kept = alive_entries(entries, alive);
        let first = seq![entries[0]].filter(keeps);
        let one = seq![entries[0]];
        assert(one.drop_last() =~= Seq::empty());
        assert(one.drop_last().filter(keeps) =~= Seq::empty());
        assert(one.last() == entries[0]);
        assert(first == one.filter(keeps));
        if keeps(entries[0]) {
            assert(first =~= seq![entries[0]]);
            assert(kept.skip(1) =~= alive_entries(rest, alive));
            assert(kept[0] == entries[0]);
        } else {
            assert(first =~= Seq::empty());
            assert(kept =~= alive_entries(rest, alive));
        }
    }
}

/// A framebuffer that was made is found under its key, and nothing else about elements changes.
pub proof fn made_framebuffers_are_found(
    states: Map<u64, ElementStateView>,
    id: u64,
    key: ElementFramebufferCacheKey,
    fb: Result<CachedDrmFramebuffer, ExportBufferError>,
    other: u64,
)
    requires
        states.contains_key(id),
        cached(states[id].fb_cache, key) is None,
    ensures
        cached(with_framebuffer(states, id, key, fb)[id].fb_cache, key) == Some(fb),
        with_framebuffer(states, id, key, fb)[id].instances == states[id].instances,
        other != id && states.contains_key(other) ==> with_framebuffer(states, id, key, fb)[other]
            == states[other],
{
    crate::element_states::insert_then_get(states[id].fb_cache, key, fb, key);
}

spec fn cache_kept(before: Progress, after: Progress, id: u64) -> bool {
    after.core.states.contains_key(id) && after.core.states[id].fb_cache
        == before.core.states[id].fb_cache
}

proof fn lemma_any_keeps_caches(p: Progress, ctx: ElementContext, config: ElementPlaneConfig, index: nat)
    ensures
        try_any(p, ctx, config, index).core == p.core,
    decreases p.core.planes.overlay@.len() - index,
{
    if index < p.core.planes.overlay@.len() {
        lemma_any_keeps_caches(p, ctx, config, index + 1);
        lemma_any_keeps_caches(
            with_reason(p, Some(RenderingReason::ScanoutFailed)),
            ctx,
            config,
            index + 1,
        );
    }
}

proof fn lemma_matching_keeps_caches(
    p: Progress,
    ctx: ElementContext,
    config: ElementPlaneConfig,
    previous: Seq<(u32, PlaneState)>,
    index: nat,
)
    ensures
        try_matching(p, ctx, config, previous, index).core == p.core,
    decreases p.core.planes.overlay@.len() - index,
{
    if index < p.core.planes.overlay@.len() {
        lemma_matching_keeps_caches(p, ctx, config, previous, index + 1);
    } else {
        lemma_any_keeps_caches(p, ctx, config, 0);
    }
}

proof fn lemma_overlay_keeps_caches(
    p: Progress,
    ctx: ElementContext,
    fb: Result<CachedDrmFramebuffer, ExportBufferError>,
    previous: Seq<(u32, PlaneState)>,
)
    requires
        p.core.states.contains_key(ctx.info.id),
    ensures
        cache_kept(p, overlay_configured(p, ctx, fb, previous), ctx.info.id),
        cache_kept(p, try_overlay(p, ctx, previous), ctx.info.id),
{
    assert forall|made: CachedDrmFramebuffer| cache_kept(
        p,
        #[trigger] overlay_configured(p, ctx, Ok(made), previous),
        ctx.info.id,
    ) by {
        let config = element_config_spec(ctx, made);
        let r = registered(p, ctx, config, previous);
        lemma_matching_keeps_caches(r, ctx, config, previous, 0);
    }
    assert(known(p, ctx) == p);
}

proof fn lemma_cursors_keep_caches(
    p: Progress,
    ctx: ElementContext,
    previous: Seq<(u32, PlaneState)>,
    kept: bool,
    index: nat,
)
    requires
        p.core.states.contains_key(ctx.info.id),
    ensures
        cache_kept(p, try_cursor_planes(p, ctx, previous, kept, index), ctx.info.id),
    decreases (if kept { 1int } else { 0int }), p.core.planes.cursor@.len() - index,
{
    if index >= p.core.planes.cursor@.len() {
        if kept {
            lemma_cursors_keep_caches(p, ctx, previous, false, 0);
        } else {
            lemma_overlay_keeps_caches(p, ctx, Err(ExportBufferError::Unsupported), previous);
        }
    } else if kept {
        lemma_cursors_keep_caches(p, ctx, previous, kept, index + 1);
    }
}

/// What became of an export is remembered, whether it worked or not: the same buffer is not exported
/// again.
pub proof fn exports_are_remembered(
    p: Progress,
    ctx: ElementContext,
    previous: Seq<(u32, PlaneState)>,
    primary: bool,
    key: ElementFramebufferCacheKey,
    result: Result<Option<FramebufferInfo>, ()>,
)
    requires
        p.core.states.contains_key(ctx.info.id),
        cached(p.core.states[ctx.info.id].fb_cache, key) is None,
    ensures
        ({
            let after = exported(p, ctx, previous, primary, key, result).core.states;
            &&& after.contains_key(ctx.info.id)
            &&& cached(after[ctx.info.id].fb_cache, key) matches Some(fb) && (fb is Ok <==> (
            result matches Ok(Some(_)))) && (result matches Ok(Some(info)) ==> fb->Ok_0.framebuffer
                == DrmFramebuffer::Exporter(info))
        }),
{
    let fb = export_outcome(result);
    let stored = Progress {
        core: crate::core_state::CoreView {
            states: with_framebuffer(p.core.states, ctx.info.id, key, fb),
            ..p.core
        },
        ..p
    };
    made_framebuffers_are_found(p.core.states, ctx.info.id, key, fb, ctx.info.id);
    lemma_overlay_keeps_caches(stored, ctx, fb, previous);
    if primary {
        assert forall|q: Progress|
            q.core.states.contains_key(ctx.info.id) implies cache_kept(
            q,
            #[trigger] try_cursor(q, ctx, previous),
            ctx.info.id,
        ) by {
            lemma_cursors_keep_caches(q, ctx, previous, true, 0);
            lemma_overlay_keeps_caches(q, ctx, fb, previous);
        }
    }
}

// ---------------------------------------------------------------------------------------------
// Failures
// ---------------------------------------------------------------------------------------------

/// What failed before is taken to fail again only while nothing changed: the same planes are in use,
/// and they show what they do in the same way.
pub proof fn failures_last_while_nothing_changes(
    previous_states: Map<u64, ElementStateView>,
    id: u64,
    properties: PlaneProperties,
    snapshot: PlanesSnapshot,
    settled: bool,
)
    ensures
        ({
            let inherited = inherited_failures(previous_states, id, properties, snapshot, settled);
            let nothing = !inherited.primary && inherited.cursor_bitmask == 0
                && inherited.overlay_bitmask == 0;
            &&& !settled ==> nothing
            &&& instance_of(previous_states, id, properties) is None ==> nothing
            &&& instance_of(previous_states, id, properties) matches Some(instance) ==> {
                &&& snapshot.primary != instance.active_planes.primary ==> nothing
                &&& snapshot.cursor_bitmask != instance.active_planes.cursor_bitmask ==> nothing
                &&& snapshot.overlay_bitmask != instance.active_planes.overlay_bitmask ==> nothing
                &&& settled && snapshot == instance.active_planes ==> inherited
                    == instance.failed_planes
            }
        }),
{
}

/// Planes are settled only if each primary or overlay plane in use shows what it does as it did in the
/// frame before; cursor planes do not matter.
pub proof fn settled_planes_show_alike(
    entries: Seq<(u32, PlaneState)>,
    previous: Seq<(u32, PlaneState)>,
    primary: u32,
    planes: Planes,
    i: int,
)
    requires
        planes_settled(entries, previous, primary, planes),
    ensures
        assigned(entries, primary) ==> assigned(previous, primary) && shown_alike(
            (state_of(entries, primary)->0.config->0).properties,
            (state_of(previous, primary)->0.config->0).properties,
        ),
        0 <= i < planes.overlay@.len() && assigned(entries, planes.overlay@[i].handle) ==> assigned(
            previous,
            planes.overlay@[i].handle,
        ) && shown_alike(
            (state_of(entries, planes.overlay@[i].handle)->0.config->0).properties,
            (state_of(previous, planes.overlay@[i].handle)->0.config->0).properties,
        ),
{
}

/// A way of showing an element is remembered once it was considered, with the planes that were in
/// use; one that is known already is left as it is.
pub proof fn considered_instances_are_remembered(
    states: Map<u64, ElementStateView>,
    previous_states: Map<u64, ElementStateView>,
    id: u64,
    properties: PlaneProperties,
    snapshot: PlanesSnapshot,
    settled: bool,
)
    requires
        states.contains_key(id),
        !properties.has_nan(),
    ensures
        ({
            let after = registered_states(
                states,
                previous_states,
                id,
                properties,
                snapshot,
                settled,
            );
            &&& instance_of(after, id, properties) is Some
            &&& instance_of(states, id, properties) is Some ==> after == states
            &&& instance_of(states, id, properties) is None ==> instance_of(
                after,
                id,
                properties,
            )->0.active_planes == snapshot
            &&& after[id].fb_cache == states[id].fb_cache
        }),
{
    if instance_of(states, id, properties) is None {
        crate::element_states::pushed_instance_is_found(
            states,
            id,
            ElementInstanceState {
                properties,
                active_planes: snapshot,
                failed_planes: inherited_failures(
                    previous_states,
                    id,
                    properties,
                    snapshot,
                    settled,
                ),
            },
        );
    }
}

/// An element that made a flip fail is kept off the primary plane in each way that it was considered
/// for it.
pub proof fn failed_flips_are_remembered(instances: Seq<ElementInstanceState>, i: int)
    requires
        0 <= i < instances.len(),
    ensures
        primary_failed(instances).len() == instances.len(),
        primary_failed(instances)[i].failed_planes.primary,
        primary_failed(instances)[i].failed_planes.overlay_bitmask
            == instances[i].failed_planes.overlay_bitmask,
        primary_failed(instances)[i].failed_planes.cursor_bitmask
            == instances[i].failed_planes.cursor_bitmask,
        primary_failed(instances)[i].properties == instances[i].properties,
        primary_failed(instances)[i].active_planes == instances[i].active_planes,
{
}

// ---------------------------------------------------------------------------------------------
// Which planes are tried
// ---------------------------------------------------------------------------------------------

/// Whether an overlay plane may be tried again for the element.
pub open spec fn is_worth_trying(
    p: Progress,
    ctx: ElementContext,
    config: ElementPlaneConfig,
    i: int,
) -> bool {
    admits(p, ctx, i) && !has_bit(
        failed_planes_of(p.core.states, ctx.info.id, config.properties).overlay_bitmask,
        i,
    )
}

/// Overlay planes are tried in their order, each one that admits the element and is not known to fail,
/// and the search is given up only when none is left. The reason to tell is the first there was, or
/// that a plane is known to fail.
pub proof fn no_overlay_plane_is_passed_over(
    p: Progress,
    ctx: ElementContext,
    config: ElementPlaneConfig,
    index: nat,
    j: int,
)
    requires
        p.core.planes.overlay@.len() <= usize::MAX,
    ensures
        ({
            let next = try_any(p, ctx, config, index);
            let n = p.core.planes.overlay@.len();
            &&& next.frame == p.frame && next.core == p.core
            &&& next.phase matches Phase::Claim { target, config: claimed } ==> (
            target matches Target::Any(i) && index <= i < n && is_worth_trying(
                p,
                ctx,
                config,
                i as int,
            ) && claimed == config && (index <= j < i ==> !is_worth_trying(p, ctx, config, j)))
            &&& !(next.phase is Claim) ==> next.phase == Phase::Done(Err(next.reason)) && (index <= j
                < n ==> !is_worth_trying(p, ctx, config, j))
            &&& p.reason is Some ==> next.reason == p.reason
            &&& next.reason is Some && p.reason is None ==> next.reason == Some(
                RenderingReason::ScanoutFailed,
            ) && exists|i: int|
                index <= i < n && #[trigger] has_bit(
                    failed_planes_of(
                        p.core.states,
                        ctx.info.id,
                        config.properties,
                    ).overlay_bitmask,
                    i,
                )
        }),
    decreases p.core.planes.overlay@.len() - index,
{
    if index < p.core.planes.overlay@.len() {
        let failed = failed_planes_of(p.core.states, ctx.info.id, config.properties).overlay_bitmask;
        if has_bit(failed, index as int) {
            let q = crate::attempt::with_reason(p, Some(RenderingReason::ScanoutFailed));
            no_overlay_plane_is_passed_over(q, ctx, config, index + 1, j);
            assert(is_worth_trying(q, ctx, config, j) == is_worth_trying(p, ctx, config, j));
            if let Phase::Claim { target: Target::Any(i), config: _ } = try_any(
                q,
                ctx,
                config,
                index + 1,
            ).phase {
                assert(is_worth_trying(q, ctx, config, i as int) == is_worth_trying(
                    p,
                    ctx,
                    config,
                    i as int,
                ));
            }
        } else if !admits(p, ctx, index as int) {
            no_overlay_plane_is_passed_over(p, ctx, config, index + 1, j);
        }
    }
}

/// A plane that showed an element in the same way before comes first, as it needs no test.
pub proof fn matching_planes_come_first(
    p: Progress,
    ctx: ElementContext,
    config: ElementPlaneConfig,
    previous: Seq<(u32, PlaneState)>,
    index: nat,
    j: int,
)
    requires
        p.core.planes.overlay@.len() <= usize::MAX,
        index <= j < p.core.planes.overlay@.len(),
        plane_matches_spec(previous, p.core.planes.overlay@[j].handle, config),
        admits(p, ctx, j),
    ensures
        try_matching(p, ctx, config, previous, index).phase matches Phase::Claim {
            target,
            config: claimed,
        } && claimed == config && (target matches Target::Matching(i) && index <= i <= j
            && plane_matches_spec(previous, p.core.planes.overlay@[i as int].handle, config)
            && admits(p, ctx, i as int)),
    decreases p.core.planes.overlay@.len() - index,
{
    if index < j && !(plane_matches_spec(
        previous,
        p.core.planes.overlay@[index as int].handle,
        config,
    ) && admits(p, ctx, index as int)) {
        matching_planes_come_first(p, ctx, config, previous, index + 1, j);
    }
}

/// A cursor that fits goes to a cursor plane if any is free for frames, and first to one that showed a
/// cursor before. Whatever can not go there is looked at for an overlay plane.
pub proof fn cursors_go_to_cursor_planes(
    p: Progress,
    ctx: ElementContext,
    previous: Seq<(u32, PlaneState)>,
    shown: int,
)
    requires
        p.core.planes.cursor@.len() <= usize::MAX,
    ensures
        ({
            let fits = if degrees(ctx.output.transform) % 180 == 90 {
                ctx.info.geometry.size.h <= p.core.cursor_size.w && ctx.info.geometry.size.w
                    <= p.core.cursor_size.h
            } else {
                ctx.info.geometry.size.w <= p.core.cursor_size.w && ctx.info.geometry.size.h
                    <= p.core.cursor_size.h
            };
            let open = ctx.flags.bits & 8 != 0 && ctx.info.kind == Kind::Cursor && fits
                && p.core.cursor is Some && !p.core.policy.reserves_spec() && forall|i: int|
                0 <= i < p.core.planes.cursor@.len() ==> !assigned(
                    p.frame,
                    (#[trigger] p.core.planes.cursor@[i]).handle,
                );
            &&& open && p.core.planes.cursor@.len() > 0 ==> try_cursor(
                p,
                ctx,
                previous,
            ).phase is CursorClaim
            &&& open && 0 <= shown < p.core.planes.cursor@.len() && assigned(
                previous,
                p.core.planes.cursor@[shown].handle,
            ) ==> (try_cursor(p, ctx, previous).phase matches Phase::CursorClaim { kept, index }
                && kept && index <= shown && assigned(
                previous,
                p.core.planes.cursor@[index as int].handle,
            ))
            &&& !open ==> try_cursor(p, ctx, previous) == try_overlay(p, ctx, previous)
        }),
{
    let bits = ctx.flags.bits;
    assert((bits & 8 == 8) == (bits & 8 != 0)) by (bit_vector);
    lemma_kept_cursor(p, ctx, previous, 0, shown);
}

proof fn lemma_kept_cursor(
    p: Progress,
    ctx: ElementContext,
    previous: Seq<(u32, PlaneState)>,
    index: nat,
    shown: int,
)
    requires
        index <= p.core.planes.cursor@.len() <= usize::MAX,
    ensures
        index <= shown < p.core.planes.cursor@.len() && assigned(
            previous,
            p.core.planes.cursor@[shown].handle,
        ) ==> (try_cursor_planes(p, ctx, previous, true, index).phase matches Phase::CursorClaim {
            kept,
            index: i,
        } && kept && i <= shown && assigned(previous, p.core.planes.cursor@[i as int].handle)),
        p.core.planes.cursor@.len() > 0 ==> try_cursor_planes(
            p,
            ctx,
            previous,
            true,
            index,
        ).phase is CursorClaim,
    decreases p.core.planes.cursor@.len() - index,
{
    reveal_with_fuel(try_cursor_planes, 3);
    if index < p.core.planes.cursor@.len() && !assigned(
        previous,
        p.core.planes.cursor@[index as int].handle,
    ) {
        lemma_kept_cursor(p, ctx, previous, index + 1, shown);
    }
}

/// Overlay planes are looked at for elements that are meant for planes, where they are allowed and one
/// is free; then a framebuffer is asked for, unless there is one already.
pub proof fn overlay_planes_are_looked_at(
    p: Progress,
    ctx: ElementContext,
    previous: Seq<(u32, PlaneState)>,
    free: int,
)
    requires
        ctx.flags.bits & 4 != 0,
        ctx.info.kind == Kind::ScanoutCandidate || ctx.info.kind == Kind::Cursor,
        0 <= free < p.core.planes.overlay@.len(),
        !assigned(p.frame, p.core.planes.overlay@[free].handle),
        ctx.info.storage matches Some(UnderlyingStorage::Wayland(_)),
        ctx.info.exportable,
        !p.core.states.contains_key(ctx.info.id),
        !p.core.previous_states.contains_key(ctx.info.id),
    ensures
        try_overlay(p, ctx, previous).phase matches Phase::Export { primary, key } && !primary
            && !key.allow_opaque_fallback,
        try_overlay(p, ctx, previous).frame == p.frame,
{
    let bits = ctx.flags.bits;
    assert((bits & 4 == 4) == (bits & 4 != 0)) by (bit_vector);
}

/// Elements that are not meant for planes are left to be rendered, and so is every element where
/// overlay planes are not allowed.
pub proof fn other_elements_are_left_to_be_rendered(
    p: Progress,
    ctx: ElementContext,
    previous: Seq<(u32, PlaneState)>,
)
    requires
        ctx.info.kind == Kind::Unspecified || ctx.flags.bits & 4 == 0,
    ensures
        try_overlay(p, ctx, previous).phase == Phase::Done(Err(p.reason)),
        try_overlay(p, ctx, previous).frame == p.frame,
{
    let bits = ctx.flags.bits;
    assert((bits & 4 == 4) == (bits & 4 != 0)) by (bit_vector);
}

/// The primary plane is tried first where it may show the element alone: a framebuffer is asked for,
/// whose format may be the opaque one.
pub proof fn the_primary_plane_comes_first(
    core: crate::core_state::CoreView,
    frame: Seq<(u32, PlaneState)>,
    ctx: ElementContext,
    previous: Seq<(u32, PlaneState)>,
)
    requires
        ctx.try_primary,
        !ctx.info.is_framebuffer_effect,
        !ctx.below_effect,
        ctx.flags.bits & 1 != 0,
        state_of(frame, core.primary.handle) matches Some(state) && state.element_state is None,
        ctx.info.storage matches Some(UnderlyingStorage::Wayland(_)),
        ctx.info.exportable,
        !core.states.contains_key(ctx.info.id),
        !core.previous_states.contains_key(ctx.info.id),
    ensures
        begun(core, frame, ctx, previous).phase matches Phase::Export { primary, key } && primary
            && key.allow_opaque_fallback,
        begun(core, frame, ctx, previous).frame == frame,
{
    let bits = ctx.flags.bits;
    assert(bits & 1 != 0 ==> bits & 3 != 0 && bits & 13 != 0) by (bit_vector);
}

// ---------------------------------------------------------------------------------------------
// What the answers lead to
// ---------------------------------------------------------------------------------------------

/// What is to be shown is the element itself: its place in the stack, its geometry and its buffer,
/// with the framebuffer that was made of it.
pub proof fn configurations_are_of_the_element(ctx: ElementContext, fb: CachedDrmFramebuffer)
    requires
        ctx.info.storage matches Some(UnderlyingStorage::Wayland(_)),
    ensures
        element_config_spec(ctx, fb).z_index == ctx.z_index,
        element_config_spec(ctx, fb).geometry == ctx.info.geometry,
        element_config_spec(ctx, fb).buffer.fb == fb,
        ctx.info.storage matches Some(UnderlyingStorage::Wayland(buffer)) && element_config_spec(
            ctx,
            fb,
        ).buffer.buffer == ScanoutBuffer::Wayland(buffer),
        element_config_spec(ctx, fb).properties.alpha == ctx.info.alpha,
        element_config_spec(ctx, fb).properties.src == ctx.info.src,
{
}

/// A plane is used only under the claim that was given for it, and only if it supports the format.
pub proof fn claimed_planes_support_the_format(
    p: Progress,
    ctx: ElementContext,
    previous: Seq<(u32, PlaneState)>,
    target: Target,
    config: ElementPlaneConfig,
    claim: u64,
)
    requires
        target_plane(p.core, target).formats@.contains(config.properties.format),
    ensures
        claimed(p, ctx, previous, target, config, Some(claim)) == (Progress {
            phase: Phase::Damage { target, config, claim },
            ..p
        }),
{
}

/// Without a claim, or without support for the format, a plane is not used: the search goes on, and
/// only a format that is not supported is a reason to tell.
pub proof fn unclaimed_planes_are_not_used(
    p: Progress,
    ctx: ElementContext,
    previous: Seq<(u32, PlaneState)>,
    config: ElementPlaneConfig,
    i: usize,
    claim: Option<u64>,
)
    requires
        p.core.planes.overlay@.len() <= usize::MAX,
        i < p.core.planes.overlay@.len(),
        claim is None || !p.core.planes.overlay@[i as int].formats@.contains(
            config.properties.format,
        ),
    ensures
        ({
            let next = claimed(p, ctx, previous, Target::Any(i), config, claim);
            &&& next.frame == p.frame
            &&& next.core == p.core
            &&& !(next.phase is Damage)
            &&& next.phase matches Phase::Claim { target, config: _ } ==> (
            target matches Target::Any(j) && j > i)
            &&& claim is Some && p.reason is None ==> next.reason == Some(
                RenderingReason::FormatUnsupported,
            )
        }),
{
    let reason = if claim is None {
        None
    } else {
        Some(RenderingReason::FormatUnsupported)
    };
    let q = crate::attempt::with_reason(p, reason);
    no_overlay_plane_is_passed_over(q, ctx, config, (i + 1) as nat, 0);
}

/// Once its damage is known the plane shows the element. It is used without a test only where it was
/// shown in the same way before; otherwise the device is asked, and the state before is kept for the
/// case that it refuses.
pub proof fn planes_are_tested_unless_nothing_is_new(
    p: Progress,
    ctx: ElementContext,
    previous: Seq<(u32, PlaneState)>,
    target: Target,
    config: ElementPlaneConfig,
    claim: u64,
    has_damage: bool,
    damage_clips: Option<u64>,
)
    requires
        knows(p.frame, target_plane(p.core, target).handle),
    ensures
        ({
            let plane = target_plane(p.core, target);
            let next = damaged(
                p,
                ctx,
                previous,
                target,
                config,
                claim,
                has_damage,
                damage_clips,
            );
            let state = state_of(next.frame, plane.handle);
            let known = state_of(previous, plane.handle) matches Some(before) && (
            before.config matches Some(other) && shown_alike(other.properties, config.properties));
            &&& state matches Some(now) && (now.config matches Some(shown) && shown.properties
                == config.properties && shown.buffer == config.buffer && shown.plane_claim == claim
                && shown.damage_clips == (if has_damage {
                damage_clips
            } else {
                None
            })) && (now.element_state matches Some(of) && of.id == ctx.info.id && of.commit
                == ctx.info.commit)
            &&& known ==> (next.phase matches Phase::Done(Ok(on)) && on.handle == plane.handle
                && on.type_ == plane.type_)
            &&& !known ==> (next.phase matches Phase::Test { target: of, config: with, backup }
                && of == target && with == config && Some(backup) == state_of(
                p.frame,
                plane.handle,
            ))
            &&& next.core == p.core
        }),
{
    let plane = target_plane(p.core, target);
    let clips = if has_damage {
        damage_clips
    } else {
        None
    };
    let shown = crate::assignment::element_plane_config(config, clips, claim, p.core.signaled_fence);
    let state = crate::assignment::element_plane_state(
        state_of(previous, plane.handle),
        ctx.info,
        config.z_index,
        shown,
        has_damage,
    );
    crate::frame_state::set_state_changes_one_plane(p.frame, plane.handle, state, plane.handle);
}

/// A plane that passes its test is used, and the frame is taken as tested.
pub proof fn passed_tests_settle_the_frame(
    p: Progress,
    ctx: ElementContext,
    previous: Seq<(u32, PlaneState)>,
    target: Target,
    config: ElementPlaneConfig,
    backup: PlaneState,
    i: int,
)
    requires
        0 <= i < p.frame.len(),
    ensures
        ({
            let next = tested(p, ctx, previous, target, config, backup, true);
            &&& next.phase matches Phase::Done(Ok(on)) && on.handle == target_plane(
                p.core,
                target,
            ).handle && on.type_ == target_plane(p.core, target).type_
            &&& next.frame.len() == p.frame.len()
            &&& next.frame[i].0 == p.frame[i].0
            &&& !next.frame[i].1.needs_test
            &&& next.frame[i].1.config == p.frame[i].1.config
            &&& next.frame[i].1.element_state == p.frame[i].1.element_state
            &&& next.frame[i].1.skip == p.frame[i].1.skip
            &&& next.core == p.core
        }),
{
}

/// An overlay plane that fails its test is put back as it was, the failure is remembered for this way
/// of showing the element, and the search goes on with the planes after it.
pub proof fn failed_tests_are_remembered(
    p: Progress,
    ctx: ElementContext,
    previous: Seq<(u32, PlaneState)>,
    i: usize,
    config: ElementPlaneConfig,
    backup: PlaneState,
)
    requires
        p.core.planes.overlay@.len() <= 32,
        i < p.core.planes.overlay@.len(),
        knows(p.frame, p.core.planes.overlay@[i as int].handle),
        instance_of(p.core.states, ctx.info.id, config.properties) is Some,
    ensures
        ({
            let next = tested(p, ctx, previous, Target::Any(i), config, backup, false);
            &&& state_of(next.frame, p.core.planes.overlay@[i as int].handle) == Some(backup)
            &&& has_bit(
                failed_planes_of(
                    next.core.states,
                    ctx.info.id,
                    config.properties,
                ).overlay_bitmask,
                i as int,
            )
            &&& p.reason is None ==> next.reason == Some(RenderingReason::ScanoutFailed)
            &&& next.phase matches Phase::Claim { target, config: _ } ==> (
            target matches Target::Any(j) && j > i)
            &&& !(next.phase matches Phase::Done(Ok(_)))
        }),
{
    let plane = p.core.planes.overlay@[i as int];
    let back = Progress { frame: with_state(p.frame, plane.handle, backup), ..p };
    let failed = failed_planes_of(p.core.states, ctx.info.id, config.properties);
    let more = PlanesSnapshot {
        overlay_bitmask: crate::assignment::with_bit(failed.overlay_bitmask, i as int),
        ..failed
    };
    let noted = crate::attempt::noting(back, ctx, config, more);
    let q = crate::attempt::with_reason(noted, Some(RenderingReason::ScanoutFailed));
    no_overlay_plane_is_passed_over(q, ctx, config, (i + 1) as nat, 0);
    crate::frame_state::set_state_changes_one_plane(p.frame, plane.handle, backup, plane.handle);
    crate::element_states::failed_planes_are_remembered(
        p.core.states,
        ctx.info.id,
        config.properties,
        more,
        ctx.info.id,
    );
    let mask = failed.overlay_bitmask;
    let bit = i as u32;
    assert(bit < 32 ==> (mask | (1u32 << bit)) & (1u32 << bit) != 0) by (bit_vector);
}

/// The primary plane that fails its test is put back as it was, and the failure is remembered.
pub proof fn failed_primary_tests_are_remembered(
    p: Progress,
    ctx: ElementContext,
    previous: Seq<(u32, PlaneState)>,
    config: ElementPlaneConfig,
    backup: PlaneState,
)
    requires
        instance_of(p.core.states, ctx.info.id, config.properties) is Some,
    ensures
        ({
            let failed = failed_planes_of(p.core.states, ctx.info.id, config.properties);
            let noted = with_failed_planes(
                p.core.states,
                ctx.info.id,
                config.properties,
                PlanesSnapshot { primary: true, ..failed },
            );
            &&& failed_planes_of(noted, ctx.info.id, config.properties).primary
            &&& tested(p, ctx, previous, Target::Primary, config, backup, false) == try_cursor(
                Progress {
                    frame: with_state(p.frame, p.core.primary.handle, backup),
                    core: crate::core_state::CoreView { states: noted, ..p.core },
                    reason: if p.reason is Some {
                        p.reason
                    } else {
                        Some(RenderingReason::ScanoutFailed)
                    },
                    ..p
                },
                ctx,
                previous,
            )
        }),
{
    let failed = failed_planes_of(p.core.states, ctx.info.id, config.properties);
    crate::element_states::failed_planes_are_remembered(
        p.core.states,
        ctx.info.id,
        config.properties,
        PlanesSnapshot { primary: true, ..failed },
        ctx.info.id,
    );
}

/// A cursor that was drawn is shown for the output that it was drawn for, which is remembered; one
/// that fails its test is taken back and looked at for an overlay plane, as is one that could not be
/// drawn.
pub proof fn drawn_cursors_are_remembered(
    p: Progress,
    ctx: ElementContext,
    previous: Seq<(u32, PlaneState)>,
    index: usize,
    backup: PlaneState,
)
    requires
        index < p.core.planes.cursor@.len(),
        p.core.cursor is Some,
    ensures
        ({
            let plane = p.core.planes.cursor@[index as int];
            let next = cursor_tested(p, ctx, previous, index, backup, true);
            &&& next.phase matches Phase::Done(Ok(on)) && on.handle == plane.handle
            &&& next.core.cursor matches Some(cursor) && cursor.previous_output_transform == Some(
                ctx.output.transform,
            ) && cursor.previous_output_scale == Some(ctx.output.scale) && cursor.legacy
                == p.core.cursor->0.legacy
            &&& next.core.states == p.core.states
            &&& cursor_tested(p, ctx, previous, index, backup, false) == try_overlay(
                Progress { frame: with_state(p.frame, plane.handle, backup), ..p },
                ctx,
                previous,
            )
        }),
{
}

} // verus!
