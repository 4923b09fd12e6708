//! The rules by which elements are put on planes.

use vstd::prelude::*;
use crate::buffer::{CachedDrmFramebuffer, DrmFramebuffer, DrmScanoutBuffer, FramebufferInfo, ScanoutBuffer, UnderlyingStorage};
use crate::element::{ElementInfo, Kind, OutputState, RenderingReason, Scale};
use crate::element_states::{
    cache_of, instance_of, with_instance, without_cache, ElementFramebufferCacheKey,
    ElementInstanceState, ElementStateView, ElementStates, ExportBufferError, PlanesSnapshot,
};
use crate::flags::FrameFlags;
use crate::float::F32;
use crate::frame_state::{assigned, plane_overlaps, state_of, FrameState};
use crate::geometry::{Point, Rectangle, Size, Transform};
use crate::legacy_cursor::LegacyCursorState;
use crate::plane::{PlaneConfig, PlaneElementState, PlaneInfo, PlaneProperties, PlaneState, Planes, SrcRect};
use crate::transform::{apply_output_transform, apply_output_transform_spec, apply_underlying_storage_transform, apply_underlying_storage_transform_spec};

verus! {

/// What is needed to show an element on some plane.
#[derive(Clone, Copy, Debug, PartialEq, Eq, Structural)]
pub struct ElementPlaneConfig {
    pub z_index: usize,
    pub geometry: Rectangle,
    pub properties: PlaneProperties,
    pub buffer: DrmScanoutBuffer,
}

/// The state of a compositor's cursor.
#[derive(Clone, Copy, Debug, PartialEq, Eq, Structural)]
pub struct CursorState {
    /// The transform and scale that the buffer on the cursor plane was drawn for.
    pub previous_output_transform: Option<Transform>,
    pub previous_output_scale: Option<Scale>,
    pub legacy: LegacyCursorState,
}

/// The first of two reasons that is given.
pub open spec fn first_reason(a: Option<RenderingReason>, b: Option<RenderingReason>) -> Option<
    RenderingReason,
> {
    if a.is_some() {
        a
    } else {
        b
    }
}

pub fn or_reason(a: Option<RenderingReason>, b: Option<RenderingReason>) -> (r: Option<
    RenderingReason,
>)
    ensures
        r == first_reason(a, b),
{
    if a.is_some() {
        a
    } else {
        b
    }
}

// ---------------------------------------------------------------------------------------------
// Whether an element can be exported
// ---------------------------------------------------------------------------------------------

pub open spec fn export_key_spec(element: ElementInfo, allow_opaque_fallback: bool) -> Result<
    ElementFramebufferCacheKey,
    ExportBufferError,
> {
    match element.storage {
        None => Err(ExportBufferError::NoUnderlyingStorage),
        Some(storage) => match ElementFramebufferCacheKey::from_underlying_storage_spec(
            storage,
            allow_opaque_fallback,
        ) {
            Some(key) => if element.exportable {
                Ok(key)
            } else {
                Err(ExportBufferError::Unsupported)
            },
            None => Err(ExportBufferError::Unsupported),
        },
    }
}

/// The key under which the element's framebuffer is cached, or why it can have none.
pub fn export_key(element: &ElementInfo, allow_opaque_fallback: bool) -> (r: Result<
    ElementFramebufferCacheKey,
    ExportBufferError,
>)
    ensures
        r == export_key_spec(*element, allow_opaque_fallback),
{
    let storage = match element.storage {
        Some(storage) => storage,
        None => {
            return Err(ExportBufferError::NoUnderlyingStorage);
        },
    };
    match ElementFramebufferCacheKey::from_underlying_storage(&storage, allow_opaque_fallback) {
        Some(key) => if element.exportable {
            Ok(key)
        } else {
            Err(ExportBufferError::Unsupported)
        },
        None => Err(ExportBufferError::Unsupported),
    }
}

/// What is cached for the outcome of an export.
pub open spec fn export_outcome(exported: Result<Option<FramebufferInfo>, ()>) -> Result<
    CachedDrmFramebuffer,
    ExportBufferError,
> {
    match exported {
        Ok(Some(info)) => Ok(CachedDrmFramebuffer { framebuffer: DrmFramebuffer::Exporter(info) }),
        Ok(None) => Err(ExportBufferError::Unsupported),
        Err(_) => Err(ExportBufferError::ExportFailed),
    }
}

pub fn cache_export(exported: Result<Option<FramebufferInfo>, ()>) -> (r: Result<
    CachedDrmFramebuffer,
    ExportBufferError,
>)
    ensures
        r == export_outcome(exported),
{
    match exported {
        Ok(Some(info)) => Ok(CachedDrmFramebuffer::new(DrmFramebuffer::Exporter(info))),
        Ok(None) => Err(ExportBufferError::Unsupported),
        Err(_) => Err(ExportBufferError::ExportFailed),
    }
}

/// The states of this frame once the element is in them, with its framebuffers of the last frame.
pub open spec fn known_states(
    states: Map<u64, ElementStateView>,
    previous: Map<u64, ElementStateView>,
    id: u64,
) -> Map<u64, ElementStateView> {
    if states.contains_key(id) {
        states
    } else {
        states.insert(
            id,
            ElementStateView { instances: Seq::empty(), fb_cache: cache_of(previous, id) },
        )
    }
}

/// The states of the last frame once the framebuffers of the element were taken over.
pub open spec fn remaining_states(
    states: Map<u64, ElementStateView>,
    previous: Map<u64, ElementStateView>,
    id: u64,
) -> Map<u64, ElementStateView> {
    if states.contains_key(id) {
        previous
    } else {
        without_cache(previous, id)
    }
}

/// Makes sure the element is among the states of this frame, taking its framebuffers over from
/// the last one.
pub fn know_element(states: &mut ElementStates, previous: &mut ElementStates, id: u64)
    ensures
        final(states)@ == known_states(old(states)@, old(previous)@, id),
        final(previous)@ == remaining_states(old(states)@, old(previous)@, id),
{
    if !states.contains(id) {
        let fb_cache = previous.take_cache(id);
        states.start(id, fb_cache);
    }
}

// ---------------------------------------------------------------------------------------------
// How an element is shown on a plane
// ---------------------------------------------------------------------------------------------

pub open spec fn element_properties_spec(
    element: ElementInfo,
    storage: UnderlyingStorage,
    output: OutputState,
    fb: CachedDrmFramebuffer,
) -> PlaneProperties {
    PlaneProperties {
        src: element.src,
        dst: output.transform.transform_rect_spec(element.geometry, output.geometry.size),
        transform: apply_output_transform_spec(
            apply_underlying_storage_transform_spec(element.transform, storage),
            output.transform.invert_spec(),
        ),
        alpha: element.alpha,
        format: fb.format_spec(),
    }
}

/// How the element is shown on a plane. The output transform is the one of the renderer, while
/// elements and planes turn the other way, so it is inverted here.
pub fn element_properties(
    element: &ElementInfo,
    storage: UnderlyingStorage,
    output: &OutputState,
    fb: CachedDrmFramebuffer,
) -> (r: PlaneProperties)
    requires
        output.transform.rect_fits(element.geometry, output.geometry.size),
    ensures
        r == element_properties_spec(*element, storage, *output, fb),
{
    PlaneProperties {
        src: element.src,
        dst: output.transform.transform_rect_in(element.geometry, output.geometry.size),
        transform: apply_output_transform(
            apply_underlying_storage_transform(element.transform, &storage),
            output.transform.invert(),
        ),
        alpha: element.alpha,
        format: fb.format(),
    }
}

// ---------------------------------------------------------------------------------------------
// Which planes are in use
// ---------------------------------------------------------------------------------------------

/// Whether a bit of a mask is set.
pub open spec fn has_bit(mask: u32, index: int) -> bool {
    mask & (1u32 << (index as u32)) != 0
}

pub open spec fn with_bit(mask: u32, index: int) -> u32 {
    mask | (1u32 << (index as u32))
}

/// The planes of a list that the frame has something on, one bit per position.
pub open spec fn assigned_mask(
    entries: Seq<(u32, PlaneState)>,
    planes: Seq<PlaneInfo>,
    upto: nat,
) -> u32
    decreases upto,
{
    if upto == 0 {
        0
    } else {
        let before = assigned_mask(entries, planes, (upto - 1) as nat);
        if assigned(entries, planes[upto - 1].handle) {
            with_bit(before, upto - 1)
        } else {
            before
        }
    }
}

pub open spec fn snapshot_of(
    entries: Seq<(u32, PlaneState)>,
    primary: u32,
    planes: Planes,
) -> PlanesSnapshot {
    PlanesSnapshot {
        primary: assigned(entries, primary),
        cursor_bitmask: assigned_mask(entries, planes.cursor@, planes.cursor@.len()),
        overlay_bitmask: assigned_mask(entries, planes.overlay@, planes.overlay@.len()),
    }
}

/// A bit of the mask is set exactly when the frame has something on the plane at that position.
pub proof fn mask_shows_the_assigned_planes(
    entries: Seq<(u32, PlaneState)>,
    planes: Seq<PlaneInfo>,
    upto: nat,
    index: int,
)
    requires
        upto <= planes.len(),
        planes.len() <= 32,
        0 <= index < 32,
    ensures
        has_bit(assigned_mask(entries, planes, upto), index) <==> index < upto && assigned(
            entries,
            planes[index].handle,
        ),
    decreases upto,
{
    let i = index as u32;
    if upto == 0 {
        assert(0u32 & (1u32 << i) == 0) by (bit_vector);
    } else {
        mask_shows_the_assigned_planes(entries, planes, (upto - 1) as nat, index);
        let before = assigned_mask(entries, planes, (upto - 1) as nat);
        let j = (upto - 1) as u32;
        assert(i < 32 && j < 32 ==> ((before | (1u32 << j)) & (1u32 << i) != 0) == (i == j || before
            & (1u32 << i) != 0)) by (bit_vector);
    }
}

fn mask_assigned(frame: &FrameState, planes: &Vec<PlaneInfo>) -> (r: u32)
    requires
        planes@.len() <= 32,
    ensures
        r == assigned_mask(frame@, planes@, planes@.len()),
{
    let mut mask: u32 = 0;
    let mut i: usize = 0;
    while i < planes.len()
        invariant
            i <= planes.len(),
            planes@.len() <= 32,
            mask == assigned_mask(frame@, planes@, i as nat),
        decreases planes.len() - i,
    {
        if frame.is_assigned(planes[i].handle) {
            mask = mask | (1u32 << (i as u32));
        }
        i = i + 1;
    }
    mask
}

/// The planes that the frame has something on.
pub fn plane_snapshot(frame: &FrameState, primary: u32, planes: &Planes) -> (r: PlanesSnapshot)
    requires
        planes.cursor@.len() <= 32,
        planes.overlay@.len() <= 32,
    ensures
        r == snapshot_of(frame@, primary, *planes),
{
    let overlay_bitmask: u32 = mask_assigned(frame, &planes.overlay);
    let cursor_bitmask: u32 = mask_assigned(frame, &planes.cursor);
    PlanesSnapshot { primary: frame.is_assigned(primary), cursor_bitmask, overlay_bitmask }
}

pub open spec fn properties_of(entries: Seq<(u32, PlaneState)>, handle: u32) -> Option<
    PlaneProperties,
> {
    match state_of(entries, handle) {
        Some(state) => match state.config {
            Some(config) => Some(config.properties),
            None => None,
        },
        None => None,
    }
}

pub open spec fn same_properties(a: Option<PlaneProperties>, b: Option<PlaneProperties>) -> bool {
    match (a, b) {
        (Some(a), Some(b)) => a.compatible(b),
        (None, None) => true,
        _ => false,
    }
}

fn compare_properties(a: Option<PlaneProperties>, b: Option<PlaneProperties>) -> (r: bool)
    ensures
        r == same_properties(a, b),
{
    match (a, b) {
        (Some(a), Some(b)) => a.is_compatible(&b),
        (None, None) => true,
        _ => false,
    }
}

/// Whether the primary and overlay planes in use show what they do in the same way as before. The
/// cursor planes do not count: they change all the time, and do not influence the others.
pub open spec fn planes_settled(
    entries: Seq<(u32, PlaneState)>,
    previous: Seq<(u32, PlaneState)>,
    primary: u32,
    planes: Planes,
) -> bool {
    &&& assigned(entries, primary) ==> same_properties(
        properties_of(entries, primary),
        properties_of(previous, primary),
    )
    &&& forall|i: int|
        0 <= i < planes.overlay@.len() ==> (assigned(
            entries,
            (#[trigger] planes.overlay@[i]).handle,
        ) ==> same_properties(
            properties_of(entries, planes.overlay@[i].handle),
            properties_of(previous, planes.overlay@[i].handle),
        ))
}

/// Whether the primary and overlay planes in use show what they do in the same way as before.
pub fn are_planes_settled(
    frame: &FrameState,
    previous: &FrameState,
    primary: u32,
    planes: &Planes,
    snapshot: PlanesSnapshot,
) -> (r: bool)
    requires
        planes.overlay@.len() <= 32,
        snapshot == snapshot_of(frame@, primary, *planes),
    ensures
        r == planes_settled(frame@, previous@, primary, *planes),
{
    if snapshot.primary && !compare_properties(
        frame.plane_properties(primary),
        previous.plane_properties(primary),
    ) {
        return false;
    }
    let mut i: usize = 0;
    while i < planes.overlay.len()
        invariant
            i <= planes.overlay.len(),
            planes.overlay@.len() <= 32,
            snapshot == snapshot_of(frame@, primary, *planes),
            forall|j: int|
                0 <= j < i ==> (assigned(frame@, (#[trigger] planes.overlay@[j]).handle)
                    ==> same_properties(
                    properties_of(frame@, planes.overlay@[j].handle),
                    properties_of(previous@, planes.overlay@[j].handle),
                )),
        decreases planes.overlay.len() - i,
    {
        let handle: u32 = planes.overlay[i].handle;
        proof {
            mask_shows_the_assigned_planes(
                frame@,
                planes.overlay@,
                planes.overlay@.len(),
                i as int,
            );
        }
        if snapshot.overlay_bitmask & (1u32 << (i as u32)) != 0 {
            if !compare_properties(
                frame.plane_properties(handle),
                previous.plane_properties(handle),
            ) {
                assert(planes.overlay@[i as int].handle == handle);
                return false;
            }
        }
        i = i + 1;
    }
    true
}

/// The failures that an instance takes over from the last frame: all of them, if the same planes
/// were in use and still show what they did in the same way.
pub open spec fn inherited_failures(
    previous_states: Map<u64, ElementStateView>,
    id: u64,
    properties: PlaneProperties,
    snapshot: PlanesSnapshot,
    settled: bool,
) -> PlanesSnapshot {
    match instance_of(previous_states, id, properties) {
        Some(instance) => if snapshot == instance.active_planes && settled {
            instance.failed_planes
        } else {
            PlanesSnapshot::none()
        },
        None => PlanesSnapshot::none(),
    }
}

/// The states with an instance for these properties.
pub open spec fn registered_states(
    states: Map<u64, ElementStateView>,
    previous_states: Map<u64, ElementStateView>,
    id: u64,
    properties: PlaneProperties,
    snapshot: PlanesSnapshot,
    settled: bool,
) -> Map<u64, ElementStateView> {
    if instance_of(states, id, properties).is_some() {
        states
    } else {
        with_instance(
            states,
            id,
            ElementInstanceState {
                properties,
                active_planes: snapshot,
                failed_planes: inherited_failures(
                    previous_states,
                    id,
                    properties,
                    snapshot,
                    settled,
                ),
            },
        )
    }
}

/// Makes sure there is an instance for these properties of the element.
pub fn register_instance(
    states: &mut ElementStates,
    previous_states: &ElementStates,
    id: u64,
    properties: PlaneProperties,
    frame: &FrameState,
    previous: &FrameState,
    primary: u32,
    planes: &Planes,
)
    requires
        old(states)@.contains_key(id),
        planes.cursor@.len() <= 32,
        planes.overlay@.len() <= 32,
    ensures
        final(states)@ == registered_states(
            old(states)@,
            previous_states@,
            id,
            properties,
            snapshot_of(frame@, primary, *planes),
            planes_settled(frame@, previous@, primary, *planes),
        ),
{
    if states.instance(id, properties).is_some() {
        return;
    }
    let snapshot = plane_snapshot(frame, primary, planes);
    let mut failed_planes = PlanesSnapshot::default();
    if let Some(matching_instance) = previous_states.instance(id, properties) {
        if snapshot == matching_instance.active_planes && are_planes_settled(
            frame,
            previous,
            primary,
            planes,
            snapshot,
        ) {
            failed_planes = matching_instance.failed_planes;
        }
    }
    states.push_instance(
        id,
        ElementInstanceState { properties, active_planes: snapshot, failed_planes },
    );
}

// ---------------------------------------------------------------------------------------------
// The primary plane
// ---------------------------------------------------------------------------------------------

/// Whether a plane lies below the primary plane.
pub open spec fn is_underlay_spec(primary: PlaneInfo, plane: PlaneInfo) -> bool {
    plane.z_spec() < primary.z_spec()
}

pub fn is_underlay(primary: &PlaneInfo, plane: &PlaneInfo) -> (r: bool)
    ensures
        r == is_underlay_spec(*primary, *plane),
{
    plane.z() < primary.z()
}

/// Whether something on an underlay overlaps the geometry.
pub open spec fn overlaps_underlay_spec(
    entries: Seq<(u32, PlaneState)>,
    primary: PlaneInfo,
    overlay: Seq<PlaneInfo>,
    geometry: Rectangle,
) -> bool {
    exists|i: int|
        0 <= i < overlay.len() && is_underlay_spec(primary, #[trigger] overlay[i])
            && plane_overlaps(entries, overlay[i].handle, geometry)
}

pub fn overlaps_underlay(
    frame: &FrameState,
    primary: &PlaneInfo,
    overlay: &Vec<PlaneInfo>,
    geometry: Rectangle,
) -> (r: bool)
    ensures
        r == overlaps_underlay_spec(frame@, *primary, overlay@, geometry),
{
    let mut i: usize = 0;
    while i < overlay.len()
        invariant
            i <= overlay.len(),
            forall|j: int|
                0 <= j < i ==> !(is_underlay_spec(*primary, #[trigger] overlay@[j])
                    && plane_overlaps(frame@, overlay@[j].handle, geometry)),
        decreases overlay.len() - i,
    {
        if is_underlay(primary, &overlay[i]) && frame.overlaps(overlay[i].handle, geometry) {
            assert(is_underlay_spec(*primary, overlay@[i as int]));
            return true;
        }
        i = i + 1;
    }
    false
}

/// Whether an underlay is in use.
pub open spec fn has_underlay_spec(
    entries: Seq<(u32, PlaneState)>,
    primary: PlaneInfo,
    overlay: Seq<PlaneInfo>,
) -> bool {
    exists|i: int|
        0 <= i < overlay.len() && is_underlay_spec(primary, #[trigger] overlay[i]) && assigned(
            entries,
            overlay[i].handle,
        )
}

pub fn has_underlay(frame: &FrameState, primary: &PlaneInfo, overlay: &Vec<PlaneInfo>) -> (r: bool)
    ensures
        r == has_underlay_spec(frame@, *primary, overlay@),
{
    let mut i: usize = 0;
    while i < overlay.len()
        invariant
            i <= overlay.len(),
            forall|j: int|
                0 <= j < i ==> !(is_underlay_spec(*primary, #[trigger] overlay@[j]) && assigned(
                    frame@,
                    overlay@[j].handle,
                )),
        decreases overlay.len() - i,
    {
        if is_underlay(primary, &overlay[i]) && frame.is_assigned(overlay[i].handle) {
            assert(is_underlay_spec(*primary, overlay@[i as int]));
            return true;
        }
        i = i + 1;
    }
    false
}

/// Whether the primary plane may be tried at all: it is allowed, and shows no element yet.
pub open spec fn primary_open_spec(
    entries: Seq<(u32, PlaneState)>,
    primary: u32,
    flags: FrameFlags,
) -> bool {
    flags.has_any(3) && (state_of(entries, primary) matches Some(state)
        && state.element_state.is_none())
}

pub fn primary_open(frame: &FrameState, primary: u32, flags: FrameFlags) -> (r: bool)
    ensures
        r == primary_open_spec(frame@, primary, flags),
{
    flags.intersects(
        3,
    ) && match frame.plane_state(primary) {
        Some(state) => state.element_state.is_none(),
        None => false,
    }
}

pub open spec fn buffer_of(entries: Seq<(u32, PlaneState)>, handle: u32) -> Option<
    DrmScanoutBuffer,
> {
    match state_of(entries, handle) {
        Some(state) => state.buffer_spec(),
        None => None,
    }
}

/// Why an element can not go on the primary plane, if it can not: its format is not the one of
/// the swapchain where that is asked for, an underlay needs the primary plane above it, or it is
/// known to fail.
pub open spec fn primary_refusal_spec(
    entries: Seq<(u32, PlaneState)>,
    primary: PlaneInfo,
    overlay: Seq<PlaneInfo>,
    flags: FrameFlags,
    config: ElementPlaneConfig,
    failed_planes: PlanesSnapshot,
) -> Result<(), Option<RenderingReason>> {
    let mismatch = match buffer_of(entries, primary.handle) {
        Some(buffer) => match buffer.buffer {
            ScanoutBuffer::Swapchain(slot) => slot.format != config.properties.format,
            _ => false,
        },
        None => false,
    };
    if mismatch && !flags.has_all(FrameFlags::ALLOW_PRIMARY_PLANE_SCANOUT_ANY) {
        Err(None)
    } else if has_underlay_spec(entries, primary, overlay) {
        Err(None)
    } else if failed_planes.primary {
        Err(Some(RenderingReason::ScanoutFailed))
    } else {
        Ok(())
    }
}

pub fn primary_refusal(
    frame: &FrameState,
    primary: &PlaneInfo,
    overlay: &Vec<PlaneInfo>,
    flags: FrameFlags,
    config: &ElementPlaneConfig,
    failed_planes: PlanesSnapshot,
) -> (r: Result<(), Option<RenderingReason>>)
    ensures
        r == primary_refusal_spec(frame@, *primary, overlay@, flags, *config, failed_planes),
{
    if let Some(buffer) = frame.plane_buffer(primary.handle) {
        if let ScanoutBuffer::Swapchain(slot) = buffer.buffer {
            if !flags.contains(FrameFlags::ALLOW_PRIMARY_PLANE_SCANOUT_ANY) && slot.format
                != config.properties.format {
                return Err(None);
            }
        }
    }
    if has_underlay(frame, primary, overlay) {
        return Err(None);
    }
    if failed_planes.primary {
        return Err(Some(RenderingReason::ScanoutFailed));
    }
    Ok(())
}

// ---------------------------------------------------------------------------------------------
// Overlay planes
// ---------------------------------------------------------------------------------------------

/// Whether overlay planes may be tried at all: they are allowed, the element is meant for them,
/// and one of them is free.
pub open spec fn overlay_open_spec(
    entries: Seq<(u32, PlaneState)>,
    overlay: Seq<PlaneInfo>,
    flags: FrameFlags,
    kind: Kind,
) -> bool {
    flags.has_all(FrameFlags::ALLOW_OVERLAY_PLANE_SCANOUT) && kind != Kind::Unspecified
        && exists|i: int| 0 <= i < overlay.len() && !assigned(entries, (#[trigger] overlay[i]).handle)
}

pub fn overlay_open(
    frame: &FrameState,
    overlay: &Vec<PlaneInfo>,
    flags: FrameFlags,
    kind: Kind,
) -> (r: bool)
    ensures
        r == overlay_open_spec(frame@, overlay@, flags, kind),
{
    if !flags.contains(FrameFlags::ALLOW_OVERLAY_PLANE_SCANOUT) {
        return false;
    }
    if kind != Kind::ScanoutCandidate && kind != Kind::Cursor {
        return false;
    }
    let mut i: usize = 0;
    while i < overlay.len()
        invariant
            i <= overlay.len(),
            flags.has_all(FrameFlags::ALLOW_OVERLAY_PLANE_SCANOUT),
            kind != Kind::Unspecified,
            forall|j: int| 0 <= j < i ==> assigned(frame@, (#[trigger] overlay@[j]).handle),
        decreases overlay.len() - i,
    {
        if !frame.is_assigned(overlay[i].handle) {
            assert(!assigned(frame@, overlay@[i as int].handle));
            return true;
        }
        i = i + 1;
    }
    false
}

/// Whether the plane showed an element before in just the way this one is to be shown, and that
/// element was at least as far in front. Going back to such a plane needs no test.
pub open spec fn plane_matches_spec(
    previous: Seq<(u32, PlaneState)>,
    plane: u32,
    config: ElementPlaneConfig,
) -> bool {
    match state_of(previous, plane) {
        Some(state) => (state.element_state matches Some(element) && element.z_index
            <= config.z_index) && (state.config matches Some(previous_config)
            && previous_config.properties.compatible(config.properties)),
        None => false,
    }
}

pub fn plane_matches(previous: &FrameState, plane: u32, config: &ElementPlaneConfig) -> (r: bool)
    ensures
        r == plane_matches_spec(previous@, plane, *config),
{
    match previous.plane_state(plane) {
        Some(state) => {
            let in_front = match state.element_state {
                Some(element) => element.z_index <= config.z_index,
                None => false,
            };
            in_front && match state.config {
                Some(previous_config) => previous_config.properties.is_compatible(
                    &config.properties,
                ),
                None => false,
            }
        },
        None => false,
    }
}

/// Whether something on another plane that is not above this one overlaps the geometry.
pub open spec fn overlaps_underneath_spec(
    entries: Seq<(u32, PlaneState)>,
    overlay: Seq<PlaneInfo>,
    plane: PlaneInfo,
    geometry: Rectangle,
) -> bool {
    exists|i: int|
        0 <= i < overlay.len() && (#[trigger] overlay[i]).handle != plane.handle
            && overlay[i].z_spec() <= plane.z_spec() && plane_overlaps(
            entries,
            overlay[i].handle,
            geometry,
        )
}

fn overlaps_underneath(
    frame: &FrameState,
    overlay: &Vec<PlaneInfo>,
    plane: &PlaneInfo,
    geometry: Rectangle,
) -> (r: bool)
    ensures
        r == overlaps_underneath_spec(frame@, overlay@, *plane, geometry),
{
    let mut i: usize = 0;
    while i < overlay.len()
        invariant
            i <= overlay.len(),
            forall|j: int|
                0 <= j < i ==> !((#[trigger] overlay@[j]).handle != plane.handle
                    && overlay@[j].z_spec() <= plane.z_spec() && plane_overlaps(
                    frame@,
                    overlay@[j].handle,
                    geometry,
                )),
        decreases overlay.len() - i,
    {
        if overlay[i].handle != plane.handle && overlay[i].z() <= plane.z() && frame.overlaps(
            overlay[i].handle,
            geometry,
        ) {
            assert(overlay@[i as int].handle != plane.handle);
            return true;
        }
        i = i + 1;
    }
    false
}

/// Whether something on a higher plane overlaps the geometry.
pub open spec fn overlaps_above_spec(
    entries: Seq<(u32, PlaneState)>,
    overlay: Seq<PlaneInfo>,
    plane: PlaneInfo,
    geometry: Rectangle,
) -> bool {
    exists|i: int|
        0 <= i < overlay.len() && (#[trigger] overlay[i]).z_spec() > plane.z_spec()
            && plane_overlaps(entries, overlay[i].handle, geometry)
}

fn overlaps_above(
    frame: &FrameState,
    overlay: &Vec<PlaneInfo>,
    plane: &PlaneInfo,
    geometry: Rectangle,
) -> (r: bool)
    ensures
        r == overlaps_above_spec(frame@, overlay@, *plane, geometry),
{
    let mut i: usize = 0;
    while i < overlay.len()
        invariant
            i <= overlay.len(),
            forall|j: int|
                0 <= j < i ==> !((#[trigger] overlay@[j]).z_spec() > plane.z_spec()
                    && plane_overlaps(frame@, overlay@[j].handle, geometry)),
        decreases overlay.len() - i,
    {
        if overlay[i].z() > plane.z() && frame.overlaps(overlay[i].handle, geometry) {
            assert(overlay@[i as int].z_spec() > plane.z_spec());
            return true;
        }
        i = i + 1;
    }
    false
}

/// Whether an element may be tried on an overlay plane: the plane is free, an underlay gets only
/// opaque elements and needs a primary plane one can see through, any other plane gets only
/// elements that are not below something rendered and do not overlap what a higher plane shows, and
/// nothing in front of the element is shown on a plane that is not above.
pub open spec fn overlay_admits_spec(
    entries: Seq<(u32, PlaneState)>,
    primary: PlaneInfo,
    overlay: Seq<PlaneInfo>,
    plane: PlaneInfo,
    geometry: Rectangle,
    element_is_opaque: bool,
    primary_has_alpha: bool,
    below_rendered: bool,
) -> bool {
    &&& !assigned(entries, plane.handle)
    &&& is_underlay_spec(primary, plane) ==> element_is_opaque && primary_has_alpha
    &&& !is_underlay_spec(primary, plane) ==> !below_rendered && !overlaps_above_spec(
        entries,
        overlay,
        plane,
        geometry,
    )
    &&& !overlaps_underneath_spec(entries, overlay, plane, geometry)
}

pub fn overlay_admits(
    frame: &FrameState,
    primary: &PlaneInfo,
    overlay: &Vec<PlaneInfo>,
    plane: &PlaneInfo,
    geometry: Rectangle,
    element_is_opaque: bool,
    primary_has_alpha: bool,
    below_rendered: bool,
) -> (r: bool)
    ensures
        r == overlay_admits_spec(
            frame@,
            *primary,
            overlay@,
            *plane,
            geometry,
            element_is_opaque,
            primary_has_alpha,
            below_rendered,
        ),
{
    if frame.is_assigned(plane.handle) {
        return false;
    }
    let underlay = is_underlay(primary, plane);
    if underlay && !(element_is_opaque && primary_has_alpha) {
        return false;
    }
    if !underlay && (below_rendered || overlaps_above(frame, overlay, plane, geometry)) {
        return false;
    }
    !overlaps_underneath(frame, overlay, plane, geometry)
}

// ---------------------------------------------------------------------------------------------
// Putting an element on a plane
// ---------------------------------------------------------------------------------------------

/// The content that the plane showed of the same element before.
pub open spec fn previous_commit_spec(previous: Option<PlaneState>, id: u64) -> Option<u64> {
    match previous {
        Some(state) => match state.element_state {
            Some(element) => if element.id == id {
                Some(element.commit)
            } else {
                None
            },
            None => None,
        },
        None => None,
    }
}

pub fn previous_commit(previous: Option<PlaneState>, id: u64) -> (r: Option<u64>)
    ensures
        r == previous_commit_spec(previous, id),
{
    match previous {
        Some(state) => match state.element_state {
            Some(element) => if element.id == id {
                Some(element.commit)
            } else {
                None
            },
            None => None,
        },
        None => None,
    }
}

pub open spec fn element_plane_config(
    config: ElementPlaneConfig,
    damage_clips: Option<u64>,
    plane_claim: u64,
    signaled_fence: Option<u64>,
) -> PlaneConfig {
    PlaneConfig {
        properties: config.properties,
        buffer: config.buffer,
        damage_clips,
        plane_claim,
        sync: config.buffer.buffer.acquire_point_spec(signaled_fence),
    }
}

/// Whether the plane was shown in the same way before, so that no test is needed.
pub open spec fn stays_compatible(previous: Option<PlaneState>, config: PlaneConfig) -> bool {
    previous matches Some(state) && (state.config matches Some(other) && other.compatible(config))
}

/// The state of a plane that shows the element. It can be skipped if nothing was damaged and the
/// plane showed the same framebuffer in the same way before.
pub open spec fn element_plane_state(
    previous: Option<PlaneState>,
    element: ElementInfo,
    z_index: usize,
    config: PlaneConfig,
    has_damage: bool,
) -> PlaneState {
    PlaneState {
        skip: !has_damage && stays_compatible(previous, config) && (
        previous->0.config->0.buffer.fb.handle_spec() == config.buffer.fb.handle_spec()),
        needs_test: true,
        element_state: Some(
            PlaneElementState { id: element.id, commit: element.commit, z_index, cursor_size: None },
        ),
        config: Some(config),
    }
}

/// The state of a plane that shows the element, and whether it goes without a test.
pub fn plan_plane(
    previous: Option<PlaneState>,
    element: &ElementInfo,
    config: &ElementPlaneConfig,
    has_damage: bool,
    damage_clips: Option<u64>,
    plane_claim: u64,
    signaled_fence: Option<u64>,
) -> (r: (PlaneState, bool))
    ensures
        r.0 == element_plane_state(
            previous,
            *element,
            config.z_index,
            element_plane_config(*config, damage_clips, plane_claim, signaled_fence),
            has_damage,
        ),
        r.1 == stays_compatible(
            previous,
            element_plane_config(*config, damage_clips, plane_claim, signaled_fence),
        ),
{
    let plane_config = PlaneConfig {
        properties: config.properties,
        buffer: config.buffer,
        damage_clips,
        plane_claim,
        sync: config.buffer.buffer.acquire_point(signaled_fence),
    };
    let mut compatible = false;
    let mut same_fb = false;
    if let Some(state) = previous {
        if let Some(other) = state.config {
            compatible = other.is_compatible(&plane_config);
            same_fb = other.buffer.fb.handle() == plane_config.buffer.fb.handle();
        }
    }
    let state = PlaneState {
        skip: !has_damage && compatible && same_fb,
        needs_test: true,
        element_state: Some(
            PlaneElementState {
                id: element.id,
                commit: element.commit,
                z_index: config.z_index,
                cursor_size: None,
            },
        ),
        config: Some(plane_config),
    };
    (state, compatible)
}

// ---------------------------------------------------------------------------------------------
// Cursor planes
// ---------------------------------------------------------------------------------------------

/// Whether an extent holds another one.
pub open spec fn holds(outer: Size, inner: Size) -> bool {
    inner.w <= outer.w && inner.h <= outer.h
}

/// Whether cursor planes may be tried at all: they belong to atomic frames and are allowed, the
/// element is a cursor of a size that fits, and no cursor plane is in use.
pub open spec fn cursor_open_spec(
    entries: Seq<(u32, PlaneState)>,
    cursor_planes: Seq<PlaneInfo>,
    flags: FrameFlags,
    kind: Kind,
    element_size: Size,
    cursor_size: Size,
) -> bool {
    &&& flags.has_all(FrameFlags::ALLOW_CURSOR_PLANE_SCANOUT)
    &&& kind == Kind::Cursor
    &&& holds(cursor_size, element_size)
    &&& forall|i: int|
        0 <= i < cursor_planes.len() ==> !assigned(entries, (#[trigger] cursor_planes[i]).handle)
}

pub fn cursor_open(
    frame: &FrameState,
    cursor_planes: &Vec<PlaneInfo>,
    flags: FrameFlags,
    kind: Kind,
    element_size: Size,
    cursor_size: Size,
) -> (r: bool)
    ensures
        r == cursor_open_spec(
            frame@,
            cursor_planes@,
            flags,
            kind,
            element_size,
            cursor_size,
        ),
{
    if !flags.contains(FrameFlags::ALLOW_CURSOR_PLANE_SCANOUT) {
        return false;
    }
    if kind != Kind::Cursor {
        return false;
    }
    if element_size.w > cursor_size.w || element_size.h > cursor_size.h {
        return false;
    }
    let mut i: usize = 0;
    while i < cursor_planes.len()
        invariant
            i <= cursor_planes.len(),
            forall|j: int| 0 <= j < i ==> !assigned(frame@, (#[trigger] cursor_planes@[j]).handle),
        decreases cursor_planes.len() - i,
    {
        if frame.is_assigned(cursor_planes[i].handle) {
            assert(assigned(frame@, cursor_planes@[i as int].handle));
            return false;
        }
        i = i + 1;
    }
    true
}

/// The first of the preferred extents that holds the element.
pub open spec fn first_hint(hints: Seq<Size>, element_size: Size) -> Option<Size>
    decreases hints.len(),
{
    if hints.len() == 0 {
        None
    } else if holds(hints[0], element_size) {
        Some(hints[0])
    } else {
        first_hint(hints.skip(1), element_size)
    }
}

pub open spec fn cursor_plane_size_spec(
    plane: PlaneInfo,
    element_size: Size,
    cursor_size: Size,
) -> Size {
    match plane.size_hints {
        Some(hints) => match first_hint(hints@, element_size) {
            Some(size) => size,
            None => cursor_size,
        },
        None => cursor_size,
    }
}

/// The extent of the cursor plane: the first preferred one that holds the element, or else the
/// cursor size of the device.
pub fn cursor_plane_size(plane: &PlaneInfo, element_size: Size, cursor_size: Size) -> (r: Size)
    ensures
        r == cursor_plane_size_spec(*plane, element_size, cursor_size),
{
    if let Some(hints) = &plane.size_hints {
        let mut i: usize = 0;
        assert(hints@.skip(0) =~= hints@);
        while i < hints.len()
            invariant
                i <= hints.len(),
                plane.size_hints == Some(*hints),
                first_hint(hints@, element_size) == first_hint(hints@.skip(i as int), element_size),
            decreases hints.len() - i,
        {
            let hint = hints[i];
            assert(hints@.skip(i as int)[0] == hint);
            assert(hints@.skip(i as int).skip(1) =~= hints@.skip(i as int + 1));
            if hint.w >= element_size.w && hint.h >= element_size.h {
                return hint;
            }
            i = i + 1;
        }
        assert(first_hint(hints@.skip(i as int), element_size) is None);
    }
    cursor_size
}

/// Where and how large the cursor plane is.
#[derive(Clone, Copy, Debug, PartialEq, Eq, Structural)]
pub struct CursorPlacement {
    pub element_size: Size,
    pub size: Size,
    pub location: Point,
}

/// What has to be done to show an element on a cursor plane.
#[derive(Clone, Copy, Debug, PartialEq, Eq, Structural)]
pub enum CursorUpdate {
    /// Nothing changed, the plane keeps this state.
    Keep(PlaneState),
    /// The plane only moves, which takes this state.
    Reposition(PlaneState),
    /// A new buffer has to be drawn.
    Render,
}

/// Whether the cursor has to be drawn again: the output changed, or the plane does not show this
/// content of this element in this size.
pub open spec fn cursor_outdated(
    cursor: CursorState,
    previous: Option<PlaneState>,
    element: ElementInfo,
    placement: CursorPlacement,
    output: OutputState,
) -> bool {
    ||| cursor.previous_output_transform != Some(output.transform)
    ||| !(cursor.previous_output_scale matches Some(scale) && scale.same_spec(output.scale))
    ||| !(previous matches Some(state) && (state.element_state matches Some(shown) && shown.id
        == element.id && shown.commit == element.commit && shown.cursor_size == Some(
        placement.element_size,
    )))
    ||| !(previous matches Some(state) && (state.config matches Some(config)
        && config.properties.dst.size == placement.size))
}

pub open spec fn moved_cursor(state: PlaneState, location: Point) -> PlaneState {
    PlaneState {
        skip: false,
        needs_test: false,
        config: match state.config {
            Some(config) => Some(
                PlaneConfig {
                    properties: PlaneProperties {
                        dst: Rectangle { loc: location, ..config.properties.dst },
                        ..config.properties
                    },
                    ..config
                },
            ),
            None => None,
        },
        ..state
    }
}

pub open spec fn cursor_update_spec(
    cursor: CursorState,
    previous: Option<PlaneState>,
    element: ElementInfo,
    placement: CursorPlacement,
    output: OutputState,
) -> CursorUpdate {
    if cursor_outdated(cursor, previous, element, placement, output) {
        CursorUpdate::Render
    } else {
        let state = previous->0;
        if state.config->0.properties.dst.loc == placement.location {
            CursorUpdate::Keep(PlaneState { skip: true, needs_test: false, ..state })
        } else {
            CursorUpdate::Reposition(moved_cursor(state, placement.location))
        }
    }
}

/// What has to be done to show an element on a cursor plane, given what the plane showed before.
pub fn cursor_update(
    cursor: &CursorState,
    previous: Option<PlaneState>,
    element: &ElementInfo,
    placement: &CursorPlacement,
    output: &OutputState,
) -> (r: CursorUpdate)
    ensures
        r == cursor_update_spec(*cursor, previous, *element, *placement, *output),
{
    let same_transform = match cursor.previous_output_transform {
        Some(transform) => transform == output.transform,
        None => false,
    };
    let same_scale = match cursor.previous_output_scale {
        Some(scale) => scale.same(output.scale),
        None => false,
    };
    if !same_transform || !same_scale {
        return CursorUpdate::Render;
    }
    let state = match previous {
        Some(state) => state,
        None => {
            return CursorUpdate::Render;
        },
    };
    let same_content = match state.element_state {
        Some(shown) => {
            let same_size = match shown.cursor_size {
                Some(size) => size == placement.element_size,
                None => false,
            };
            shown.id == element.id && shown.commit == element.commit && same_size
        },
        None => false,
    };
    if !same_content {
        return CursorUpdate::Render;
    }
    let config = match state.config {
        Some(config) => config,
        None => {
            return CursorUpdate::Render;
        },
    };
    if config.properties.dst.size != placement.size {
        return CursorUpdate::Render;
    }
    let mut updated = state;
    updated.needs_test = false;
    if config.properties.dst.loc == placement.location {
        updated.skip = true;
        CursorUpdate::Keep(updated)
    } else {
        updated.skip = false;
        let mut moved = config;
        moved.properties.dst.loc = placement.location;
        updated.config = Some(moved);
        CursorUpdate::Reposition(updated)
    }
}

/// The configuration of a cursor plane with a freshly drawn buffer.
pub open spec fn cursor_config_spec(
    placement: CursorPlacement,
    buffer: u64,
    framebuffer: FramebufferInfo,
    plane_claim: u64,
) -> PlaneConfig {
    PlaneConfig {
        properties: PlaneProperties {
            src: SrcRect::whole_spec(placement.size),
            dst: Rectangle { loc: placement.location, size: placement.size },
            transform: Transform::Normal,
            alpha: F32::one_spec(),
            format: framebuffer.format,
        },
        buffer: DrmScanoutBuffer {
            buffer: ScanoutBuffer::Cursor(buffer),
            fb: CachedDrmFramebuffer { framebuffer: DrmFramebuffer::Gbm(framebuffer) },
        },
        damage_clips: None,
        plane_claim,
        sync: None,
    }
}

/// Whether the plane showed a cursor in the same way before, wherever it was.
pub open spec fn cursor_stays_compatible(previous: Option<PlaneState>, config: PlaneConfig) -> bool {
    previous matches Some(state) && (state.config matches Some(other)
        && other.properties.src.same_spec(config.properties.src) && other.properties.dst.size
        == config.properties.dst.size && other.properties.alpha.same_spec(config.properties.alpha)
        && other.properties.transform == config.properties.transform && other.properties.format
        == config.properties.format)
}

pub open spec fn cursor_plane_state(
    element: ElementInfo,
    z_index: usize,
    element_size: Size,
    config: PlaneConfig,
    compatible: bool,
) -> PlaneState {
    PlaneState {
        skip: false,
        needs_test: !compatible,
        element_state: Some(
            PlaneElementState {
                id: element.id,
                commit: element.commit,
                z_index,
                cursor_size: Some(element_size),
            },
        ),
        config: Some(config),
    }
}

/// The state of a cursor plane with a freshly drawn buffer, and whether it goes without a test.
pub fn plan_cursor(
    previous: Option<PlaneState>,
    element: &ElementInfo,
    z_index: usize,
    placement: &CursorPlacement,
    buffer: u64,
    framebuffer: FramebufferInfo,
    plane_claim: u64,
) -> (r: (PlaneState, bool))
    ensures
        r.1 == cursor_stays_compatible(
            previous,
            cursor_config_spec(*placement, buffer, framebuffer, plane_claim),
        ),
        r.0 == cursor_plane_state(
            *element,
            z_index,
            placement.element_size,
            cursor_config_spec(*placement, buffer, framebuffer, plane_claim),
            r.1,
        ),
{
    let src = SrcRect::whole(placement.size);
    let config = PlaneConfig {
        properties: PlaneProperties {
            src,
            dst: Rectangle { loc: placement.location, size: placement.size },
            transform: Transform::Normal,
            alpha: F32::one(),
            format: framebuffer.format,
        },
        buffer: DrmScanoutBuffer {
            buffer: ScanoutBuffer::Cursor(buffer),
            fb: CachedDrmFramebuffer::new(DrmFramebuffer::Gbm(framebuffer)),
        },
        damage_clips: None,
        plane_claim,
        sync: None,
    };
    let mut compatible = false;
    if let Some(state) = previous {
        if let Some(other) = state.config {
            compatible = other.properties.src.same(config.properties.src)
                && other.properties.dst.size == config.properties.dst.size
                && other.properties.alpha.same(config.properties.alpha)
                && other.properties.transform == config.properties.transform
                && other.properties.format == config.properties.format;
        }
    }
    let state = PlaneState {
        skip: false,
        needs_test: !compatible,
        element_state: Some(
            PlaneElementState {
                id: element.id,
                commit: element.commit,
                z_index,
                cursor_size: Some(placement.element_size),
            },
        ),
        config: Some(config),
    };
    (state, compatible)
}

// ---------------------------------------------------------------------------------------------
// Laws
// ---------------------------------------------------------------------------------------------

/// No element goes on an underlay unless it is opaque, and none goes above the primary plane while
/// something rendered is in front of it. What an overlay plane shows lies in front only of an
/// element on an underlay.
pub proof fn admitted_elements_stay_visible(
    entries: Seq<(u32, PlaneState)>,
    primary: PlaneInfo,
    overlay: Seq<PlaneInfo>,
    plane: PlaneInfo,
    geometry: Rectangle,
    element_is_opaque: bool,
    primary_has_alpha: bool,
    below_rendered: bool,
    other: int,
)
    requires
        0 <= other < overlay.len(),
        overlay_admits_spec(
            entries,
            primary,
            overlay,
            plane,
            geometry,
            element_is_opaque,
            primary_has_alpha,
            below_rendered,
        ),
    ensures
        is_underlay_spec(primary, plane) ==> element_is_opaque,
        below_rendered ==> is_underlay_spec(primary, plane),
        plane_overlaps(entries, overlay[other].handle, geometry) && overlay[other].handle
            != plane.handle ==> overlay[other].z_spec() > plane.z_spec() && is_underlay_spec(
            primary,
            plane,
        ),
{
}

/// An element whose content, size and place did not change, on an output that did not change
/// either, keeps its cursor plane without an update.
pub proof fn unchanged_cursor_needs_no_update(
    cursor: CursorState,
    state: PlaneState,
    element: ElementInfo,
    placement: CursorPlacement,
    output: OutputState,
)
    requires
        cursor.previous_output_transform == Some(output.transform),
        cursor.previous_output_scale == Some(output.scale),
        !output.scale.x.is_nan_spec(),
        !output.scale.y.is_nan_spec(),
        state.element_state matches Some(shown) && shown.id == element.id && shown.commit
            == element.commit && shown.cursor_size == Some(placement.element_size),
        state.config matches Some(config) && config.properties.dst == (Rectangle {
            loc: placement.location,
            size: placement.size,
        }),
    ensures
        cursor_update_spec(cursor, Some(state), element, placement, output) == CursorUpdate::Keep(
            PlaneState { skip: true, needs_test: false, ..state },
        ),
{
}

/// A plane that is skipped shows the framebuffer it showed before, in the same way.
pub proof fn skipped_planes_show_the_same(
    previous: Option<PlaneState>,
    element: ElementInfo,
    z_index: usize,
    config: PlaneConfig,
    has_damage: bool,
)
    requires
        element_plane_state(previous, element, z_index, config, has_damage).skip,
    ensures
        !has_damage,
        previous matches Some(state) && (state.config matches Some(other)
            && other.buffer.fb.handle_spec() == config.buffer.fb.handle_spec()
            && other.properties.compatible(config.properties)),
{
}

} // verus!
