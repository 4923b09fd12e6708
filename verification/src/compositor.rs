//! The compositor of one output: the frames it shows, and what happens between them.

use vstd::prelude::*;
use crate::assignment::CursorState;
use crate::buffer::{ScanoutBuffer, Slot};
use crate::core_state::{Core, CoreView, FormatTable};
use crate::element::{OutputState, Scale};
use crate::element_states::{cleaned_up, primary_failed, ElementStateView, ElementStates};
use crate::error::{DrmError, FrameError, OutputDamageTrackerError, RenderFrameError};
use crate::frame_state::{idle_entries, state_of, with_planes, FrameState};
use crate::geometry::{Point, Rectangle, Size, Transform};
use crate::legacy_cursor::{CursorPlanePolicy, LegacyCursorMoveResult, LegacyCursorPresentation, LegacyCursorState, LegacyCursorToken};
use crate::overlay_map::OverlayPlaneElementIds;
use crate::plane::{sorted_by_type, PlaneInfo, PlaneState, Planes};
use crate::prepared::{all_skipped, PreparedFrame, PreparedFrameKind};

verus! {

/// How flips are paced.
#[derive(Clone, Copy, Debug, PartialEq, Eq, Structural)]
pub enum PresentationMode {
    /// With the refresh of the output.
    Vsync,
    /// At once, which may tear.
    Async,
}

/// A frame on its way to the screen.
pub struct PendingFrame<U> {
    pub frame: FrameState,
    pub user_data: U,
    /// The mode in which the flip really ran.
    pub presentation_mode: PresentationMode,
}

/// A frame that waits for its turn.
pub struct QueuedFrame<U> {
    pub prepared_frame: PreparedFrame,
    pub user_data: U,
}

/// Where the mode of an output comes from.
#[derive(Clone, Copy, Debug)]
pub enum OutputModeSource {
    /// It follows an output.
    Auto(u64),
    /// It is given.
    Static(OutputMode),
}

/// The mode, scale and transform of an output.
#[derive(Clone, Copy, Debug)]
pub struct OutputMode {
    pub size: Size,
    pub scale: Scale,
    pub transform: Transform,
}

impl OutputModeSource {
    pub open spec fn same_spec(self, other: OutputModeSource) -> bool {
        match (self, other) {
            (OutputModeSource::Auto(a), OutputModeSource::Auto(b)) => a == b,
            (OutputModeSource::Static(a), OutputModeSource::Static(b)) => a.size == b.size
                && a.scale.same_spec(b.scale) && a.transform == b.transform,
            _ => false,
        }
    }

    pub fn same(self, other: OutputModeSource) -> (r: bool)
        ensures
            r == self.same_spec(other),
    {
        match (self, other) {
            (OutputModeSource::Auto(a), OutputModeSource::Auto(b)) => a == b,
            (OutputModeSource::Static(a), OutputModeSource::Static(b)) => a.size == b.size
                && a.scale.same(b.scale) && a.transform == b.transform,
            _ => false,
        }
    }
}

impl OutputMode {
    /// What frames are composed for. The renderer turns the other way than the output.
    pub open spec fn output_spec(self) -> OutputState {
        let transform = self.transform.invert_spec();
        OutputState {
            size: self.size,
            scale: self.scale,
            transform,
            geometry: Rectangle::from_size_spec(transform.transform_size_spec(self.size)),
        }
    }

    pub fn output(self) -> (r: OutputState)
        ensures
            r == self.output_spec(),
    {
        let transform = self.transform.invert();
        OutputState {
            size: self.size,
            scale: self.scale,
            transform,
            geometry: Rectangle::from_size(transform.transform_size(self.size)),
        }
    }
}

/// Composite an output using a combination of planes and rendering
pub struct DrmCompositor<U> {
    pub core: Core,
    pub output_mode_source: OutputModeSource,
    pub overlay_plane_element_ids: OverlayPlaneElementIds,
    pub primary_is_opaque: bool,
    pub primary_plane_element_id: u64,
    pub supports_fencing: bool,
    /// The next frame has to name all planes.
    pub reset_pending: bool,
    /// Requested pacing for the next flip.
    pub presentation_mode: PresentationMode,
    pub current_frame: FrameState,
    pub pending_frame: Option<PendingFrame<U>>,
    pub queued_frame: Option<QueuedFrame<U>>,
    pub next_frame: Option<PreparedFrame>,
    pub debug_flags: u32,
    /// Only its allocation is used again from frame to frame.
    pub effect_regions_workhouse: Vec<(usize, Rectangle)>,
}

/// The contents of a [`PreparedFrame`].
#[verifier::ext_equal]
pub struct PreparedView {
    pub frame: Seq<(u32, PlaneState)>,
    pub kind: PreparedFrameKind,
}

impl PreparedView {
    pub open spec fn is_empty(self) -> bool {
        self.kind == PreparedFrameKind::Partial && all_skipped(self.frame)
    }
}

impl View for PreparedFrame {
    type V = PreparedView;

    open spec fn view(&self) -> PreparedView {
        PreparedView { frame: self.frame@, kind: self.kind }
    }
}

/// The contents of a [`DrmCompositor`].
#[verifier::ext_equal]
pub struct CompositorView<U> {
    pub core: CoreView,
    pub output_mode_source: OutputModeSource,
    pub plane_ids: Seq<(u32, u64, u64)>,
    pub primary_is_opaque: bool,
    pub primary_plane_element_id: u64,
    pub supports_fencing: bool,
    pub reset_pending: bool,
    pub presentation_mode: PresentationMode,
    pub current: Seq<(u32, PlaneState)>,
    pub pending: Option<(Seq<(u32, PlaneState)>, U, PresentationMode)>,
    pub queued: Option<(PreparedView, U)>,
    pub next: Option<PreparedView>,
    pub debug_flags: u32,
}

impl<U> View for DrmCompositor<U> {
    type V = CompositorView<U>;

    open spec fn view(&self) -> CompositorView<U> {
        CompositorView {
            core: self.core@,
            output_mode_source: self.output_mode_source,
            plane_ids: self.overlay_plane_element_ids.plane_ids@,
            primary_is_opaque: self.primary_is_opaque,
            primary_plane_element_id: self.primary_plane_element_id,
            supports_fencing: self.supports_fencing,
            reset_pending: self.reset_pending,
            presentation_mode: self.presentation_mode,
            current: self.current_frame@,
            pending: match self.pending_frame {
                Some(p) => Some((p.frame@, p.user_data, p.presentation_mode)),
                None => None,
            },
            queued: match self.queued_frame {
                Some(q) => Some((q.prepared_frame@, q.user_data)),
                None => None,
            },
            next: match self.next_frame {
                Some(frame) => Some(frame@),
                None => None,
            },
            debug_flags: self.debug_flags,
        }
    }
}

impl<U> CompositorView<U> {
    /// The frame that the next one follows: the one on its way, or else the one that is shown.
    pub open spec fn previous(self) -> Seq<(u32, PlaneState)> {
        match self.pending {
            Some((frame, _, _)) => frame,
            None => self.current,
        }
    }

    /// The compositor with another state of the legacy cursor, where it has a cursor.
    pub open spec fn with_legacy(self, legacy: LegacyCursorState) -> CompositorView<U> {
        CompositorView {
            core: CoreView {
                cursor: match self.core.cursor {
                    Some(cursor) => Some(CursorState { legacy, ..cursor }),
                    None => None,
                },
                ..self.core
            },
            ..self
        }
    }

    pub open spec fn legacy(self) -> LegacyCursorState {
        self.core.cursor->0.legacy
    }

    /// The compositor after the legacy cursor was given up and forgotten.
    pub open spec fn legacy_forgotten(self) -> CompositorView<U> {
        self.with_legacy(self.legacy().invalidated(self.core.policy))
    }
}

/// The frame of a prepared, queued or pending one, with more cursor planes.
pub open spec fn prepared_with_planes(p: Option<PreparedView>, planes: Seq<PlaneInfo>) -> Option<
    PreparedView,
> {
    match p {
        Some(p) => Some(PreparedView { frame: with_planes(p.frame, planes), ..p }),
        None => None,
    }
}

/// The compositor after the cursor planes went over to atomic frames.
pub open spec fn with_atomic_cursor<U>(c: CompositorView<U>) -> CompositorView<U> {
    let planes = c.core.planes.cursor@;
    CompositorView {
        core: CoreView { policy: CursorPlanePolicy::Atomic, ..c.core },
        current: with_planes(c.current, planes),
        pending: match c.pending {
            Some((frame, data, mode)) => Some((with_planes(frame, planes), data, mode)),
            None => None,
        },
        queued: match c.queued {
            Some((p, data)) => Some(
                (PreparedView { frame: with_planes(p.frame, planes), ..p }, data),
            ),
            None => None,
        },
        next: prepared_with_planes(c.next, planes),
        ..c
    }
}

/// The compositor after a frame was accepted, or refused. A full update that was accepted ends a
/// reset. An element that the primary plane would have shown is not tried there again if the
/// device called the frame invalid.
pub open spec fn after_flip<U>(
    c: CompositorView<U>,
    prepared: PreparedView,
    flip: Result<(), DrmError>,
) -> CompositorView<U> {
    match flip {
        Ok(_) => if prepared.kind == PreparedFrameKind::Full {
            CompositorView { reset_pending: false, ..c }
        } else {
            c
        },
        Err(DrmError::Access { invalid_input: true, raw_os_error: _ }) => {
            let refused = match state_of(prepared.frame, c.core.primary.handle) {
                Some(state) => state.element_state,
                None => None,
            };
            match refused {
                Some(element) => if c.core.states.contains_key(element.id) {
                    let state = c.core.states[element.id];
                    CompositorView {
                        core: CoreView {
                            states: c.core.states.insert(
                                element.id,
                                ElementStateView {
                                    instances: primary_failed(state.instances),
                                    ..state
                                },
                            ),
                            ..c.core
                        },
                        ..c
                    }
                } else {
                    c
                },
                None => c,
            }
        },
        Err(_) => c,
    }
}

/// The compositor after a queued frame was submitted, or refused.
pub open spec fn after_submit<U>(
    c: CompositorView<U>,
    prepared: PreparedView,
    user_data: U,
    request: SubmitRequest,
    result: Result<PresentationMode, DrmError>,
) -> CompositorView<U> {
    match result {
        Ok(mode) => CompositorView {
            pending: Some(
                (
                    prepared.frame,
                    user_data,
                    if request.commit {
                        PresentationMode::Vsync
                    } else {
                        mode
                    },
                ),
            ),
            ..after_flip(c, prepared, Ok(()))
        },
        Err(error) => after_flip(c, prepared, Err(error)),
    }
}

/// The compositor after the frame on its way was shown.
pub open spec fn after_vblank<U>(c: CompositorView<U>) -> CompositorView<U> {
    match c.pending {
        Some((frame, _, _)) => CompositorView { pending: None, current: frame, ..c },
        None => c,
    }
}

/// The buffer of the swapchain that the frame shows anew.
pub open spec fn new_slot(frame: Seq<(u32, PlaneState)>, primary: u32) -> Option<Slot> {
    match state_of(frame, primary) {
        Some(state) => if state.skip {
            None
        } else {
            match state.buffer_spec() {
                Some(buffer) => match buffer.buffer {
                    ScanoutBuffer::Swapchain(slot) => Some(slot),
                    _ => None,
                },
                None => None,
            }
        },
        None => None,
    }
}

/// What is needed to start a frame.
#[derive(Clone, Copy, Debug)]
pub struct FrameStart {
    pub output: OutputState,
    pub allow_partial_update: bool,
}

/// How a frame is put on the screen.
#[derive(Clone, Copy, Debug, PartialEq, Eq, Structural)]
pub struct SubmitRequest {
    /// By a modeset, and not by a flip.
    pub commit: bool,
    pub allow_partial_update: bool,
    pub want_async: bool,
}

/// What follows once a frame was queued.
#[derive(Clone, Copy, Debug, PartialEq, Eq, Structural)]
pub struct QueueOutcome {
    /// The swapchain buffer that counts as submitted.
    pub slot: Option<Slot>,
    /// Whether the frame has to be submitted now.
    pub submit: bool,
}

impl<U> DrmCompositor<U> {
    /// A compositor that shows nothing yet. A cursor state is there if cursor buffers can be made.
    pub fn from_parts(
        primary: PlaneInfo,
        planes: Planes,
        formats: FormatTable,
        cursor_size: Size,
        policy: CursorPlanePolicy,
        has_cursor: bool,
        signaled_fence: Option<u64>,
        supports_fencing: bool,
        primary_is_opaque: bool,
        primary_plane_element_id: u64,
        output_mode_source: OutputModeSource,
    ) -> (r: DrmCompositor<U>)
        requires
            sorted_by_type(primary, planes),
            planes.cursor@.len() <= 32,
            planes.overlay@.len() <= 32,
        ensures
            r@.core.wf(),
            r@ == (CompositorView::<U> {
                core: CoreView {
                    primary,
                    planes,
                    formats,
                    cursor_size,
                    policy,
                    signaled_fence,
                    cursor: if has_cursor {
                        Some(
                            CursorState {
                                previous_output_transform: None,
                                previous_output_scale: None,
                                legacy: LegacyCursorState::initial(policy),
                            },
                        )
                    } else {
                        None
                    },
                    states: Map::empty(),
                    previous_states: Map::empty(),
                },
                output_mode_source,
                plane_ids: Seq::empty(),
                primary_is_opaque,
                primary_plane_element_id,
                supports_fencing,
                reset_pending: true,
                presentation_mode: PresentationMode::Vsync,
                current: seq![(primary.handle, PlaneState::idle())] + (if policy.reserves_spec() {
                    Seq::empty()
                } else {
                    idle_entries(planes.cursor@)
                }) + idle_entries(planes.overlay@),
                pending: None,
                queued: None,
                next: None,
                debug_flags: 0,
            }),
    {
        let current_frame = FrameState::from_planes(
            primary.handle,
            &planes,
            !policy.reserves_legacy_cursor(),
        );
        let cursor = if has_cursor {
            Some(
                CursorState {
                    previous_output_transform: None,
                    previous_output_scale: None,
                    legacy: LegacyCursorState::new(policy),
                },
            )
        } else {
            None
        };
        let overlay_plane_element_ids = OverlayPlaneElementIds::new();
        assert(overlay_plane_element_ids.plane_ids@ =~= Seq::empty());
        DrmCompositor {
            core: Core {
                primary,
                planes,
                formats,
                cursor_size,
                policy,
                signaled_fence,
                cursor,
                states: ElementStates::new(),
                previous_states: ElementStates::new(),
            },
            output_mode_source,
            overlay_plane_element_ids,
            primary_is_opaque,
            primary_plane_element_id,
            supports_fencing,
            reset_pending: true,
            presentation_mode: PresentationMode::Vsync,
            current_frame,
            pending_frame: None,
            queued_frame: None,
            next_frame: None,
            debug_flags: 0,
            effect_regions_workhouse: Vec::new(),
        }
    }

    /// The frame that the next one follows.
    pub fn previous_frame(&self) -> (r: &FrameState)
        ensures
            r@ == self@.previous(),
    {
        match &self.pending_frame {
            Some(pending) => &pending.frame,
            None => &self.current_frame,
        }
    }

    /// Starts a frame: the one prepared last is dropped. Planes that do not change may be left out
    /// unless a reset or a modeset is due. `mode` is what the mode source says.
    pub fn start_frame<A, B, F, R>(
        &mut self,
        is_active: bool,
        commit_pending: bool,
        mode: Option<OutputMode>,
    ) -> (r: Result<FrameStart, RenderFrameError<A, B, F, R>>)
        ensures
            final(self)@ == (if is_active {
                CompositorView { next: None, ..old(self)@ }
            } else {
                old(self)@
            }),
            r == (if !is_active {
                Err(
                    RenderFrameError::<A, B, F, R>::PrepareFrame(
                        FrameError::DrmError(DrmError::DeviceInactive),
                    ),
                )
            } else {
                match mode {
                    None => Err(
                        RenderFrameError::<A, B, F, R>::RenderFrame(
                            OutputDamageTrackerError::OutputNoMode,
                        ),
                    ),
                    Some(mode) => Ok(
                        FrameStart {
                            output: mode.output_spec(),
                            allow_partial_update: !old(self)@.reset_pending && !commit_pending,
                        },
                    ),
                }
            }),
    {
        if !is_active {
            return Err(
                RenderFrameError::PrepareFrame(FrameError::DrmError(DrmError::DeviceInactive)),
            );
        }
        self.next_frame = None;
        let allow_partial_update = !self.reset_pending && !commit_pending;
        match mode {
            None => Err(RenderFrameError::RenderFrame(OutputDamageTrackerError::OutputNoMode)),
            Some(mode) => Ok(FrameStart { output: mode.output(), allow_partial_update }),
        }
    }

    /// Puts the element states of the last frame aside, once there is a buffer for the new one.
    pub fn turn_states(&mut self)
        ensures
            final(self)@ == (CompositorView {
                core: CoreView {
                    states: old(self)@.core.previous_states,
                    previous_states: old(self)@.core.states,
                    ..old(self)@.core
                },
                ..old(self)@
            }),
    {
        std::mem::swap(&mut self.core.states, &mut self.core.previous_states);
        assert(self@ =~= (CompositorView {
            core: CoreView {
                states: old(self)@.core.previous_states,
                previous_states: old(self)@.core.states,
                ..old(self)@.core
            },
            ..old(self)@
        }));
    }

    /// The claim of the primary plane, without which no frame can be made. The states of the frame
    /// are dropped where there is none.
    pub fn primary_claimed<A, B, F>(&mut self, claim: Option<u64>) -> (r: Result<
        u64,
        FrameError<A, B, F>,
    >)
        ensures
            match claim {
                Some(claim) => r == Ok::<u64, FrameError<A, B, F>>(claim) && final(self)@
                    == old(self)@,
                None => r == Err::<u64, FrameError<A, B, F>>(FrameError::PrimaryPlaneClaimFailed)
                    && final(self)@ == (CompositorView {
                    core: CoreView { states: Map::empty(), ..old(self)@.core },
                    ..old(self)@
                }),
            },
    {
        match claim {
            Some(claim) => Ok(claim),
            None => {
                self.core.states = ElementStates::new();
                assert(self@ =~= (CompositorView {
                    core: CoreView { states: Map::empty(), ..old(self)@.core },
                    ..old(self)@
                }));
                Err(FrameError::PrimaryPlaneClaimFailed)
            },
        }
    }

    /// Forgets what the frame before knew about elements, and the framebuffers of client buffers
    /// that are gone, once all elements were looked at.
    pub fn settle_states(&mut self, alive: &Vec<u64>)
        ensures
            final(self)@ == (CompositorView {
                core: CoreView {
                    states: cleaned_up(old(self)@.core.states, alive@),
                    previous_states: Map::empty(),
                    ..old(self)@.core
                },
                ..old(self)@
            }),
    {
        self.core.states.cleanup(alive);
        self.core.previous_states.clear();
        assert(self@ =~= (CompositorView {
            core: CoreView {
                states: cleaned_up(old(self)@.core.states, alive@),
                previous_states: Map::empty(),
                ..old(self)@.core
            },
            ..old(self)@
        }));
    }

    /// Keeps a prepared frame, unless it is empty: an empty frame would only keep buffers alive.
    pub fn keep_frame(&mut self, prepared: PreparedFrame)
        ensures
            final(self)@ == (if prepared@.is_empty() {
                old(self)@
            } else {
                CompositorView { next: Some(prepared@), ..old(self)@ }
            }),
    {
        if !prepared.is_empty() {
            self.next_frame = Some(prepared);
        }
    }

    /// Takes the prepared frame, unless there is none or it is empty.
    fn take_next<A, B, F>(&mut self, is_active: bool) -> (r: Result<
        PreparedFrame,
        FrameError<A, B, F>,
    >)
        ensures
            final(self)@ == (if is_active {
                CompositorView { next: None, ..old(self)@ }
            } else {
                old(self)@
            }),
            match r {
                Ok(frame) => is_active && old(self)@.next == Some(frame@) && !frame@.is_empty(),
                Err(FrameError::DrmError(DrmError::DeviceInactive)) => !is_active,
                Err(FrameError::EmptyFrame) => is_active && (old(self)@.next matches Some(p)
                    ==> p.is_empty()),
                Err(_) => false,
            },
    {
        if !is_active {
            return Err(FrameError::DrmError(DrmError::DeviceInactive));
        }
        match self.next_frame.take() {
            None => Err(FrameError::EmptyFrame),
            Some(prepared) => if prepared.is_empty() {
                Err(FrameError::EmptyFrame)
            } else {
                Ok(prepared)
            },
        }
    }

    fn slot_of(&self, frame: &FrameState) -> (r: Option<Slot>)
        ensures
            r == new_slot(frame@, self@.core.primary.handle),
    {
        match frame.plane_state(self.core.primary.handle) {
            Some(state) => if state.skip {
                None
            } else {
                match state.buffer() {
                    Some(buffer) => match buffer.buffer {
                        ScanoutBuffer::Swapchain(slot) => Some(slot),
                        _ => None,
                    },
                    None => None,
                }
            },
            None => None,
        }
    }

    /// Queues the prepared frame for scan-out.
    ///
    /// Without a prepared frame, or with one that changes nothing, it is an error. A frame that
    /// was queued and not submitted yet is replaced. The frame has to be submitted at once if none
    /// is on its way to the screen.
    pub fn enqueue<A, B, F>(&mut self, user_data: U, is_active: bool) -> (r: Result<
        QueueOutcome,
        FrameError<A, B, F>,
    >)
        ensures
            match r {
                Ok(outcome) => is_active && (old(self)@.next matches Some(p) && !p.is_empty()
                    && final(self)@ == (CompositorView {
                    next: None,
                    queued: Some((p, user_data)),
                    ..old(self)@
                }) && outcome == (QueueOutcome {
                    slot: new_slot(p.frame, old(self)@.core.primary.handle),
                    submit: old(self)@.pending is None,
                })),
                Err(FrameError::DrmError(DrmError::DeviceInactive)) => !is_active && final(self)@
                    == old(self)@,
                Err(FrameError::EmptyFrame) => is_active && (old(self)@.next matches Some(p)
                    ==> p.is_empty()) && final(self)@ == (CompositorView {
                    next: None,
                    ..old(self)@
                }),
                Err(_) => false,
            },
    {
        let prepared_frame = match self.take_next(is_active) {
            Ok(prepared) => prepared,
            Err(error) => {
                return Err(error);
            },
        };
        let slot = self.slot_of(&prepared_frame.frame);
        self.queued_frame = Some(QueuedFrame { prepared_frame, user_data });
        Ok(QueueOutcome { slot, submit: self.pending_frame.is_none() })
    }

    /// Takes the queued frame to be submitted.
    pub fn take_queued(&mut self) -> (r: Option<QueuedFrame<U>>)
        ensures
            final(self)@ == (CompositorView { queued: None, ..old(self)@ }),
            match r {
                Some(queued) => old(self)@.queued == Some(
                    (queued.prepared_frame@, queued.user_data),
                ),
                None => old(self)@.queued is None,
            },
    {
        self.queued_frame.take()
    }

    /// How a queued frame is submitted: by a modeset if one is due, and otherwise by a flip, which
    /// may tear if that was asked for.
    pub fn submit_request(&self, queued: &QueuedFrame<U>, commit_pending: bool) -> (r: SubmitRequest)
        ensures
            r == (SubmitRequest {
                commit: commit_pending,
                allow_partial_update: queued.prepared_frame@.kind == PreparedFrameKind::Partial,
                want_async: self@.presentation_mode == PresentationMode::Async,
            }),
    {
        SubmitRequest {
            commit: commit_pending,
            allow_partial_update: queued.prepared_frame.kind == PreparedFrameKind::Partial,
            want_async: self.presentation_mode == PresentationMode::Async,
        }
    }

    fn handle_flip<A, B, F>(&mut self, prepared: &PreparedFrame, flip: Result<(), DrmError>) -> (r:
        Result<(), FrameError<A, B, F>>)
        ensures
            final(self)@ == after_flip(old(self)@, prepared@, flip),
            r == (match flip {
                Ok(_) => Ok(()),
                Err(error) => Err(FrameError::<A, B, F>::DrmError(error)),
            }),
    {
        match flip {
            Ok(_) => {
                if prepared.kind == PreparedFrameKind::Full {
                    self.reset_pending = false;
                }
                Ok(())
            },
            Err(error) => {
                if let DrmError::Access { invalid_input: true, raw_os_error: _ } = error {
                    if let Some(state) = prepared.frame.plane_state(self.core.primary.handle) {
                        if let Some(element) = state.element_state {
                            self.core.states.fail_primary(element.id);
                        }
                    }
                }
                assert(self@ =~= after_flip(old(self)@, prepared@, flip));
                Err(FrameError::DrmError(error))
            },
        }
    }

    /// Takes note of how the submission of a queued frame ended. A flip tells the mode in which it
    /// ran; a modeset is never asynchronous.
    pub fn finish_submit<A, B, F>(
        &mut self,
        queued: QueuedFrame<U>,
        request: SubmitRequest,
        result: Result<PresentationMode, DrmError>,
    ) -> (r: Result<(), FrameError<A, B, F>>)
        ensures
            match result {
                Ok(_) => r == Ok::<(), FrameError<A, B, F>>(()),
                Err(error) => r == Err::<(), FrameError<A, B, F>>(FrameError::DrmError(error)),
            },
            final(self)@ == after_submit(
                old(self)@,
                queued.prepared_frame@,
                queued.user_data,
                request,
                result,
            ),
    {
        let flip = match result {
            Ok(_) => Ok(()),
            Err(error) => Err(error),
        };
        let res = self.handle_flip(&queued.prepared_frame, flip);
        if let Ok(mode) = result {
            let presentation_mode = if request.commit {
                PresentationMode::Vsync
            } else {
                mode
            };
            self.pending_frame = Some(
                PendingFrame {
                    frame: queued.prepared_frame.frame,
                    user_data: queued.user_data,
                    presentation_mode,
                },
            );
        }
        res
    }

    /// Takes the prepared frame to be committed at once, with the swapchain buffer that counts as
    /// submitted.
    pub fn take_prepared<A, B, F>(&mut self, is_active: bool) -> (r: Result<
        (PreparedFrame, Option<Slot>),
        FrameError<A, B, F>,
    >)
        ensures
            final(self)@ == (if is_active {
                CompositorView { next: None, ..old(self)@ }
            } else {
                old(self)@
            }),
            match r {
                Ok((frame, slot)) => is_active && old(self)@.next == Some(frame@)
                    && !frame@.is_empty() && slot == new_slot(
                    frame@.frame,
                    old(self)@.core.primary.handle,
                ),
                Err(FrameError::DrmError(DrmError::DeviceInactive)) => !is_active,
                Err(FrameError::EmptyFrame) => is_active && (old(self)@.next matches Some(p)
                    ==> p.is_empty()),
                Err(_) => false,
            },
    {
        match self.take_next(is_active) {
            Ok(prepared) => {
                let slot = self.slot_of(&prepared.frame);
                Ok((prepared, slot))
            },
            Err(error) => Err(error),
        }
    }

    /// Takes note of how a commit ended. A committed frame is shown at once, and whatever was on
    /// its way or queued is dropped.
    pub fn finish_commit<A, B, F>(&mut self, prepared: PreparedFrame, flip: Result<(), DrmError>) -> (r:
        Result<(), FrameError<A, B, F>>)
        ensures
            final(self)@ == (if flip.is_ok() {
                CompositorView {
                    queued: None,
                    pending: None,
                    current: prepared@.frame,
                    ..after_flip(old(self)@, prepared@, flip)
                }
            } else {
                after_flip(old(self)@, prepared@, flip)
            }),
            r == (match flip {
                Ok(_) => Ok(()),
                Err(error) => Err(FrameError::<A, B, F>::DrmError(error)),
            }),
    {
        let res = self.handle_flip(&prepared, flip);
        if flip.is_ok() {
            self.queued_frame = None;
            self.pending_frame = None;
            self.current_frame = prepared.frame;
        }
        res
    }

    /// Marks the frame on its way as shown, and hands its user data out. Tells whether a queued
    /// frame has to be submitted now.
    pub fn mark_shown(&mut self) -> (r: Option<(U, bool)>)
        ensures
            match old(self)@.pending {
                Some((_, user_data, _)) => r == Some((user_data, old(self)@.queued is Some)),
                None => r is None,
            },
            final(self)@ == after_vblank(old(self)@),
    {
        match self.pending_frame.take() {
            Some(pending) => {
                self.current_frame = pending.frame;
                Some((pending.user_data, self.queued_frame.is_some()))
            },
            None => None,
        }
    }

    /// Takes note of whether the surface was reset. The next frame then names all planes.
    pub fn state_reset(&mut self, result: Result<(), DrmError>) -> (r: Result<(), DrmError>)
        ensures
            r == result,
            final(self)@ == (if result.is_ok() {
                CompositorView { reset_pending: true, ..old(self)@ }
            } else {
                old(self)@
            }),
    {
        if result.is_ok() {
            self.reset_pending = true;
        }
        result
    }

    pub open spec fn has_legacy_cursor_spec(view: CompositorView<U>) -> bool {
        view.core.cursor matches Some(cursor) && cursor.legacy.ownership is Active
    }

    /// Whether a legacy cursor is installed, which has to be taken off before some operations.
    pub fn has_legacy_cursor(&self) -> (r: bool)
        ensures
            r == Self::has_legacy_cursor_spec(self@),
    {
        match &self.core.cursor {
            Some(cursor) => cursor.legacy.active_presentation().is_some(),
            None => false,
        }
    }

    /// Takes note of whether the legacy cursor was taken off. One that could not be taken off is
    /// handed back.
    pub fn legacy_cursor_disabled(&mut self, succeeded: bool) -> (r: Option<LegacyCursorPresentation>)
        requires
            old(self)@.core.wf(),
        ensures
            final(self)@.core.wf(),
            final(self)@ == old(self)@.with_legacy(old(self)@.legacy().after_disable(succeeded)),
            r == (if succeeded || old(self)@.core.cursor is None {
                None
            } else {
                old(self)@.legacy().active_presentation_spec()
            }),
    {
        let mut retained: Option<LegacyCursorPresentation> = None;
        if let Some(cursor) = &self.core.cursor {
            let mut updated = *cursor;
            retained = updated.legacy.finish_disable(succeeded);
            self.core.cursor = Some(updated);
        }
        assert(self@ =~= old(self)@.with_legacy(old(self)@.legacy().after_disable(succeeded)));
        retained
    }

    /// Invalidate tokens and retained cursor buffers across a DRM lifecycle boundary.
    pub fn invalidate_legacy_cursor_lifecycle(&mut self)
        requires
            old(self)@.core.wf(),
        ensures
            final(self)@.core.wf(),
            final(self)@ == old(self)@.legacy_forgotten(),
    {
        let policy = self.core.policy;
        if let Some(cursor) = &self.core.cursor {
            let mut updated = *cursor;
            updated.legacy.invalidate(policy);
            self.core.cursor = Some(updated);
        }
        assert(self@ =~= old(self)@.legacy_forgotten());
    }

    /// Why an active legacy cursor can not be moved with this token, if it can not. Otherwise the
    /// cursor is to be moved.
    pub fn move_refusal(&self, token: LegacyCursorToken) -> (r: Option<LegacyCursorMoveResult>)
        ensures
            r == (match self@.core.cursor {
                Some(cursor) => cursor.legacy.move_refusal_spec(token),
                None => Some(LegacyCursorMoveResult::NotActive),
            }),
    {
        match &self.core.cursor {
            Some(cursor) => cursor.legacy.move_refusal(token),
            None => Some(LegacyCursorMoveResult::NotActive),
        }
    }

    /// Takes note of how moving the legacy cursor ended. Moves never submit a frame.
    pub fn legacy_cursor_moved(
        &mut self,
        token: LegacyCursorToken,
        physical_origin: Point,
        result: Result<(), Option<i32>>,
    ) -> (r: LegacyCursorMoveResult)
        requires
            old(self)@.core.wf(),
        ensures
            final(self)@.core.wf(),
            match old(self)@.core.cursor {
                None => r == LegacyCursorMoveResult::NotActive && final(self)@ == old(self)@,
                Some(cursor) => match cursor.legacy.move_refusal_spec(token) {
                    Some(refusal) => r == refusal && final(self)@ == old(self)@,
                    None => r == cursor.legacy.move_result(physical_origin, result) && final(self)@
                        == old(self)@.with_legacy(cursor.legacy.after_move(physical_origin, result)),
                },
            },
    {
        match self.move_refusal(token) {
            Some(refusal) => refusal,
            None => {
                let mut moved = LegacyCursorMoveResult::NotActive;
                if let Some(cursor) = &self.core.cursor {
                    let mut updated = *cursor;
                    moved = updated.legacy.finish_move(physical_origin, result);
                    self.core.cursor = Some(updated);
                }
                moved
            },
        }
    }

    /// Lets atomic frames have the cursor planes, in all frames there are.
    pub fn enable_atomic_cursor_planes(&mut self)
        ensures
            final(self)@ == with_atomic_cursor(old(self)@),
    {
        self.core.policy = CursorPlanePolicy::Atomic;
        self.current_frame.add_cursor_planes(&self.core.planes);
        if let Some(pending) = &mut self.pending_frame {
            pending.frame.add_cursor_planes(&self.core.planes);
        }
        if let Some(queued) = &mut self.queued_frame {
            queued.prepared_frame.frame.add_cursor_planes(&self.core.planes);
        }
        if let Some(next) = &mut self.next_frame {
            next.frame.add_cursor_planes(&self.core.planes);
        }
        assert(self@ =~= with_atomic_cursor(old(self)@));
    }

    /// Takes note of whether the surface was cleared, after the legacy cursor was forgotten. All
    /// planes are then idle, and no frame is on its way.
    pub fn cleared(&mut self, result: Result<(), DrmError>) -> (r: Result<(), DrmError>)
        ensures
            r == result,
            final(self)@ == (if result.is_ok() {
                CompositorView {
                    current: old(self)@.current.map_values(
                        |entry: (u32, PlaneState)| (entry.0, PlaneState::idle()),
                    ),
                    pending: None,
                    queued: None,
                    next: None,
                    ..old(self)@
                }
            } else {
                old(self)@
            }),
    {
        if result.is_ok() {
            self.current_frame.reset();
            self.pending_frame = None;
            self.queued_frame = None;
            self.next_frame = None;
        }
        result
    }

    /// Takes note of the outcome of a test for another format of the swapchain: whether the plane
    /// takes it only without its alpha channel, or why it can not be used.
    pub fn format_tested<A, B, F>(&mut self, tested: Result<bool, FrameError<A, B, F>>) -> (r: Result<
        (),
        FrameError<A, B, F>,
    >)
        ensures
            match tested {
                Ok(is_opaque) => r == Ok::<(), FrameError<A, B, F>>(()) && final(self)@ == (
                CompositorView { primary_is_opaque: is_opaque, ..old(self)@ }),
                Err(error) => r == Err::<(), FrameError<A, B, F>>(error) && final(self)@
                    == old(self)@,
            },
    {
        match tested {
            Ok(is_opaque) => {
                self.primary_is_opaque = is_opaque;
                Ok(())
            },
            Err(error) => Err(error),
        }
    }

    /// Sets the debug flags for rendering. Tells whether they changed, in which case the buffers
    /// of the swapchain have to be reset.
    pub fn change_debug_flags(&mut self, flags: u32) -> (r: bool)
        ensures
            r == (flags != old(self)@.debug_flags),
            final(self)@ == (CompositorView { debug_flags: flags, ..old(self)@ }),
    {
        if self.debug_flags != flags {
            self.debug_flags = flags;
            true
        } else {
            false
        }
    }

    /// Returns the current enabled debug flags
    pub fn debug_flags(&self) -> (r: u32)
        ensures
            r == self@.debug_flags,
    {
        self.debug_flags
    }

    /// The pacing requested for the next flip.
    pub fn presentation_mode(&self) -> (r: PresentationMode)
        ensures
            r == self@.presentation_mode,
    {
        self.presentation_mode
    }

    /// Requests a pacing mode for subsequent flips (sticky until changed).
    pub fn set_presentation_mode(&mut self, mode: PresentationMode)
        ensures
            final(self)@ == (CompositorView { presentation_mode: mode, ..old(self)@ }),
    {
        self.presentation_mode = mode;
    }

    /// The mode the currently pending flip actually ran in, or [`PresentationMode::Vsync`] when no
    /// flip is pending.
    pub fn pending_presentation_mode(&self) -> (r: PresentationMode)
        ensures
            r == (match self@.pending {
                Some((_, _, mode)) => mode,
                None => PresentationMode::Vsync,
            }),
    {
        match &self.pending_frame {
            Some(pending) => pending.presentation_mode,
            None => PresentationMode::Vsync,
        }
    }

    /// The primary plane of the output.
    pub fn plane(&self) -> (r: u32)
        ensures
            r == self@.core.primary.handle,
    {
        self.core.primary.handle
    }
}

/// A frame that was submitted comes back with its user data, and is the one that is shown then.
pub proof fn submitted_frames_are_shown<U>(
    c: CompositorView<U>,
    prepared: PreparedView,
    user_data: U,
    request: SubmitRequest,
    mode: PresentationMode,
)
    ensures
        after_submit(c, prepared, user_data, request, Ok(mode)).pending matches Some(pending)
            && pending.0 == prepared.frame && pending.1 == user_data,
        after_vblank(after_submit(c, prepared, user_data, request, Ok(mode))).current
            == prepared.frame,
        after_vblank(after_submit(c, prepared, user_data, request, Ok(mode))).pending is None,
{
}

/// A refused submission leaves the frame that is shown and the one on its way as they are.
pub proof fn refused_frames_change_nothing_on_screen<U>(
    c: CompositorView<U>,
    prepared: PreparedView,
    user_data: U,
    request: SubmitRequest,
    error: DrmError,
)
    ensures
        after_submit(c, prepared, user_data, request, Err(error)).current == c.current,
        after_submit(c, prepared, user_data, request, Err(error)).pending == c.pending,
        after_submit(c, prepared, user_data, request, Err(error)).reset_pending == c.reset_pending,
        after_submit(c, prepared, user_data, request, Err(error)).previous() == c.previous(),
{
}

/// A modeset is never reported as asynchronous.
pub proof fn modesets_are_never_asynchronous<U>(
    c: CompositorView<U>,
    prepared: PreparedView,
    user_data: U,
    request: SubmitRequest,
    mode: PresentationMode,
)
    requires
        request.commit,
    ensures
        after_submit(c, prepared, user_data, request, Ok(mode)).pending matches Some(pending)
            && pending.2 == PresentationMode::Vsync,
{
}

/// A full update is never empty, and only an accepted full update ends a reset.
pub proof fn resets_end_with_a_full_update<U>(
    c: CompositorView<U>,
    prepared: PreparedView,
    flip: Result<(), DrmError>,
)
    ensures
        prepared.kind == PreparedFrameKind::Full ==> !prepared.is_empty(),
        c.reset_pending ==> (!after_flip(c, prepared, flip).reset_pending <==> flip.is_ok()
            && prepared.kind == PreparedFrameKind::Full),
{
}

/// Giving the cursor planes to atomic frames puts nothing on any plane and takes nothing off.
pub proof fn atomic_cursor_planes_change_no_assignment<U>(c: CompositorView<U>, handle: u32)
    ensures
        crate::frame_state::assigned(with_atomic_cursor(c).current, handle)
            == crate::frame_state::assigned(c.current, handle),
        crate::frame_state::assigned(with_atomic_cursor(c).previous(), handle)
            == crate::frame_state::assigned(c.previous(), handle),
        !with_atomic_cursor(c).core.policy.reserves_spec(),
{
    crate::frame_state::adding_planes_keeps_the_frame(c.current, c.core.planes.cursor@);
    crate::frame_state::adding_planes_keeps_the_frame(c.previous(), c.core.planes.cursor@);
}

} // verus!
