//! What is exchanged with a device in the course of an operation, and what comes of it.

use vstd::prelude::*;
use crate::cursor_buffer::{CursorDrawing, DrawPhase};
use crate::buffer::{
    CachedDrmFramebuffer, DrmFramebuffer, FramebufferInfo, ScanoutBuffer, Slot, SyncPoint,
};
use crate::compositor::{
    after_flip, after_submit, new_slot, CompositorView, PreparedView, PresentationMode, SubmitRequest,
};
use crate::core_state::CoreView;
use crate::device::{RenderFailure, RenderOutput};
use crate::error::{DrmError, FrameError, OutputDamageTrackerError, RenderFrameError};
use crate::frame_build::FrameView;
use crate::frame_finish::{
    damage_report_spec, mergeable, merged_states, rendered_state, stand_ins, DamageReport,
    PlaneElement,
};
use crate::element::{ElementInfo, OutputState};
use crate::geometry::{Point, Size};
use crate::legacy_attempt::{LegacyAttempt, LegacyPhase};
use crate::legacy_cursor::{
    install_next, shows, InstallStep, LegacyCursorActive, LegacyCursorAssignment,
    LegacyCursorInstallResult, LegacyCursorOwnership, LegacyCursorPresentation, LegacyCursorState,
};
use crate::fourcc::{argb8888_code, linear_layout};
use crate::frame_state::{
    built_planes, fence_requests, fenced, state_of, unused_planes, with_fence, with_state,
    SurfacePlaneState,
};
use crate::plane::PlaneState;
use crate::prepared::PreparedFrameKind;
use crate::record::Exchange;

verus! {

// ---------------------------------------------------------------------------------------------
// Updates
// ---------------------------------------------------------------------------------------------

/// The fences that have to be made for a frame.
pub open spec fn wanted_fences(frame: Seq<(u32, PlaneState)>, supports_fencing: bool) -> Seq<
    (usize, SyncPoint),
> {
    if supports_fencing {
        fence_requests(frame)
    } else {
        Seq::empty()
    }
}

/// Whether a fence was asked for at each of the points, and nothing else.
pub open spec fn fence_talk<A, B, F, R>(
    wanted: Seq<(usize, SyncPoint)>,
    talk: Seq<Exchange<A, B, F, R>>,
) -> bool {
    &&& talk.len() == wanted.len()
    &&& forall|i: int|
        0 <= i < wanted.len() ==> (#[trigger] talk[i] matches Exchange::ExportFence {
            point,
            answer,
        } && point == wanted[i].1)
}

/// The frame with the fences that the device made stored at their points.
pub open spec fn with_fences<A, B, F, R>(
    frame: Seq<(u32, PlaneState)>,
    wanted: Seq<(usize, SyncPoint)>,
    talk: Seq<Exchange<A, B, F, R>>,
    upto: nat,
) -> Seq<(u32, PlaneState)>
    decreases upto,
{
    if upto == 0 {
        frame
    } else {
        let before = with_fences(frame, wanted, talk, (upto - 1) as nat);
        let at = wanted[upto - 1].0 as int;
        before.update(at, with_fence(before[at], talk[upto - 1]->ExportFence_answer))
    }
}

/// The planes without a configuration that have to be claimed for an update.
pub open spec fn wanted_planes(frame: Seq<(u32, PlaneState)>, allow_partial_update: bool) -> Seq<
    u32,
> {
    if allow_partial_update {
        Seq::empty()
    } else {
        unused_planes(frame)
    }
}

/// Whether each of the planes was claimed, or tried to be, and nothing else.
pub open spec fn claim_talk<A, B, F, R>(
    wanted: Seq<u32>,
    talk: Seq<Exchange<A, B, F, R>>,
) -> bool {
    &&& talk.len() == wanted.len()
    &&& forall|i: int|
        0 <= i < wanted.len() ==> (#[trigger] talk[i] matches Exchange::ClaimPlane {
            plane,
            answer,
        } && plane == wanted[i])
}

/// The planes among the first ones that could be claimed.
pub open spec fn claimed_planes<A, B, F, R>(
    wanted: Seq<u32>,
    talk: Seq<Exchange<A, B, F, R>>,
    upto: nat,
) -> Seq<u32>
    decreases upto,
{
    if upto == 0 {
        Seq::empty()
    } else {
        let before = claimed_planes(wanted, talk, (upto - 1) as nat);
        if talk[upto - 1]->ClaimPlane_answer is Some {
            before.push(wanted[upto - 1])
        } else {
            before
        }
    }
}

/// Whether an update was made ready: first the fences of the frame were made and stored, then, for
/// a full update, the unused planes claimed; `planes` is the update that puts the frame on the
/// screen.
#[verifier::opaque]
pub open spec fn update_talk<A, B, F, R>(
    before: Seq<(u32, PlaneState)>,
    after: Seq<(u32, PlaneState)>,
    supports_fencing: bool,
    allow_partial_update: bool,
    talk: Seq<Exchange<A, B, F, R>>,
    planes: Seq<SurfacePlaneState>,
) -> bool {
    let fences = wanted_fences(before, supports_fencing);
    let unused = wanted_planes(after, allow_partial_update);
    let asked = talk.take(fences.len() as int);
    let claims = talk.skip(fences.len() as int);
    &&& talk.len() == fences.len() + unused.len()
    &&& fence_talk(fences, asked)
    &&& after == with_fences(before, fences, asked, fences.len())
    &&& claim_talk(unused, claims)
    &&& planes == built_planes(
        after,
        allow_partial_update,
        claimed_planes(unused, claims, unused.len()),
    )
}

/// Whether an update was made ready for the frame and shown to the device, which gave the verdict.
#[verifier::opaque]
pub open spec fn test_talk<A, B, F, R>(
    before: Seq<(u32, PlaneState)>,
    after: Seq<(u32, PlaneState)>,
    supports_fencing: bool,
    allow_partial_update: bool,
    modeset: bool,
    talk: Seq<Exchange<A, B, F, R>>,
    verdict: Result<(), DrmError>,
) -> bool {
    talk.len() > 0 && (talk.last() matches Exchange::TestState { planes, allow_modeset, answer }
        && allow_modeset == modeset && answer == verdict && update_talk(
        before,
        after,
        supports_fencing,
        allow_partial_update,
        talk.drop_last(),
        planes,
    ))
}

proof fn lemma_same_fences<A, B, F, R>(
    frame: Seq<(u32, PlaneState)>,
    wanted: Seq<(usize, SyncPoint)>,
    a: Seq<Exchange<A, B, F, R>>,
    b: Seq<Exchange<A, B, F, R>>,
    upto: nat,
)
    requires
        upto <= a.len(),
        upto <= b.len(),
        forall|i: int| 0 <= i < upto ==> a[i] == b[i],
    ensures
        with_fences(frame, wanted, a, upto) == with_fences(frame, wanted, b, upto),
    decreases upto,
{
    if upto > 0 {
        lemma_same_fences(frame, wanted, a, b, (upto - 1) as nat);
    }
}

/// The fences stored so far do not depend on what is exchanged later.
pub proof fn later_talk_changes_no_fence<A, B, F, R>(
    frame: Seq<(u32, PlaneState)>,
    wanted: Seq<(usize, SyncPoint)>,
    talk: Seq<Exchange<A, B, F, R>>,
    next: Exchange<A, B, F, R>,
)
    ensures
        with_fences(frame, wanted, talk.push(next), talk.len()) == with_fences(
            frame,
            wanted,
            talk,
            talk.len(),
        ),
{
    lemma_same_fences(frame, wanted, talk.push(next), talk, talk.len());
}

proof fn lemma_same_claims<A, B, F, R>(
    wanted: Seq<u32>,
    a: Seq<Exchange<A, B, F, R>>,
    b: Seq<Exchange<A, B, F, R>>,
    upto: nat,
)
    requires
        upto <= a.len(),
        upto <= b.len(),
        forall|i: int| 0 <= i < upto ==> a[i] == b[i],
    ensures
        claimed_planes(wanted, a, upto) == claimed_planes(wanted, b, upto),
    decreases upto,
{
    if upto > 0 {
        lemma_same_claims(wanted, a, b, (upto - 1) as nat);
    }
}

/// The planes claimed so far do not depend on what is exchanged later.
pub proof fn later_talk_changes_no_claim<A, B, F, R>(
    wanted: Seq<u32>,
    talk: Seq<Exchange<A, B, F, R>>,
    next: Exchange<A, B, F, R>,
)
    ensures
        claimed_planes(wanted, talk.push(next), talk.len()) == claimed_planes(
            wanted,
            talk,
            talk.len(),
        ),
{
    lemma_same_claims(wanted, talk.push(next), talk, talk.len());
}

// ---------------------------------------------------------------------------------------------
// Cursors
// ---------------------------------------------------------------------------------------------

/// The drawing after the device answered what the drawing asks for, if that is what was exchanged.
pub open spec fn drawing_answered<A, B, F, R>(
    drawing: CursorDrawing,
    exchange: Exchange<A, B, F, R>,
) -> Option<CursorDrawing> {
    match (drawing.phase, exchange) {
        (DrawPhase::Create, Exchange::CreateCursorBuffer { size, code, modifier, answer }) => if size
            == drawing.plane_size && code == argb8888_code() && modifier == linear_layout() {
            Some(CursorDrawing { phase: drawing.after_create(answer), ..drawing })
        } else {
            None
        },
        (DrawPhase::Export { buffer }, Exchange::AddCursorFramebuffer { buffer: b, answer }) => if b
            == buffer {
            Some(
                CursorDrawing {
                    phase: match answer {
                        None => DrawPhase::Done(None),
                        Some(fb) => drawing.fill_phase(buffer, Some(fb)),
                    },
                    ..drawing
                },
            )
        } else {
            None
        },
        (
            DrawPhase::Copy { buffer, framebuffer },
            Exchange::CopyCursor { element, buffer: b, answer },
        ) => if element == drawing.element && b == buffer {
            Some(
                CursorDrawing {
                    phase: if answer {
                        DrawPhase::Done(Some((buffer, framebuffer)))
                    } else {
                        drawing.paint_phase(buffer, framebuffer)
                    },
                    ..drawing
                },
            )
        } else {
            None
        },
        (
            DrawPhase::Import { buffer, framebuffer, from_memory },
            Exchange::ImportCursor { element, from_memory: m, answer },
        ) => if element == drawing.element && m == from_memory {
            Some(
                CursorDrawing {
                    phase: if answer {
                        DrawPhase::Paint { buffer, framebuffer }
                    } else {
                        DrawPhase::Done(None)
                    },
                    ..drawing
                },
            )
        } else {
            None
        },
        (
            DrawPhase::Paint { buffer, framebuffer },
            Exchange::PaintCursor { element, buffer: b, size, transform, answer },
        ) => if element == drawing.element && b == buffer && size == drawing.plane_size && transform
            == drawing.output_transform {
            Some(
                CursorDrawing {
                    phase: if answer {
                        DrawPhase::Done(Some((buffer, framebuffer)))
                    } else {
                        DrawPhase::Done(None)
                    },
                    ..drawing
                },
            )
        } else {
            None
        },
        _ => None,
    }
}

/// The drawing after everything that was exchanged, if that is what the drawing asked for.
pub open spec fn drawing_after<A, B, F, R>(
    drawing: CursorDrawing,
    talk: Seq<Exchange<A, B, F, R>>,
) -> Option<CursorDrawing>
    decreases talk.len(),
{
    if talk.len() == 0 {
        Some(drawing)
    } else {
        match drawing_after(drawing, talk.drop_last()) {
            None => None,
            Some(before) => drawing_answered(before, talk.last()),
        }
    }
}

/// Whether a cursor was drawn, or could not be drawn: the device was asked what it can do, and then
/// for each step that the drawing takes, up to the end.
#[verifier::opaque]
pub open spec fn draw_talk<A, B, F, R>(
    drawing: CursorDrawing,
    talk: Seq<Exchange<A, B, F, R>>,
    result: Option<(u64, Option<FramebufferInfo>)>,
) -> bool {
    &&& talk.len() >= 2
    &&& talk[0] == Exchange::<A, B, F, R>::HasCursorRenderer { answer: drawing.has_renderer }
    &&& talk[1] == Exchange::<A, B, F, R>::SupportsCursorMemory {
        element: drawing.element,
        answer: drawing.memory_supported,
    }
    &&& drawing_after(drawing, talk.skip(2)) matches Some(end) && end.phase == DrawPhase::Done(
        result,
    )
}

// ---------------------------------------------------------------------------------------------
// Frames
// ---------------------------------------------------------------------------------------------

/// Whether a buffer was taken out of the swapchain and exported, and its framebuffer found or made
/// and kept; each failure ends it with its own error.
#[verifier::opaque]
pub open spec fn acquire_talk<A, B, F, R>(
    opaque: bool,
    talk: Seq<Exchange<A, B, F, R>>,
    result: Result<(Slot, Size, CachedDrmFramebuffer), FrameError<A, B, F>>,
) -> bool {
    talk.len() >= 1 && (talk[0] matches Exchange::Acquire { answer } && match answer {
        Err(error) => talk.len() == 1 && result == Err::<
            (Slot, Size, CachedDrmFramebuffer),
            FrameError<A, B, F>,
        >(FrameError::Allocator(error)),
        Ok(None) => talk.len() == 1 && result == Err::<
            (Slot, Size, CachedDrmFramebuffer),
            FrameError<A, B, F>,
        >(FrameError::NoFreeSlotsError),
        Ok(Some(slot)) => acquired_slot_talk(opaque, slot, talk.skip(1), result),
    })
}

/// The rest of it, once there is a buffer.
pub open spec fn acquired_slot_talk<A, B, F, R>(
    opaque: bool,
    slot: Slot,
    talk: Seq<Exchange<A, B, F, R>>,
    result: Result<(Slot, Size, CachedDrmFramebuffer), FrameError<A, B, F>>,
) -> bool {
    talk.len() >= 1 && (talk[0] matches Exchange::ExportSlot { slot: exported, answer } && exported
        == slot && match answer {
        Err(error) => talk.len() == 1 && result == Err::<
            (Slot, Size, CachedDrmFramebuffer),
            FrameError<A, B, F>,
        >(FrameError::AsDmabufError(error)),
        Ok(size) => talk.len() >= 2 && (talk[1] matches Exchange::SlotFramebuffer {
            slot: looked_up,
            answer,
        } && looked_up == slot && match answer {
            Some(fb) => talk.len() == 2 && result == Ok::<
                (Slot, Size, CachedDrmFramebuffer),
                FrameError<A, B, F>,
            >((slot, size, fb)),
            None => made_framebuffer_talk(opaque, slot, talk.skip(2), match result {
                Ok((s, z, fb)) => if s == slot && z == size {
                    Some(Ok(fb))
                } else {
                    None
                },
                Err(error) => Some(Err(error)),
            }),
        }),
    })
}

/// Whether a framebuffer was made for a buffer of the swapchain, and kept.
pub open spec fn made_framebuffer_talk<A, B, F, R>(
    opaque: bool,
    slot: Slot,
    talk: Seq<Exchange<A, B, F, R>>,
    result: Option<Result<CachedDrmFramebuffer, FrameError<A, B, F>>>,
) -> bool {
    talk.len() >= 1 && (talk[0] matches Exchange::AddSlotFramebuffer {
        slot: added,
        use_opaque,
        answer,
    } && added == slot && use_opaque == opaque && match answer {
        Err(error) => talk.len() == 1 && result == Some(
            Err::<CachedDrmFramebuffer, FrameError<A, B, F>>(FrameError::FramebufferExport(error)),
        ),
        Ok(None) => talk.len() == 1 && result == Some(
            Err::<CachedDrmFramebuffer, FrameError<A, B, F>>(FrameError::NoFramebuffer),
        ),
        Ok(Some(info)) => {
            let fb = CachedDrmFramebuffer { framebuffer: DrmFramebuffer::Exporter(info) };
            &&& talk.len() == 2
            &&& talk[1] == Exchange::<A, B, F, R>::KeepSlotFramebuffer { slot, fb }
            &&& result == Some(Ok::<CachedDrmFramebuffer, FrameError<A, B, F>>(fb))
        },
    })
}

/// The buffer of the swapchain that the primary plane shows.
pub open spec fn shown_slot(view: FrameView, primary: u32) -> Option<Slot> {
    match state_of(view.frame, primary) {
        Some(PlaneState { config: Some(config), .. }) => match config.buffer.buffer {
            ScanoutBuffer::Swapchain(slot) => Some(slot),
            _ => None,
        },
        _ => None,
    }
}

/// Whether an id was asked for again and again.
pub open spec fn id_talk<A, B, F, R>(talk: Seq<Exchange<A, B, F, R>>) -> bool {
    forall|i: int| 0 <= i < talk.len() ==> #[trigger] talk[i] is FreshId
}

/// The ids that were given out.
pub open spec fn ids_given<A, B, F, R>(talk: Seq<Exchange<A, B, F, R>>) -> Seq<u64> {
    Seq::new(talk.len(), |i: int| talk[i]->FreshId_answer)
}

/// Whether the frame took in what the renderer did: textures were dropped where nothing changed, the
/// damage reported where there is any, and the frame is what that makes of it.
pub open spec fn rendered_talk<A, B, F, R>(
    before: FrameView,
    after: FrameView,
    primary: u32,
    previous: Seq<(u32, PlaneState)>,
    ids: Seq<(u32, u64, u64)>,
    rendered: RenderOutput,
    talk: Seq<Exchange<A, B, F, R>>,
) -> bool {
    let state = state_of(before.frame, primary)->0;
    let properties = state.config->0.properties;
    let damage = damage_report_spec(previous, primary, rendered.has_damage);
    let dropped: int = if rendered.has_damage {
        0
    } else {
        1
    };
    let reported: int = if damage == DamageReport::Nothing {
        0
    } else {
        1
    };
    let clips = if reported == 0 {
        None
    } else {
        talk[dropped]->ReportDamage_answer
    };
    &&& talk.len() == dropped + reported
    &&& dropped == 1 ==> talk[0] == Exchange::<A, B, F, R>::CleanupTextures
    &&& reported == 1 ==> talk[dropped] == Exchange::<A, B, F, R>::ReportDamage {
        report: damage,
        src: properties.src,
        dst: properties.dst,
        output: before.output.geometry,
        transform: before.output.transform,
        answer: clips,
    }
    &&& after == (FrameView {
        states: if mergeable(before.states, rendered.states@) {
            merged_states(before.states, ids, rendered.states@)
        } else {
            before.states
        },
        frame: with_state(
            before.frame,
            primary,
            rendered_state(state, previous, primary, damage, clips, rendered.sync),
        ),
        ..before
    })
}

/// Whether the primary plane was rendered, if it shows a buffer of the swapchain: the buffer was
/// exported, ids were taken for the stand-ins of planes, everything was handed to the renderer, and
/// the frame took in what came of it. `result` tells whether anything had to be rendered.
#[verifier::opaque]
pub open spec fn render_talk<A, B, F, R>(
    before: FrameView,
    after: FrameView,
    core: CoreView,
    previous: Seq<(u32, PlaneState)>,
    ids_before: Seq<(u32, u64, u64)>,
    ids_after: Seq<(u32, u64, u64)>,
    flags: u32,
    talk: Seq<Exchange<A, B, F, R>>,
    result: Result<bool, RenderFrameError<A, B, F, R>>,
) -> bool {
    let primary = core.primary.handle;
    match shown_slot(before, primary) {
        None => {
            &&& talk == seq![Exchange::<A, B, F, R>::CleanupTextures]
            &&& after == before
            &&& ids_after == ids_before
            &&& result == Ok::<bool, RenderFrameError<A, B, F, R>>(false)
        },
        Some(slot) => talk.len() >= 1 && (talk[0] matches Exchange::ExportSlot {
            slot: exported,
            answer,
        } && exported == slot && match answer {
            Err(error) => {
                &&& talk.len() == 1
                &&& after == before
                &&& ids_after == ids_before
                &&& result == Err::<bool, RenderFrameError<A, B, F, R>>(
                    RenderFrameError::PrepareFrame(FrameError::AsDmabufError(error)),
                )
            },
            Ok(_) => {
                let n = before.overlay_elements.len() as int;
                let given = talk.subrange(1, 1 + n);
                let stood = stand_ins(before, core, ids_before, ids_given(given), n as nat);
                &&& talk.len() >= n + 2
                &&& id_talk(given)
                &&& ids_after == stood.1
                &&& drawn_talk(
                    before,
                    after,
                    primary,
                    previous,
                    slot,
                    stood.0,
                    ids_after,
                    flags,
                    talk.skip(1 + n),
                    result,
                )
            },
        }),
    }
}

/// The rest of it, from the call of the renderer on.
pub open spec fn drawn_talk<A, B, F, R>(
    before: FrameView,
    after: FrameView,
    primary: u32,
    previous: Seq<(u32, PlaneState)>,
    shown: Slot,
    stand_ins: Seq<PlaneElement>,
    ids: Seq<(u32, u64, u64)>,
    flags: u32,
    talk: Seq<Exchange<A, B, F, R>>,
    result: Result<bool, RenderFrameError<A, B, F, R>>,
) -> bool {
    talk.len() >= 1 && (talk[0] matches Exchange::Render {
        slot,
        plane_elements,
        elements,
        visible,
        clear_color,
        debug_flags,
        answer,
    } && slot == shown && plane_elements == stand_ins && elements == before.primary_plane_elements
        && visible == before.visible && clear_color == before.clear_color && debug_flags == flags
        && match answer {
        Err(RenderFailure::Bind(error)) => {
            &&& talk.len() == 1
            &&& after == before
            &&& result == Err::<bool, RenderFrameError<A, B, F, R>>(
                RenderFrameError::RenderFrame(OutputDamageTrackerError::Rendering(error)),
            )
        },
        Err(RenderFailure::Render(error)) => {
            &&& talk.len() == 2
            &&& talk[1] == Exchange::<A, B, F, R>::ResetBuffers
            &&& after == before
            &&& result == Err::<bool, RenderFrameError<A, B, F, R>>(
                RenderFrameError::RenderFrame(error),
            )
        },
        Ok(rendered) => {
            &&& result == Ok::<bool, RenderFrameError<A, B, F, R>>(true)
            &&& rendered_talk(before, after, primary, previous, ids, rendered, talk.skip(1))
        },
    })
}

// ---------------------------------------------------------------------------------------------
// Submission
// ---------------------------------------------------------------------------------------------

/// The planes of an update that went to the device.
pub open spec fn sent_planes<A, B, F, R>(sent: Exchange<A, B, F, R>) -> Seq<SurfacePlaneState> {
    match sent {
        Exchange::Commit { planes, event, answer } => planes,
        Exchange::PageFlip { planes, event, async_flip, answer } => planes,
        _ => Seq::empty(),
    }
}

/// How an update that is announced by an event was taken, if it was sent as asked for: a modeset is
/// never asynchronous.
pub open spec fn flip_answer<A, B, F, R>(
    sent: Exchange<A, B, F, R>,
    request: SubmitRequest,
) -> Option<Result<PresentationMode, DrmError>> {
    match sent {
        Exchange::Commit { planes, event, answer } => if request.commit && event {
            Some(
                match answer {
                    Ok(_) => Ok(PresentationMode::Vsync),
                    Err(error) => Err(error),
                },
            )
        } else {
            None
        },
        Exchange::PageFlip { planes, event, async_flip, answer } => if !request.commit && event
            && async_flip == request.want_async {
            Some(answer)
        } else {
            None
        },
        _ => None,
    }
}

/// Why something failed, if it did.
pub open spec fn failure<T, E>(r: Result<T, E>) -> Option<E> {
    match r {
        Ok(_) => None,
        Err(error) => Some(error),
    }
}

/// The same of the device, as an error of a frame.
pub open spec fn drm_failure<A, B, F, T>(r: Result<T, DrmError>) -> Option<FrameError<A, B, F>> {
    match r {
        Ok(_) => None,
        Err(error) => Some(FrameError::DrmError(error)),
    }
}

/// Whether a frame leaves out planes that do not change.
pub open spec fn is_partial(prepared: PreparedView) -> bool {
    prepared.kind == PreparedFrameKind::Partial
}

/// How the queued frame has to be submitted.
pub open spec fn request_for<U>(
    c: CompositorView<U>,
    prepared: PreparedView,
    commit: bool,
) -> SubmitRequest {
    SubmitRequest {
        commit,
        allow_partial_update: is_partial(prepared),
        want_async: c.presentation_mode == PresentationMode::Async,
    }
}

/// Whether the queued frame of a compositor was submitted: it was asked whether a modeset is due, the
/// update made ready, and sent as a modeset or a flip. What the device answered to that decides
/// about the compositor afterwards and the result.
#[verifier::opaque]
pub open spec fn submit_talk<A, B, F, R, U>(
    before: CompositorView<U>,
    after: CompositorView<U>,
    talk: Seq<Exchange<A, B, F, R>>,
    failed: Option<FrameError<A, B, F>>,
) -> bool {
    before.queued matches Some((prepared, user_data)) && talk.len() >= 2 && (
    talk[0] matches Exchange::CommitPending { answer } && exists|frame: Seq<(u32, PlaneState)>|
        #[trigger] update_talk(
            prepared.frame,
            frame,
            before.supports_fencing,
            is_partial(prepared),
            talk.subrange(1, talk.len() - 1),
            sent_planes(talk.last()),
        ) && fenced(prepared.frame, frame) && (flip_answer(
            talk.last(),
            request_for(before, prepared, answer),
        ) matches Some(result) && failed == drm_failure::<A, B, F, PresentationMode>(result) && after
            == after_submit(
            CompositorView { queued: None, ..before },
            PreparedView { frame, ..prepared },
            user_data,
            request_for(before, prepared, answer),
            result,
        )))
}

/// How many exchanges tell the swapchain that its buffer goes to the screen.
pub open spec fn slot_talk<A, B, F, R>(
    slot: Option<Slot>,
    talk: Seq<Exchange<A, B, F, R>>,
) -> bool {
    match slot {
        Some(slot) => talk == seq![Exchange::<A, B, F, R>::SlotSubmitted { slot }],
        None => talk.len() == 0,
    }
}

pub open spec fn slot_talk_len(slot: Option<Slot>) -> int {
    if slot is Some {
        1
    } else {
        0
    }
}

/// Whether a frame was queued: the device was asked whether it may be used, which is an error if it
/// may not. Without a frame that changes something nothing else happens. Otherwise its buffer
/// counts as submitted, and the frame itself is submitted unless another one is on its way.
#[verifier::opaque]
pub open spec fn queue_talk<A, B, F, R, U>(
    before: CompositorView<U>,
    after: CompositorView<U>,
    user_data: U,
    talk: Seq<Exchange<A, B, F, R>>,
    failed: Option<FrameError<A, B, F>>,
) -> bool {
    talk.len() >= 1 && (talk[0] matches Exchange::IsActive { answer } && if !answer {
        &&& talk.len() == 1
        &&& after == before
        &&& failed == Some(FrameError::<A, B, F>::DrmError(DrmError::DeviceInactive))
    } else if before.next is None || before.next->0.is_empty() {
        &&& talk.len() == 1
        &&& after == (CompositorView { next: None, ..before })
        &&& failed == Some(FrameError::<A, B, F>::EmptyFrame)
    } else {
        let prepared = before.next->0;
        let queued = CompositorView { next: None, queued: Some((prepared, user_data)), ..before };
        let slot = new_slot(prepared.frame, before.core.primary.handle);
        let at = 1 + slot_talk_len(slot);
        &&& talk.len() >= at
        &&& slot_talk(slot, talk.subrange(1, at))
        &&& if before.pending is Some {
            talk.len() == at && after == queued && failed is None
        } else {
            submit_talk(queued, after, talk.skip(at), failed)
        }
    })
}

/// Whether a frame was committed: like one that is queued, but as a full update and without an
/// event. A frame that the device takes is shown at once.
#[verifier::opaque]
pub open spec fn commit_talk<A, B, F, R, U>(
    before: CompositorView<U>,
    after: CompositorView<U>,
    talk: Seq<Exchange<A, B, F, R>>,
    failed: Option<FrameError<A, B, F>>,
) -> bool {
    talk.len() >= 1 && (talk[0] matches Exchange::IsActive { answer } && if !answer {
        &&& talk.len() == 1
        &&& after == before
        &&& failed == Some(FrameError::<A, B, F>::DrmError(DrmError::DeviceInactive))
    } else if before.next is None || before.next->0.is_empty() {
        &&& talk.len() == 1
        &&& after == (CompositorView { next: None, ..before })
        &&& failed == Some(FrameError::<A, B, F>::EmptyFrame)
    } else {
        let prepared = before.next->0;
        let slot = new_slot(prepared.frame, before.core.primary.handle);
        let at = 1 + slot_talk_len(slot);
        &&& talk.len() > at
        &&& slot_talk(slot, talk.subrange(1, at))
        &&& committed_talk(
            CompositorView { next: None, ..before },
            after,
            prepared,
            talk.skip(at),
            failed,
        )
    })
}

/// The rest of it, once the buffer counts as submitted.
pub open spec fn committed_talk<A, B, F, R, U>(
    before: CompositorView<U>,
    after: CompositorView<U>,
    prepared: PreparedView,
    talk: Seq<Exchange<A, B, F, R>>,
    failed: Option<FrameError<A, B, F>>,
) -> bool {
    let answer = talk.last()->Commit_answer;
    &&& talk.len() >= 1
    &&& talk.last() is Commit
    &&& !talk.last()->Commit_event
    &&& failed == drm_failure::<A, B, F, ()>(answer)
    &&& exists|frame: Seq<(u32, PlaneState)>| #[trigger]
        taken_as(
            before,
            after,
            prepared,
            frame,
            talk.drop_last(),
            sent_planes(talk.last()),
            answer,
        )
}

/// Whether the update for a frame was made ready, and the compositor is what the device's answer to it
/// makes of it.
pub open spec fn taken_as<A, B, F, R, U>(
    before: CompositorView<U>,
    after: CompositorView<U>,
    prepared: PreparedView,
    frame: Seq<(u32, PlaneState)>,
    talk: Seq<Exchange<A, B, F, R>>,
    planes: Seq<SurfacePlaneState>,
    answer: Result<(), DrmError>,
) -> bool {
    let flipped = after_flip(before, PreparedView { frame, ..prepared }, answer);
    &&& update_talk(prepared.frame, frame, before.supports_fencing, false, talk, planes)
    &&& fenced(prepared.frame, frame)
    &&& after == (if answer is Ok {
        CompositorView { queued: None, pending: None, current: frame, ..flipped }
    } else {
        flipped
    })
}

// ---------------------------------------------------------------------------------------------
// Taking the legacy cursor off
// ---------------------------------------------------------------------------------------------

/// Whether the legacy cursor was taken off, or tried to be, if one is installed.
pub open spec fn disable_talk<A, B, F, R>(
    installed: bool,
    talk: Seq<Exchange<A, B, F, R>>,
) -> bool {
    if installed {
        talk.len() == 1 && talk[0] is DisableCursor
    } else {
        talk.len() == 0
    }
}

/// Whether that was followed by one more exchange.
pub open spec fn disabled_before<A, B, F, R>(
    installed: bool,
    talk: Seq<Exchange<A, B, F, R>>,
    last: Exchange<A, B, F, R>,
) -> bool {
    talk.len() >= 1 && talk.last() == last && disable_talk(installed, talk.drop_last())
}

/// Whether a mode was handed to the device once the legacy cursor was taken off, and, if it can be
/// used, its extent to the swapchain.
pub open spec fn mode_talk<A, B, F, R>(
    installed: bool,
    mode: u64,
    size: Size,
    talk: Seq<Exchange<A, B, F, R>>,
    failed: Option<FrameError<A, B, F>>,
) -> bool {
    let at: int = if installed {
        1
    } else {
        0
    };
    talk.len() > at && disable_talk(installed, talk.take(at)) && (talk[at] matches Exchange::UseMode {
        mode: used,
        answer,
    } && used == mode && failed == drm_failure::<A, B, F, ()>(answer) && match answer {
        Ok(_) => talk.len() == at + 2 && talk[at + 1] == (Exchange::<A, B, F, R>::ResizeSwapchain {
            size,
        }),
        Err(_) => talk.len() == at + 1,
    })
}

// ---------------------------------------------------------------------------------------------
// Legacy cursors
// ---------------------------------------------------------------------------------------------

/// Whether the cursor of an attempt was drawn, or could not be drawn.
pub open spec fn drawn_by<A, B, F, R>(
    attempt: LegacyAttempt,
    talk: Seq<Exchange<A, B, F, R>>,
    drawn: Option<(u64, Option<FramebufferInfo>)>,
) -> bool {
    exists|has_renderer: bool, memory_supported: bool| #[trigger]
        draw_talk(
            CursorDrawing {
                element: attempt.element,
                element_size: attempt.element_size,
                plane_size: attempt.plane_size,
                output_transform: attempt.output.transform,
                needs_framebuffer: false,
                has_renderer,
                memory_supported,
                phase: DrawPhase::Create,
            },
            talk,
            drawn,
        )
}

pub open spec fn drawn_buffer(drawn: Option<(u64, Option<FramebufferInfo>)>) -> Option<u64> {
    match drawn {
        Some((buffer, _)) => Some(buffer),
        None => None,
    }
}

/// The answer to the ioctl that a step of an installation asks for, if that was exchanged.
pub open spec fn ioctl_answer<A, B, F, R>(
    step: InstallStep,
    buffer: u64,
    origin: Point,
    exchange: Exchange<A, B, F, R>,
) -> Option<Result<(), Option<i32>>> {
    match (step, exchange) {
        (InstallStep::DisableReplaced, Exchange::DisableCursor { answer }) => Some(answer),
        (InstallStep::DisableMisplaced, Exchange::DisableCursor { answer }) => Some(answer),
        (InstallStep::MoveFirst, Exchange::MoveCursor { origin: o, answer }) => if o == origin {
            Some(answer)
        } else {
            None
        },
        (InstallStep::MoveInstalled, Exchange::MoveCursor { origin: o, answer }) => if o == origin {
            Some(answer)
        } else {
            None
        },
        (InstallStep::Install, Exchange::InstallCursor { buffer: b, answer }) => if b == buffer {
            Some(answer)
        } else {
            None
        },
        (InstallStep::Done(_), Exchange::InstallCursor { buffer: b, answer }) => if b == buffer {
            Some(answer)
        } else {
            None
        },
        _ => None,
    }
}

/// Whether an attempt at the legacy cursor went on from where it stands up to its end: what was
/// exchanged is what its steps ask for, and the answers decide about the result and about the state
/// of the legacy cursor.
pub open spec fn legacy_talk<A, B, F, R>(
    attempt: LegacyAttempt,
    legacy: LegacyCursorState,
    talk: Seq<Exchange<A, B, F, R>>,
    result: (LegacyCursorAssignment, bool),
    after: LegacyCursorState,
) -> bool
    decreases attempt.steps_left(),
{
    match attempt.phase {
        LegacyPhase::Done { assignment, released } => {
            &&& talk.len() == 0
            &&& result == (assignment, released)
            &&& after == legacy
        },
        LegacyPhase::Move => {
            let answer = talk[0]->MoveCursor_answer;
            &&& talk.len() >= 1
            &&& talk[0] is MoveCursor
            &&& talk[0]->MoveCursor_origin == attempt.origin
            &&& legacy_talk(
                LegacyAttempt { phase: attempt.moved_phase(legacy, answer), ..attempt },
                legacy.after_move(attempt.origin, answer),
                talk.skip(1),
                result,
                after,
            )
        },
        LegacyPhase::Draw => exists|k: int, drawn: Option<(u64, Option<FramebufferInfo>)>|
            0 <= k <= talk.len() && #[trigger] drawn_by(attempt, talk.take(k), drawn) && legacy_talk(
                LegacyAttempt {
                    phase: LegacyAttempt::drawn_phase(legacy, drawn_buffer(drawn)),
                    ..attempt
                },
                legacy,
                talk.skip(k),
                result,
                after,
            ),
        LegacyPhase::Install { step, buffer } => {
            let answer = ioctl_answer(step, buffer, attempt.origin, talk[0]);
            &&& talk.len() >= 1
            &&& answer is Some
            &&& match install_next(step, legacy.legacy_succeeded, answer->0) {
                InstallStep::Done(outcome) => legacy_talk(
                    LegacyAttempt {
                        phase: LegacyPhase::Done {
                            assignment: legacy.install_assignment(
                                outcome,
                                attempt.fresh(legacy, buffer),
                            ),
                            released: outcome == LegacyCursorInstallResult::Atomic,
                        },
                        ..attempt
                    },
                    legacy.after_install(outcome, attempt.fresh(legacy, buffer)),
                    talk.skip(1),
                    result,
                    after,
                ),
                next => legacy_talk(
                    LegacyAttempt { phase: LegacyPhase::Install { step: next, buffer }, ..attempt },
                    legacy,
                    talk.skip(1),
                    result,
                    after,
                ),
            }
        },
    }
}

/// A cursor that is installed with the same content is presented at the new place: nothing is sent
/// where it is there already, and nothing but the move where that is accepted.
pub proof fn shown_cursors_are_kept_or_moved<A, B, F, R>(
    element: ElementInfo,
    output: OutputState,
    cursor_size: Size,
    legacy: LegacyCursorState,
    active: LegacyCursorActive,
    talk: Seq<Exchange<A, B, F, R>>,
    result: (LegacyCursorAssignment, bool),
    after: LegacyCursorState,
)
    requires
        legacy.ownership == LegacyCursorOwnership::Active(active),
        shows(
            active,
            element,
            output.transform.transform_size_spec(element.geometry.size),
            output.scale,
            output.transform,
        ),
        !legacy.fast_motion_permanently_rejected,
        ({
            let size = output.transform.transform_size_spec(element.geometry.size);
            size.w <= cursor_size.w && size.h <= cursor_size.h
        }),
        legacy_talk(
            LegacyAttempt::begin_spec(element, output, cursor_size, Some(legacy)),
            legacy,
            talk,
            result,
            after,
        ),
    ensures
        ({
            let origin = LegacyAttempt::begin_spec(
                element,
                output,
                cursor_size,
                Some(legacy),
            ).origin;
            if active.presentation.physical_origin == origin {
                talk.len() == 0 && result == (
                    LegacyCursorAssignment::Presented(active.presentation),
                    false,
                ) && after == legacy
            } else {
                &&& talk.len() >= 1
                &&& talk[0] is MoveCursor
                &&& talk[0]->MoveCursor_origin == origin
                &&& talk[0]->MoveCursor_answer is Ok ==> talk.len() == 1 && result == (
                    LegacyCursorAssignment::Presented(
                        LegacyCursorPresentation { physical_origin: origin, ..active.presentation },
                    ),
                    false,
                )
            }
        }),
{
    reveal_with_fuel(legacy_talk, 3);
}

} // verus!
